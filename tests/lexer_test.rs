use monkey_interpreter::lexer::Lexer;
use monkey_interpreter::token::{Token, TokenType};
use monkey_interpreter::utils::get_stringified_lexer_output;

fn assert_tokens_eq(expected_tokens: &Vec<Token>, tokens: &Vec<Token>) {
    assert_eq!(
        expected_tokens.len(),
        tokens.len(),
        "length of expected tokens doesn't match actual length, expected=`{}`, got=`{}`",
        expected_tokens.len(),
        tokens.len()
    );

    for (expected_token, token) in expected_tokens.iter().zip(tokens.iter()) {
        assert_eq!(expected_token, token);
    }
}

#[test]
fn should_tokenize_input() {
    let input = "let five = 5;
        let ten = 10;
    
        let add = fn(x, y) {
            x + y
        };
    
        let result = add(five, ten);
        ";

    let mut lex = Lexer::new(&input.to_string());

    let exp_tokens = Vec::from([
        Token::from_str(TokenType::LET, "let"),
        Token::from_str(TokenType::IDENT, "five"),
        Token::from_str(TokenType::ASSIGN, "="),
        Token::from_str(TokenType::INT, "5"),
        Token::from_str(TokenType::SEMICOLON, ";"),
        Token::from_str(TokenType::LET, "let"),
        Token::from_str(TokenType::IDENT, "ten"),
        Token::from_str(TokenType::ASSIGN, "="),
        Token::from_str(TokenType::INT, "10"),
        Token::from_str(TokenType::SEMICOLON, ";"),
        Token::from_str(TokenType::LET, "let"),
        Token::from_str(TokenType::IDENT, "add"),
        Token::from_str(TokenType::ASSIGN, "="),
        Token::from_str(TokenType::FUNCTION, "fn"),
        Token::from_str(TokenType::LPAREN, "("),
        Token::from_str(TokenType::IDENT, "x"),
        Token::from_str(TokenType::COMMA, ","),
        Token::from_str(TokenType::IDENT, "y"),
        Token::from_str(TokenType::RPAREN, ")"),
        Token::from_str(TokenType::LBRACE, "{"),
        Token::from_str(TokenType::IDENT, "x"),
        Token::from_str(TokenType::PLUS, "+"),
        Token::from_str(TokenType::IDENT, "y"),
        Token::from_str(TokenType::RBRACE, "}"),
        Token::from_str(TokenType::SEMICOLON, ";"),
        Token::from_str(TokenType::LET, "let"),
        Token::from_str(TokenType::IDENT, "result"),
        Token::from_str(TokenType::ASSIGN, "="),
        Token::from_str(TokenType::IDENT, "add"),
        Token::from_str(TokenType::LPAREN, "("),
        Token::from_str(TokenType::IDENT, "five"),
        Token::from_str(TokenType::COMMA, ","),
        Token::from_str(TokenType::IDENT, "ten"),
        Token::from_str(TokenType::RPAREN, ")"),
        Token::from_str(TokenType::SEMICOLON, ";"),
        Token::from_str(TokenType::EOF, "\0"),
    ]);

    let tokens = lex.get_all_tokens();

    assert_tokens_eq(&exp_tokens, &tokens);
}

#[test]
fn should_tokenize_input_2() {
    let input = "
        ! =/*5;
        5 < 10 > 5;
        ";

    let mut lex = Lexer::new(&input.to_string());

    let exp_tokens = Vec::from([
        Token::from_str(TokenType::BANG, "!"),
        Token::from_str(TokenType::ASSIGN, "="),
        Token::from_str(TokenType::SLASH, "/"),
        Token::from_str(TokenType::ASTERISK, "*"),
        Token::from_str(TokenType::INT, "5"),
        Token::from_str(TokenType::SEMICOLON, ";"),
        Token::from_str(TokenType::INT, "5"),
        Token::from_str(TokenType::LT, "<"),
        Token::from_str(TokenType::INT, "10"),
        Token::from_str(TokenType::GT, ">"),
        Token::from_str(TokenType::INT, "5"),
        Token::from_str(TokenType::SEMICOLON, ";"),
        Token::from_str(TokenType::EOF, "\0"),
    ]);

    let tokens = lex.get_all_tokens();
    assert_tokens_eq(&exp_tokens, &tokens);
}

#[test]
fn should_tokenize_should_tokenize_if_else_statement() {
    let input = "
        if (5 < 10) {
            return true;
        } else {
            return false;
        }
        ";

    let mut lex = Lexer::new(&input.to_string());

    let exp_tokens = Vec::from([
        Token::from_str(TokenType::IF, "if"),
        Token::from_str(TokenType::LPAREN, "("),
        Token::from_str(TokenType::INT, "5"),
        Token::from_str(TokenType::LT, "<"),
        Token::from_str(TokenType::INT, "10"),
        Token::from_str(TokenType::RPAREN, ")"),
        Token::from_str(TokenType::LBRACE, "{"),
        Token::from_str(TokenType::RETURN, "return"),
        Token::from_str(TokenType::TRUE, "true"),
        Token::from_str(TokenType::SEMICOLON, ";"),
        Token::from_str(TokenType::RBRACE, "}"),
        Token::from_str(TokenType::ELSE, "else"),
        Token::from_str(TokenType::LBRACE, "{"),
        Token::from_str(TokenType::RETURN, "return"),
        Token::from_str(TokenType::FALSE, "false"),
        Token::from_str(TokenType::SEMICOLON, ";"),
        Token::from_str(TokenType::RBRACE, "}"),
        Token::from_str(TokenType::EOF, "\0"),
    ]);

    let tokens = lex.get_all_tokens();
    assert_tokens_eq(&exp_tokens, &tokens)
}

#[test]
fn should_tokenize_equals_and_not_equals() {
    let input = "
        1001 == 1001;
        192 != 99;
        ";

    let mut lex = Lexer::new(&input.to_string());

    let exp_tokens = Vec::from([
        Token::from_str(TokenType::INT, "1001"),
        Token::from_str(TokenType::EQ, "=="),
        Token::from_str(TokenType::INT, "1001"),
        Token::from_str(TokenType::SEMICOLON, ";"),
        Token::from_str(TokenType::INT, "192"),
        Token::from_str(TokenType::NOTEQ, "!="),
        Token::from_str(TokenType::INT, "99"),
        Token::from_str(TokenType::SEMICOLON, ";"),
        Token::from_str(TokenType::EOF, "\0"),
    ]);

    let tokens = lex.get_all_tokens();
    assert_tokens_eq(&exp_tokens, &tokens);
}

#[test]
fn should_tokenize_floats() {
    let input = "
        let some_x = 5.55;
        6.891 != 891.129;
        41.;
        ";

    let mut lex = Lexer::new(&input.to_string());

    let exp_tokens = Vec::from([
        Token::from_str(TokenType::LET, "let"),
        Token::from_str(TokenType::IDENT, "some_x"),
        Token::from_str(TokenType::ASSIGN, "="),
        Token::from_str(TokenType::FLOAT, "5.55"),
        Token::from_str(TokenType::SEMICOLON, ";"),
        Token::from_str(TokenType::FLOAT, "6.891"),
        Token::from_str(TokenType::NOTEQ, "!="),
        Token::from_str(TokenType::FLOAT, "891.129"),
        Token::from_str(TokenType::SEMICOLON, ";"),
        Token::from_str(TokenType::ILLEGAL, "illegal"),
        Token::from_str(TokenType::SEMICOLON, ";"),
        Token::from_str(TokenType::EOF, "\0"),
    ]);

    let tokens = lex.get_all_tokens();

    assert_tokens_eq(&exp_tokens, &tokens);
}

#[test]
fn single_character_tokens_then_end_marker_repeats() {
    let input = "=!+-*/<>,;(){}";
    let mut lex = Lexer::new(&input.to_string());
    let kinds: Vec<TokenType> = lex.get_all_tokens().iter().map(|t| t.kind).collect();
    assert_eq!(
        kinds,
        vec![
            TokenType::ASSIGN,
            TokenType::BANG,
            TokenType::PLUS,
            TokenType::MINUS,
            TokenType::ASTERISK,
            TokenType::SLASH,
            TokenType::LT,
            TokenType::GT,
            TokenType::COMMA,
            TokenType::SEMICOLON,
            TokenType::LPAREN,
            TokenType::RPAREN,
            TokenType::LBRACE,
            TokenType::RBRACE,
            TokenType::EOF,
        ]
    );
    for _ in 0..3 {
        assert_eq!(lex.next_token().kind, TokenType::EOF);
    }
}

#[test]
fn empty_input_is_only_the_end_marker() {
    let mut lex = Lexer::new(&String::new());
    let tokens = lex.get_all_tokens();
    assert_eq!(tokens, vec![Token::from_char(TokenType::EOF, '\0')]);
}

#[test]
fn unknown_characters_and_underscored_names() {
    let mut lex = Lexer::new(&"_tmp @ x_1".to_string());
    let tokens = lex.get_all_tokens();
    assert_eq!(tokens[0], Token::from_str(TokenType::IDENT, "_tmp"));
    assert_eq!(tokens[1], Token::from_char(TokenType::ILLEGAL, '@'));
    assert_eq!(tokens[2], Token::from_str(TokenType::IDENT, "x_"));
    assert_eq!(tokens[3], Token::from_str(TokenType::INT, "1"));
    assert_eq!(tokens[4].kind, TokenType::EOF);
}

#[test]
fn keyword_table() {
    assert_eq!(TokenType::get_keyword(&"fn".to_string()), Some(TokenType::FUNCTION));
    assert_eq!(TokenType::get_keyword(&"else".to_string()), Some(TokenType::ELSE));
    assert_eq!(TokenType::get_keyword(&"lets".to_string()), None);
}

#[test]
fn lexer_listing_format() {
    assert_eq!(
        get_stringified_lexer_output("x == 1"),
        "[`IDENT`: `x`], [`EQ`: `==`], [`INT`: `1`], [`EOF`: `\0`]"
    );
    assert_eq!(Token::from_char(TokenType::PLUS, '+').to_string(), "[`PLUS`: `+`]");
}

#[test]
fn cursor_helpers_stop_on_the_last_character_read() {
    let mut lex = Lexer::new(&"123+".to_string());
    assert_eq!(lex.read_integer(), "123");
    assert_eq!(lex.peek_ahead(), '+');

    let mut lex = Lexer::new(&"abc_d;".to_string());
    assert_eq!(lex.read_identifier(), "abc_d");
    assert_eq!(lex.peek_ahead(), ';');

    let mut lex = Lexer::new(&"==x".to_string());
    let t = lex.make_two_char_token('=', TokenType::EQ);
    assert_eq!(t, Some(Token::from_str(TokenType::EQ, "==")));
    assert_eq!(lex.peek_ahead(), 'x');

    let mut lex = Lexer::new(&"=x".to_string());
    assert_eq!(lex.make_two_char_token('=', TokenType::EQ), None);
    assert_eq!(lex.peek_ahead(), 'x');
}
