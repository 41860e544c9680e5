use vstd::prelude::*;

verus! {

/// The kinds of lexical tokens of the language.
#[derive(Debug, Clone, Copy, PartialEq, Eq, Structural, Hash)]
pub enum TokenType {
    ILLEGAL,
    EOF,
    IDENT,
    INT,
    ASSIGN,
    PLUS,
    COMMA,
    SEMICOLON,
    LPAREN,
    RPAREN,
    LBRACE,
    RBRACE,
    FUNCTION,
    LET,
    BANG,
    MINUS,
    ASTERISK,
    SLASH,
    LT,
    GT,
    TRUE,
    FALSE,
    IF,
    ELSE,
    RETURN,
    EQ,
    NOTEQ,
    FLOAT,
}

/// The reserved word spelled by `s`, if any.
pub open spec fn keyword_of(s: Seq<char>) -> Option<TokenType> {
    if s == seq!['l', 'e', 't'] {
        Some(TokenType::LET)
    } else if s == seq!['f', 'n'] {
        Some(TokenType::FUNCTION)
    } else if s == seq!['r', 'e', 't', 'u', 'r', 'n'] {
        Some(TokenType::RETURN)
    } else if s == seq!['t', 'r', 'u', 'e'] {
        Some(TokenType::TRUE)
    } else if s == seq!['f', 'a', 'l', 's', 'e'] {
        Some(TokenType::FALSE)
    } else if s == seq!['i', 'f'] {
        Some(TokenType::IF)
    } else if s == seq!['e', 'l', 's', 'e'] {
        Some(TokenType::ELSE)
    } else {
        None
    }
}

/// The upper-case name of a token kind, as used in diagnostics.
pub open spec fn kind_name(t: TokenType) -> Seq<char> {
    match t {
        TokenType::ILLEGAL => seq!['I', 'L', 'L', 'E', 'G', 'A', 'L'],
        TokenType::EOF => seq!['E', 'O', 'F'],
        TokenType::IDENT => seq!['I', 'D', 'E', 'N', 'T'],
        TokenType::INT => seq!['I', 'N', 'T'],
        TokenType::ASSIGN => seq!['A', 'S', 'S', 'I', 'G', 'N'],
        TokenType::PLUS => seq!['P', 'L', 'U', 'S'],
        TokenType::COMMA => seq!['C', 'O', 'M', 'M', 'A'],
        TokenType::SEMICOLON => seq!['S', 'E', 'M', 'I', 'C', 'O', 'L', 'O', 'N'],
        TokenType::LPAREN => seq!['L', 'P', 'A', 'R', 'E', 'N'],
        TokenType::RPAREN => seq!['R', 'P', 'A', 'R', 'E', 'N'],
        TokenType::LBRACE => seq!['L', 'B', 'R', 'A', 'C', 'E'],
        TokenType::RBRACE => seq!['R', 'B', 'R', 'A', 'C', 'E'],
        TokenType::FUNCTION => seq!['F', 'U', 'N', 'C', 'T', 'I', 'O', 'N'],
        TokenType::LET => seq!['L', 'E', 'T'],
        TokenType::BANG => seq!['B', 'A', 'N', 'G'],
        TokenType::MINUS => seq!['M', 'I', 'N', 'U', 'S'],
        TokenType::ASTERISK => seq!['A', 'S', 'T', 'E', 'R', 'I', 'S', 'K'],
        TokenType::SLASH => seq!['S', 'L', 'A', 'S', 'H'],
        TokenType::LT => seq!['L', 'T'],
        TokenType::GT => seq!['G', 'T'],
        TokenType::TRUE => seq!['T', 'R', 'U', 'E'],
        TokenType::FALSE => seq!['F', 'A', 'L', 'S', 'E'],
        TokenType::IF => seq!['I', 'F'],
        TokenType::ELSE => seq!['E', 'L', 'S', 'E'],
        TokenType::RETURN => seq!['R', 'E', 'T', 'U', 'R', 'N'],
        TokenType::EQ => seq!['E', 'Q'],
        TokenType::NOTEQ => seq!['N', 'O', 'T', 'E', 'Q'],
        TokenType::FLOAT => seq!['F', 'L', 'O', 'A', 'T'],
    }
}

/// Builds a `String` from a literal, keeping its characters.
pub fn owned(s: &str) -> (r: String)
    ensures
        r@ == s@,
{
    s.to_owned()
}

/// Relies on `char::to_string`: a one-character string.
#[verifier::external_body]
pub(crate) fn char_to_string(c: char) -> (r: String)
    ensures
        r@ == seq![c],
{
    c.to_string()
}

impl TokenType {
    /// The keyword kind of `keyword`, or `None` for an ordinary identifier.
    pub fn get_keyword(keyword: &String) -> (r: Option<Self>)
        ensures
            r == keyword_of(keyword@),
    {
        let k = keyword.as_str();
        proof {
            reveal_strlit("let");
            reveal_strlit("fn");
            reveal_strlit("return");
            reveal_strlit("true");
            reveal_strlit("false");
            reveal_strlit("if");
            reveal_strlit("else");
            assert("let"@ =~= seq!['l', 'e', 't']);
            assert("fn"@ =~= seq!['f', 'n']);
            assert("return"@ =~= seq!['r', 'e', 't', 'u', 'r', 'n']);
            assert("true"@ =~= seq!['t', 'r', 'u', 'e']);
            assert("false"@ =~= seq!['f', 'a', 'l', 's', 'e']);
            assert("if"@ =~= seq!['i', 'f']);
            assert("else"@ =~= seq!['e', 'l', 's', 'e']);
        }
        if str_eq(k, "let") {
            Some(Self::LET)
        } else if str_eq(k, "fn") {
            Some(Self::FUNCTION)
        } else if str_eq(k, "return") {
            Some(Self::RETURN)
        } else if str_eq(k, "true") {
            Some(Self::TRUE)
        } else if str_eq(k, "false") {
            Some(Self::FALSE)
        } else if str_eq(k, "if") {
            Some(Self::IF)
        } else if str_eq(k, "else") {
            Some(Self::ELSE)
        } else {
            None
        }
    }

    /// The upper-case name of this kind.
    pub fn to_string(&self) -> (r: String)
        ensures
            r@ == kind_name(*self),
    {
        let s = match self {
            TokenType::ILLEGAL => "ILLEGAL",
            TokenType::EOF => "EOF",
            TokenType::IDENT => "IDENT",
            TokenType::INT => "INT",
            TokenType::ASSIGN => "ASSIGN",
            TokenType::PLUS => "PLUS",
            TokenType::COMMA => "COMMA",
            TokenType::SEMICOLON => "SEMICOLON",
            TokenType::LPAREN => "LPAREN",
            TokenType::RPAREN => "RPAREN",
            TokenType::LBRACE => "LBRACE",
            TokenType::RBRACE => "RBRACE",
            TokenType::FUNCTION => "FUNCTION",
            TokenType::LET => "LET",
            TokenType::BANG => "BANG",
            TokenType::MINUS => "MINUS",
            TokenType::ASTERISK => "ASTERISK",
            TokenType::SLASH => "SLASH",
            TokenType::LT => "LT",
            TokenType::GT => "GT",
            TokenType::TRUE => "TRUE",
            TokenType::FALSE => "FALSE",
            TokenType::IF => "IF",
            TokenType::ELSE => "ELSE",
            TokenType::RETURN => "RETURN",
            TokenType::EQ => "EQ",
            TokenType::NOTEQ => "NOTEQ",
            TokenType::FLOAT => "FLOAT",
        };
        proof {
            reveal_strlit("ILLEGAL");
            reveal_strlit("EOF");
            reveal_strlit("IDENT");
            reveal_strlit("INT");
            reveal_strlit("ASSIGN");
            reveal_strlit("PLUS");
            reveal_strlit("COMMA");
            reveal_strlit("SEMICOLON");
            reveal_strlit("LPAREN");
            reveal_strlit("RPAREN");
            reveal_strlit("LBRACE");
            reveal_strlit("RBRACE");
            reveal_strlit("FUNCTION");
            reveal_strlit("LET");
            reveal_strlit("BANG");
            reveal_strlit("MINUS");
            reveal_strlit("ASTERISK");
            reveal_strlit("SLASH");
            reveal_strlit("LT");
            reveal_strlit("GT");
            reveal_strlit("TRUE");
            reveal_strlit("FALSE");
            reveal_strlit("IF");
            reveal_strlit("ELSE");
            reveal_strlit("RETURN");
            reveal_strlit("EQ");
            reveal_strlit("NOTEQ");
            reveal_strlit("FLOAT");
        }
        owned(s)
    }
}

/// Character-by-character equality of two string slices.
pub fn str_eq(a: &str, b: &str) -> (r: bool)
    ensures
        r == (a@ == b@),
{
    let n = a.unicode_len();
    let m = b.unicode_len();
    if n != m {
        return false;
    }
    let mut i: usize = 0;
    while i < n
        invariant
            n == a@.len(),
            m == b@.len(),
            n == m,
            i <= n,
            a@.subrange(0, i as int) == b@.subrange(0, i as int),
        decreases n - i,
    {
        if a.get_char(i) != b.get_char(i) {
            assert(a@[i as int] != b@[i as int]);
            return false;
        }
        assert(a@.subrange(0, i + 1) == a@.subrange(0, i as int).push(a@[i as int]));
        assert(b@.subrange(0, i + 1) == b@.subrange(0, i as int).push(b@[i as int]));
        i = i + 1;
    }
    assert(a@ == a@.subrange(0, n as int));
    assert(b@ == b@.subrange(0, n as int));
    true
}

/// The view of a token: its kind and the characters of its literal text.
pub struct Lexeme {
    pub kind: TokenType,
    pub text: Seq<char>,
}

/// A lexical token: a kind together with the source text it was read from.
#[derive(Debug, Clone, PartialEq, Eq)]
pub struct Token {
    pub kind: TokenType,
    pub literal: String,
}

impl View for Token {
    type V = Lexeme;

    open spec fn view(&self) -> Lexeme {
        Lexeme { kind: self.kind, text: self.literal@ }
    }
}

impl Token {
    /// A token whose literal is the single character `ch`.
    pub fn from_char(token_type: TokenType, ch: char) -> (r: Token)
        ensures
            r.kind == token_type,
            r.literal@ == seq![ch],
    {
        Token { kind: token_type, literal: char_to_string(ch) }
    }

    /// A token whose literal is `s`.
    pub fn from_str(token_type: TokenType, s: &str) -> (r: Token)
        ensures
            r.kind == token_type,
            r.literal@ == s@,
    {
        Token { kind: token_type, literal: owned(s) }
    }

    /// A copy of this token.
    pub fn copy(&self) -> (r: Token)
        ensures
            r@ == self@,
            r.kind == self.kind,
            r.literal@ == self.literal@,
    {
        Token { kind: self.kind, literal: self.literal.clone() }
    }

    /// `[`KIND`: `literal`]`, the form used when listing a token stream.
    pub fn to_string(&self) -> (r: String)
        ensures
            r@ == token_display(self@),
    {
        let mut s = owned("[`");
        let k = self.kind.to_string();
        s.append(k.as_str());
        s.append("`: `");
        s.append(self.literal.as_str());
        s.append("`]");
        proof {
            reveal_strlit("[`");
            reveal_strlit("`: `");
            reveal_strlit("`]");
        }
        s
    }
}

/// The listing form of one token.
pub open spec fn token_display(t: Lexeme) -> Seq<char> {
    seq!['[', '`'] + kind_name(t.kind) + seq!['`', ':', ' ', '`'] + t.text + seq!['`', ']']
}

} // verus!
