use vstd::prelude::*;

use crate::ast::{
    BlockStatement, Boolean, CallExpression, Expression, ExpressionStatement, FloatLiteral,
    FunctionLiteral, Identifier, IfExpression, InfixExpression, IntegerLiteral, LetStatement,
    PrefixExpression, Program, ReturnStatement, Statement,
};
use crate::grammar::{
    adv, eof_lexeme, expect, expr_view, exprs_view, integer_message, names_view, opt_block_view,
    opt_expr_view, opt_stmt_view, p_block, p_call, p_args, p_expr, p_expr_stmt, p_fn, p_grouped,
    p_if, p_infix, p_let, p_loop, p_params, p_prefix, p_program, p_return, p_stmt, p_stmts,
    quoted, report, skip_to_semicolon, stmts_view, tok, ExprV, PState, StmtV,
};
use crate::lexer::{
    lemma_lexemes_from_unfold, lemma_next_lexeme_advances, lexemes, lexemes_from, next_lexeme,
    Lexer,
};
use crate::token::{kind_name, owned, Lexeme, Token, TokenType};

verus! {

// Binding strength of operators, weakest first.
pub const LOWEST: u8 = 1;
pub const EQUALS: u8 = 2;
pub const LESSGREATER: u8 = 3;
pub const SUM: u8 = 4;
pub const PRODUCT: u8 = 5;
pub const PREFIX: u8 = 6;
pub const CALL: u8 = 7;

/// The binding strength of a token used as an infix operator; `LOWEST`
/// for a token that is none.
pub open spec fn precedence_of(k: TokenType) -> u8 {
    match k {
        TokenType::EQ | TokenType::NOTEQ => EQUALS,
        TokenType::LT | TokenType::GT => LESSGREATER,
        TokenType::PLUS | TokenType::MINUS => SUM,
        TokenType::SLASH | TokenType::ASTERISK => PRODUCT,
        TokenType::LPAREN => CALL,
        _ => LOWEST,
    }
}

/// Token kinds that can continue an expression as an infix operator or a call.
pub open spec fn continues_expression(k: TokenType) -> bool {
    match k {
        TokenType::PLUS | TokenType::MINUS | TokenType::SLASH | TokenType::ASTERISK | TokenType::EQ
        | TokenType::NOTEQ | TokenType::LT | TokenType::GT | TokenType::LPAREN => true,
        _ => false,
    }
}

/// The value of a run of decimal digits.
pub open spec fn digits_value(s: Seq<char>) -> int
    decreases s.len(),
{
    if s.len() == 0 {
        0
    } else {
        digits_value(s.drop_last()) * 10 + (s.last() as int - '0' as int)
    }
}

pub open spec fn all_digits(s: Seq<char>) -> bool {
    forall|i: int| 0 <= i < s.len() ==> '0' <= #[trigger] s[i] && s[i] <= '9'
}

/// `s` read as a decimal `i64`: only a non-empty run of digits whose value
/// fits is one.
pub open spec fn decimal_i64(s: Seq<char>) -> Option<i64> {
    if s.len() > 0 && all_digits(s) && digits_value(s) <= i64::MAX {
        Some(digits_value(s) as i64)
    } else {
        None
    }
}

proof fn lemma_digits_value_nonneg(s: Seq<char>)
    requires
        all_digits(s),
    ensures
        digits_value(s) >= 0,
    decreases s.len(),
{
    if s.len() > 0 {
        lemma_digits_value_nonneg(s.drop_last());
    }
}

/// Reads a non-empty run of decimal digits as an `i64`; `None` when `s`
/// holds anything else or the value does not fit.
pub fn parse_decimal(s: &str) -> (r: Option<i64>)
    ensures
        r == decimal_i64(s@),
{
    let n = s.unicode_len();
    if n == 0 {
        return None;
    }
    let mut value: i64 = 0;
    let mut i: usize = 0;
    while i < n
        invariant
            n == s@.len(),
            i <= n,
            all_digits(s@.subrange(0, i as int)),
            value as int == digits_value(s@.subrange(0, i as int)),
        decreases n - i,
    {
        let c = s.get_char(i);
        let ghost pre = s@.subrange(0, i + 1);
        proof {
            assert(pre.drop_last() =~= s@.subrange(0, i as int));
        }
        if !('0' <= c && c <= '9') {
            assert(!all_digits(s@)) by {
                assert(s@[i as int] == c);
            }
            return None;
        }
        let d = (c as u32 - '0' as u32) as i64;
        proof {
            lemma_digits_value_nonneg(s@.subrange(0, i as int));
        }
        if value > (i64::MAX - d) / 10 {
            proof {
                assert(value * 10 + d > i64::MAX) by (nonlinear_arith)
                    requires
                        value > (i64::MAX - d) / 10,
                        0 <= d <= 9,
                ;
                let rest = s@.subrange(i + 1, n as int);
                assert(s@ =~= pre + rest);
                assert(digits_value(pre) == value * 10 + d);
                if all_digits(s@) {
                    lemma_digits_prefix_bound(pre, rest);
                }
            }
            return None;
        }
        value = value * 10 + d;
        proof {
            assert(all_digits(pre)) by {
                assert forall|k: int| 0 <= k < pre.len() implies '0' <= #[trigger] pre[k] && pre[k]
                    <= '9' by {
                    if k < i {
                        assert(pre[k] == s@.subrange(0, i as int)[k]);
                    }
                }
            }
        }
        i = i + 1;
    }
    assert(s@.subrange(0, n as int) =~= s@);
    Some(value)
}

/// A longer run of digits is worth at least as much as its prefix.
proof fn lemma_digits_prefix_bound(pre: Seq<char>, rest: Seq<char>)
    requires
        all_digits(pre + rest),
    ensures
        digits_value(pre + rest) >= digits_value(pre),
    decreases rest.len(),
{
    if rest.len() > 0 {
        let shorter = rest.drop_last();
        assert((pre + rest).drop_last() =~= pre + shorter);
        assert(all_digits(pre + shorter)) by {
            assert forall|k: int| 0 <= k < (pre + shorter).len() implies '0' <= #[trigger] (pre
                + shorter)[k] && (pre + shorter)[k] <= '9' by {
                assert((pre + shorter)[k] == (pre + rest)[k]);
            }
        }
        lemma_digits_prefix_bound(pre, shorter);
        lemma_digits_value_nonneg(pre + shorter);
        assert((pre + rest).last() == (pre + rest)[(pre + rest).len() - 1]);
    }
}

/// `expected next token to be K, got=K'`.
pub open spec fn peek_error_message(expected: TokenType, got: TokenType) -> Seq<char> {
    "expected next token to be "@ + kind_name(expected) + ", got="@ + kind_name(got)
}

/// ``no prefix parse function found for `K` ``.
pub open spec fn no_prefix_message(k: TokenType) -> Seq<char> {
    "no prefix parse function found for `"@ + kind_name(k) + "`"@
}

/// Reads tokens from a lexer, two at a time (the current and the next
/// one), and builds the syntax tree; syntax errors are collected, not fatal.
pub struct Parser {
    lex: Lexer,
    cur_token: Token,
    peek_token: Token,
    errors: Vec<String>,
    /// Every token of the input, the end marker included.
    toks: Ghost<Seq<Lexeme>>,
    /// The index of the current token in `toks`.
    idx: Ghost<int>,
}

fn push_str(s: &mut String, t: &str)
    ensures
        final(s)@ == old(s)@ + t@,
{
    s.append(t);
}

/// The tokens from index `j` on; only the end marker past the end.
pub open spec fn after(t: Seq<Lexeme>, j: int) -> Seq<Lexeme> {
    if 0 <= j < t.len() {
        t.subrange(j, t.len() as int)
    } else {
        seq![eof_lexeme()]
    }
}

/// Moving one token on keeps the lexer in step with the token stream.
proof fn lemma_advance(s: Seq<char>, pos: int, t: Seq<Lexeme>, i: int)
    requires
        0 <= pos <= s.len(),
        0 <= i <= t.len(),
        lexemes_from(s, pos) == after(t, i + 2),
    ensures
        next_lexeme(s, pos).0 == tok(t, i + 2),
        lexemes_from(s, next_lexeme(s, pos).1) == after(t, adv(t, PState { i, errs: seq![] }).i + 2),
        pos <= next_lexeme(s, pos).1 <= s.len(),
{
    lemma_lexemes_from_unfold(s, pos);
    let (x, at2) = next_lexeme(s, pos);
    lemma_lexemes_from_unfold(s, at2);
    if x.kind != TokenType::EOF {
        assert(i + 2 < t.len());
        assert(after(t, i + 2)[0] == t[i + 2]);
        assert(after(t, i + 2).drop_first() =~= lexemes_from(s, at2));
        assert(t.subrange(i + 2, t.len() as int).drop_first() =~= t.subrange(i + 3, t.len() as int));
        assert(i + 3 < t.len());
    } else {
        if i + 2 < t.len() {
            assert(t.subrange(i + 2, t.len() as int).len() == 1);
        }
    }
}

impl Parser {
    /// The current token.
    pub closed spec fn cur(&self) -> Lexeme {
        self.cur_token@
    }

    /// The token after the current one.
    pub closed spec fn peek(&self) -> Lexeme {
        self.peek_token@
    }

    /// The errors recorded so far, in order.
    pub closed spec fn errs(&self) -> Seq<Seq<char>> {
        self.errors@.map_values(|e: String| e@)
    }

    /// Every token of the input, the end marker included.
    pub closed spec fn stream(&self) -> Seq<Lexeme> {
        self.toks@
    }

    /// Where parsing stands in `stream()`.
    pub closed spec fn state(&self) -> PState {
        PState { i: self.idx@, errs: self.errs() }
    }

    /// The input still to be read by the lexer.
    pub closed spec fn rest(&self) -> int {
        self.lex.text().len() - self.lex.pos()
    }

    /// A measure of the work left: it never grows, and moving past a token
    /// other than the end marker shrinks it.
    pub closed spec fn measure(&self) -> int {
        2 * self.rest() + (if self.cur_token.kind != TokenType::EOF {
            1int
        } else {
            0int
        }) + (if self.peek_token.kind != TokenType::EOF {
            1int
        } else {
            0int
        })
    }

    pub closed spec fn wf(&self) -> bool {
        &&& self.lex.wf()
        &&& 0 <= self.lex.pos() <= self.lex.text().len()
        &&& self.cur_token.kind == TokenType::EOF ==> self.peek_token.kind == TokenType::EOF
        &&& self.peek_token.kind == TokenType::EOF ==> self.rest() == 0
        &&& 0 <= self.idx@ <= self.toks@.len()
        &&& self.cur_token@ == tok(self.toks@, self.idx@)
        &&& self.peek_token@ == tok(self.toks@, self.idx@ + 1)
        &&& lexemes_from(self.lex.text(), self.lex.pos()) == after(self.toks@, self.idx@ + 2)
    }

    /// `self` is a later state of `old`: well formed, the same tokens, no
    /// more work left, and the earlier errors kept in order.
    pub closed spec fn follows(&self, old: Parser) -> bool {
        &&& self.wf()
        &&& self.lex.text() == old.lex.text()
        &&& self.toks@ == old.toks@
        &&& old.idx@ <= self.idx@
        &&& self.measure() <= old.measure()
        &&& old.errs().is_prefix_of(self.errs())
    }

    /// In a well-formed parser the current and the next token are the
    /// stream's tokens at the current index and the one after it, and
    /// `errs()` are the errors that `state()` records.
    pub proof fn lemma_tokens_in_stream(&self)
        requires
            self.wf(),
        ensures
            self.cur() == tok(self.stream(), self.state().i),
            self.peek() == tok(self.stream(), self.state().i + 1),
            self.state().errs == self.errs(),
            0 <= self.state().i <= self.stream().len(),
    {
    }

    /// A later state keeps the token stream and is well formed.
    pub proof fn lemma_follows(&self, old: Parser)
        requires
            self.follows(old),
        ensures
            self.wf(),
            self.stream() == old.stream(),
            old.state().i <= self.state().i,
            old.errs().is_prefix_of(self.errs()),
    {
    }

    /// A parser reading the tokens of `lex`, from its current position.
    pub fn new(lex: Lexer) -> (r: Self)
        requires
            lex.wf(),
        ensures
            r.wf(),
            r.stream() == lexemes_from(lex.text(), lex.pos()),
            r.state() == (PState { i: 0, errs: seq![] }),
            r.cur() == tok(r.stream(), 0),
            r.peek() == tok(r.stream(), 1),
            r.errs() == Seq::<Seq<char>>::empty(),
    {
        let mut lex = lex;
        proof {
            lex.lemma_position_in_input();
        }
        let ghost s = lex.text();
        let ghost at0 = lex.pos();
        let ghost t = lexemes_from(s, at0);
        let cur_token = lex.next_token();
        proof {
            lemma_next_lexeme_advances(s, at0);
            lemma_lexemes_from_unfold(s, at0);
        }
        let ghost at1 = lex.pos();
        let peek_token = lex.next_token();
        proof {
            lemma_next_lexeme_advances(s, at1);
            lemma_lexemes_from_unfold(s, at1);
            lex.lemma_position_in_input();
            let at2 = lex.pos();
            lemma_lexemes_from_unfold(s, at2);
            if cur_token.kind == TokenType::EOF {
                crate::lexer::lemma_eof_stays(s, at1);
                assert(t =~= seq![eof_lexeme()]);
            } else if peek_token.kind == TokenType::EOF {
                crate::lexer::lemma_eof_stays(s, at2);
                assert(t =~= seq![cur_token@, eof_lexeme()]);
            } else {
                assert(t.subrange(2, t.len() as int) =~= lexemes_from(s, at2));
            }
        }
        let r = Parser {
            lex,
            cur_token,
            peek_token,
            errors: Vec::new(),
            toks: Ghost(t),
            idx: Ghost(0),
        };
        assert(r.errs() =~= Seq::<Seq<char>>::empty());
        r
    }

    /// A parser reading `input` from its start.
    pub fn from_str(input: &str) -> (r: Self)
        ensures
            r.wf(),
            r.stream() == lexemes(input@),
            r.state() == (PState { i: 0, errs: seq![] }),
            r.cur() == tok(r.stream(), 0),
            r.peek() == tok(r.stream(), 1),
            r.errs() == Seq::<Seq<char>>::empty(),
    {
        let s = owned(input);
        Parser::new(Lexer::new(&s))
    }

    /// Every infix operator kind with its binding strength.
    pub fn initialize_precedences() -> (r: Vec<(TokenType, u8)>)
        ensures
            forall|i: int| 0 <= i < r@.len() ==> continues_expression(#[trigger] r@[i].0) && r@[i].1
                == precedence_of(r@[i].0),
            forall|k: TokenType| continues_expression(k) ==> exists|i: int| 0 <= i < r@.len() && #[trigger] r@[i].0 == k,
    {
        let r = vec![
            (TokenType::EQ, EQUALS),
            (TokenType::NOTEQ, EQUALS),
            (TokenType::LT, LESSGREATER),
            (TokenType::GT, LESSGREATER),
            (TokenType::PLUS, SUM),
            (TokenType::MINUS, SUM),
            (TokenType::SLASH, PRODUCT),
            (TokenType::ASTERISK, PRODUCT),
            (TokenType::LPAREN, CALL),
        ];
        assert forall|k: TokenType| continues_expression(k) implies exists|i: int| 0 <= i < r@.len() && #[trigger] r@[i].0 == k by {
            if k == TokenType::EQ { assert(r@[0].0 == k); }
            else if k == TokenType::NOTEQ { assert(r@[1].0 == k); }
            else if k == TokenType::LT { assert(r@[2].0 == k); }
            else if k == TokenType::GT { assert(r@[3].0 == k); }
            else if k == TokenType::PLUS { assert(r@[4].0 == k); }
            else if k == TokenType::MINUS { assert(r@[5].0 == k); }
            else if k == TokenType::SLASH { assert(r@[6].0 == k); }
            else if k == TokenType::ASTERISK { assert(r@[7].0 == k); }
            else { assert(r@[8].0 == k); }
        }
        r
    }

    /// The binding strength of the next token.
    pub fn peek_precedence(&self) -> (r: u8)
        ensures
            r == precedence_of(self.peek().kind),
    {
        precedence(self.peek_token.kind)
    }

    /// The binding strength of the current token.
    pub fn current_precedence(&self) -> (r: u8)
        ensures
            r == precedence_of(self.cur().kind),
    {
        precedence(self.cur_token.kind)
    }

    /// The errors recorded so far.
    pub fn get_errors(&self) -> (r: &Vec<String>)
        ensures
            r@.map_values(|e: String| e@) == self.errs(),
    {
        &self.errors
    }

    fn record(&mut self, msg: String)
        requires
            old(self).wf(),
        ensures
            final(self).state() == report(old(self).state(), msg@),
            final(self).follows(*old(self)),
            final(self).cur() == old(self).cur(),
            final(self).peek() == old(self).peek(),
            final(self).measure() == old(self).measure(),
    {
        self.errors.push(msg);
        assert(self.errs() =~= old(self).errs().push(msg@));
    }

    /// Records that the next token was expected to be of kind `token_type`.
    pub fn peek_error(&mut self, token_type: TokenType)
        requires
            old(self).wf(),
        ensures
            final(self).state() == report(
                old(self).state(),
                peek_error_message(token_type, old(self).peek().kind),
            ),
            final(self).follows(*old(self)),
            final(self).cur() == old(self).cur(),
            final(self).peek() == old(self).peek(),
    {
        let mut m = owned("expected next token to be ");
        let a = token_type.to_string();
        push_str(&mut m, a.as_str());
        push_str(&mut m, ", got=");
        let b = self.peek_token.kind.to_string();
        push_str(&mut m, b.as_str());
        self.record(m);
    }

    /// Moves one token on: the next token becomes the current one and the
    /// lexer supplies a new next token.
    pub fn next_token(&mut self)
        requires
            old(self).wf(),
        ensures
            final(self).follows(*old(self)),
            final(self).state() == adv(old(self).stream(), old(self).state()),
            final(self).cur() == old(self).peek(),
            final(self).peek() == tok(final(self).stream(), final(self).state().i + 1),
            final(self).errs() == old(self).errs(),
            old(self).cur().kind != TokenType::EOF ==> final(self).measure() < old(self).measure(),
    {
        let ghost s = self.lex.text();
        let ghost p = self.lex.pos();
        let t = self.lex.next_token();
        proof {
            lemma_next_lexeme_advances(s, p);
            lemma_advance(s, p, self.toks@, self.idx@);
            if self.peek_token.kind == TokenType::EOF {
                crate::lexer::lemma_eof_stays(s, p);
            }
        }
        let mut t = t;
        std::mem::swap(&mut self.peek_token, &mut t);
        self.cur_token = t;
        proof {
            let t0 = self.toks@;
            let i0 = self.idx@;
            self.idx = Ghost(
                if i0 < t0.len() {
                    i0 + 1
                } else {
                    i0
                },
            );
        }
    }

    /// Whether the current token is of kind `token_type`.
    pub fn cur_token_is(&self, token_type: TokenType) -> (r: bool)
        ensures
            r == (self.cur().kind == token_type),
    {
        self.cur_token.kind == token_type
    }

    /// Whether the next token is of kind `token_type`.
    pub fn peek_token_is(&self, token_type: TokenType) -> (r: bool)
        ensures
            r == (self.peek().kind == token_type),
    {
        self.peek_token.kind == token_type
    }

    /// Moves on when the next token is of kind `token_type`; otherwise
    /// records the mismatch and stays.
    pub fn expect_peek_and_advance(&mut self, token_type: TokenType) -> (r: bool)
        requires
            old(self).wf(),
        ensures
            (r, final(self).state()) == expect(old(self).stream(), old(self).state(), token_type),
            r == (old(self).peek().kind == token_type),
            final(self).follows(*old(self)),
            r ==> final(self).cur() == old(self).peek() && final(self).errs() == old(self).errs(),
            !r ==> final(self).peek() == old(self).peek() && final(self).errs() == old(
                self,
            ).errs().push(peek_error_message(token_type, old(self).peek().kind)),
            r && old(self).cur().kind != TokenType::EOF ==> final(self).measure() < old(
                self,
            ).measure(),
            !r ==> final(self).cur() == old(self).cur(),
    {
        if self.peek_token_is(token_type) {
            self.next_token();
            true
        } else {
            self.peek_error(token_type);
            false
        }
    }

    /// Moves on until the current token is `;` or the end marker.
    pub fn skip_until_semicolon(&mut self)
        requires
            old(self).wf(),
        ensures
            final(self).follows(*old(self)),
            final(self).state() == skip_to_semicolon(old(self).stream(), old(self).state()),
            final(self).cur().kind == TokenType::SEMICOLON || final(self).cur().kind
                == TokenType::EOF,
    {
        while !self.cur_token_is(TokenType::SEMICOLON) && !self.cur_token_is(TokenType::EOF)
            invariant
                self.follows(*old(self)),
                skip_to_semicolon(self.stream(), old(self).state()) == skip_to_semicolon(
                    self.stream(),
                    self.state(),
                ),
            decreases self.measure(),
        {
            self.next_token();
        }
    }

    /// Records that no expression can start with a token of kind `token_type`.
    pub fn no_prefix_parse_fn_error(&mut self, token_type: TokenType)
        requires
            old(self).wf(),
        ensures
            final(self).state() == report(old(self).state(), no_prefix_message(token_type)),
            final(self).errs() == old(self).errs().push(no_prefix_message(token_type)),
            final(self).follows(*old(self)),
            final(self).cur() == old(self).cur(),
            final(self).peek() == old(self).peek(),
    {
        let mut m = owned("no prefix parse function found for `");
        let a = token_type.to_string();
        push_str(&mut m, a.as_str());
        push_str(&mut m, "`");
        self.record(m);
    }

    fn record_with_literal(&mut self, head: &str)
        requires
            old(self).wf(),
        ensures
            final(self).state() == report(old(self).state(), quoted(head@, old(self).cur().text)),
            final(self).follows(*old(self)),
            final(self).cur() == old(self).cur(),
    {
        let mut m = owned(head);
        push_str(&mut m, "`");
        push_str(&mut m, self.cur_token.literal.as_str());
        push_str(&mut m, "`");
        self.record(m);
    }

    /// Parses the whole input: one statement after another up to the end
    /// marker. A statement that fails is left out; its error is recorded.
    pub fn parse_program(&mut self) -> (r: Program)
        requires
            old(self).wf(),
        ensures
            final(self).follows(*old(self)),
            final(self).cur().kind == TokenType::EOF,
            (stmts_view(r.statements@), final(self).state()) == p_program(
                old(self).stream(),
                old(self).state(),
                seq![],
            ),
    {
        let mut statements: Vec<Statement> = Vec::new();
        let ghost t = self.toks@;
        proof {
            assert(stmts_view(statements@) =~= Seq::<StmtV>::empty());
        }
        while !self.cur_token_is(TokenType::EOF)
            invariant
                self.follows(*old(self)),
                t == self.toks@,
                p_program(t, old(self).state(), seq![]) == p_program(
                    t,
                    self.state(),
                    stmts_view(statements@),
                ),
            decreases self.measure(),
        {
            let ghost before = statements@;
            match self.parse_statement() {
                Some(stmt) => {
                    statements.push(stmt);
                    proof {
                        assert(statements@.drop_last() =~= before);
                    }
                },
                None => {},
            }
            self.next_token();
        }
        Program { statements }
    }

    /// Parses the statement that starts at the current token.
    pub fn parse_statement(&mut self) -> (r: Option<Statement>)
        requires
            old(self).wf(),
        ensures
            final(self).follows(*old(self)),
            r is Some ==> final(self).cur().kind != TokenType::EOF,
            (opt_stmt_view(r), final(self).state()) == p_stmt(old(self).stream(), old(self).state()),
        decreases old(self).measure(), 5int,
    {
        match self.cur_token.kind {
            TokenType::LET => self.parse_let_statement(),
            TokenType::RETURN => self.parse_return_statement(),
            _ => self.parse_expression_statement(),
        }
    }

    /// `( <expression> )`, the current token being `(`.
    pub fn parse_grouped_expressions(&mut self) -> (r: Option<Expression>)
        requires
            old(self).wf(),
            old(self).cur().kind == TokenType::LPAREN,
        ensures
            final(self).follows(*old(self)),
            r is Some ==> final(self).cur().kind == TokenType::RPAREN,
            (opt_expr_view(r), final(self).state()) == p_grouped(old(self).stream(), old(self).state()),
        decreases old(self).measure(), 2int,
    {
        self.next_token();
        let expr = self.parse_expression(LOWEST);
        match expr {
            None => None,
            Some(e) => {
                if !self.expect_peek_and_advance(TokenType::RPAREN) {
                    return None;
                }
                Some(e)
            },
        }
    }

    /// An expression followed by an optional `;`.
    pub fn parse_expression_statement(&mut self) -> (r: Option<Statement>)
        requires
            old(self).wf(),
        ensures
            final(self).follows(*old(self)),
            r is Some ==> final(self).cur().kind != TokenType::EOF,
            (opt_stmt_view(r), final(self).state()) == p_expr_stmt(old(self).stream(), old(self).state()),
        decreases old(self).measure(), 4int,
    {
        match self.parse_expression(LOWEST) {
            Some(expression) => {
                let token = self.cur_token.copy();
                if self.peek_token_is(TokenType::SEMICOLON) {
                    self.next_token();
                }
                Some(Statement::Expression(ExpressionStatement { token, expression }))
            },
            None => None,
        }
    }

    /// The expression that starts at the current token, taking infix
    /// operators as long as they bind more strongly than `precedence`.
    pub fn parse_expression(&mut self, precedence: u8) -> (r: Option<Expression>)
        requires
            old(self).wf(),
        ensures
            final(self).follows(*old(self)),
            r is Some ==> final(self).cur().kind != TokenType::EOF,
            (opt_expr_view(r), final(self).state()) == p_expr(
                old(self).stream(),
                old(self).state(),
                precedence as int,
            ),
        decreases old(self).measure(), 3int,
    {
        let left = match self.cur_token.kind {
            TokenType::IDENT => Some(self.parse_identifier()),
            TokenType::INT => self.parse_integer_literal(),
            TokenType::FLOAT => Some(self.parse_float_literal()),
            TokenType::TRUE | TokenType::FALSE => Some(self.parse_boolean()),
            TokenType::BANG | TokenType::MINUS => self.parse_prefix_expression(),
            TokenType::LPAREN => self.parse_grouped_expressions(),
            TokenType::IF => self.parse_if_expression(),
            TokenType::FUNCTION => self.parse_funtion_literal(),
            _ => {
                let k = self.cur_token.kind;
                self.no_prefix_parse_fn_error(k);
                return None;
            },
        };
        let mut left = match left {
            Some(e) => e,
            None => {
                return None;
            },
        };
        let ghost start = *old(self);
        let ghost t = self.toks@;
        while !self.peek_token_is(TokenType::SEMICOLON) && precedence < self.peek_precedence()
            && continues(self.peek_token.kind)
            invariant
                self.follows(start),
                self.cur().kind != TokenType::EOF,
                start == *old(self),
                t == self.toks@,
                p_expr(t, start.state(), precedence as int) == p_loop(
                    t,
                    self.state(),
                    precedence as int,
                    expr_view(left),
                ),
            decreases self.measure(),
        {
            if self.peek_token.kind == TokenType::LPAREN {
                self.next_token();
                match self.parse_call_expression(left) {
                    Some(e) => {
                        left = e;
                    },
                    None => {
                        return None;
                    },
                }
            } else {
                self.next_token();
                match self.parse_infix_expression(left) {
                    Some(e) => {
                        left = e;
                    },
                    None => {
                        return None;
                    },
                }
            }
        }
        Some(left)
    }

    /// `<operator><expression>`, the current token being the operator.
    pub fn parse_prefix_expression(&mut self) -> (r: Option<Expression>)
        requires
            old(self).wf(),
            old(self).cur().kind == TokenType::BANG || old(self).cur().kind == TokenType::MINUS,
        ensures
            final(self).follows(*old(self)),
            r is Some ==> final(self).cur().kind != TokenType::EOF,
            (opt_expr_view(r), final(self).state()) == p_prefix(old(self).stream(), old(self).state()),
        decreases old(self).measure(), 2int,
    {
        let token = self.cur_token.copy();
        let operator = self.cur_token.literal.clone();
        self.next_token();
        match self.parse_expression(PREFIX) {
            Some(right) => Some(
                Expression::Prefix(PrefixExpression { token, operator, right: Box::new(right) }),
            ),
            None => None,
        }
    }

    /// `<left> <operator> <expression>`, the current token being the
    /// operator; the right side takes only operators that bind more
    /// strongly, which makes equal operators group to the left.
    pub fn parse_infix_expression(&mut self, left: Expression) -> (r: Option<Expression>)
        requires
            old(self).wf(),
            old(self).cur().kind != TokenType::EOF,
        ensures
            final(self).follows(*old(self)),
            r is Some ==> final(self).cur().kind != TokenType::EOF,
            (opt_expr_view(r), final(self).state()) == p_infix(
                old(self).stream(),
                old(self).state(),
                expr_view(left),
            ),
        decreases old(self).measure(), 2int,
    {
        let token = self.cur_token.copy();
        let operator = self.cur_token.literal.clone();
        let precedence = self.current_precedence();
        self.next_token();
        match self.parse_expression(precedence) {
            Some(right) => Some(
                Expression::Infix(
                    InfixExpression { token, left: Box::new(left), operator, right: Box::new(right) },
                ),
            ),
            None => None,
        }
    }

    /// The argument list of a call, the current token being `(`; `function`
    /// is what is called.
    pub fn parse_call_expression(&mut self, function: Expression) -> (r: Option<Expression>)
        requires
            old(self).wf(),
            old(self).cur().kind == TokenType::LPAREN,
        ensures
            final(self).follows(*old(self)),
            r is Some ==> final(self).cur().kind != TokenType::EOF,
            (opt_expr_view(r), final(self).state()) == p_call(
                old(self).stream(),
                old(self).state(),
                expr_view(function),
            ),
        decreases old(self).measure(), 2int,
    {
        let token = self.cur_token.copy();
        let mut arguments: Vec<Expression> = Vec::new();
        if self.peek_token_is(TokenType::RPAREN) {
            self.next_token();
            assert(exprs_view(arguments@) =~= Seq::<ExprV>::empty());
            return Some(
                Expression::Call(CallExpression { token, function: Box::new(function), arguments }),
            );
        }
        let ghost start = *old(self);
        let ghost t = self.toks@;
        let ghost fv = expr_view(function);
        proof {
            assert(exprs_view(arguments@) =~= Seq::<ExprV>::empty());
        }
        loop
            invariant
                self.follows(start),
                self.cur().kind == TokenType::LPAREN || self.cur().kind == TokenType::COMMA,
                start == *old(self),
                t == self.toks@,
                fv == expr_view(function),
                p_call(t, start.state(), fv) == p_args(t, self.state(), token@, fv, exprs_view(arguments@)),
                token@ == start.cur(),
            decreases self.measure(),
        {
            self.next_token();
            let ghost before = arguments@;
            match self.parse_expression(LOWEST) {
                Some(arg) => {
                    let ghost av = expr_view(arg);
                    arguments.push(arg);
                    proof {
                        assert(arguments@.drop_last() =~= before);
                        assert(exprs_view(arguments@) == exprs_view(before).push(av));
                    }
                },
                None => {
                    self.record_with_literal(
                        "Error while parsing call expression arguments. Failed to parse argument, current token is ",
                    );
                    return None;
                },
            }
            self.next_token();
            if !self.cur_token_is(TokenType::RPAREN) && !self.cur_token_is(TokenType::COMMA) {
                self.record_with_literal(
                    "Error while parsing call expression arguments. Expected `,` or `)`, got=",
                );
                return None;
            }
            if self.cur_token_is(TokenType::RPAREN) {
                return Some(
                    Expression::Call(
                        CallExpression { token, function: Box::new(function), arguments },
                    ),
                );
            }
        }
    }

    /// `fn(<parameters>) { <body> }`, the current token being `fn`.
    pub fn parse_funtion_literal(&mut self) -> (r: Option<Expression>)
        requires
            old(self).wf(),
            old(self).cur().kind == TokenType::FUNCTION,
        ensures
            final(self).follows(*old(self)),
            r is Some ==> final(self).cur().kind != TokenType::EOF,
            (opt_expr_view(r), final(self).state()) == p_fn(old(self).stream(), old(self).state()),
        decreases old(self).measure(), 2int,
    {
        let token = self.cur_token.copy();
        if !self.expect_peek_and_advance(TokenType::LPAREN) {
            self.record_with_literal(
                "Error while parsing function. Expected next token to be `(`, got=",
            );
            return None;
        }
        self.next_token();
        let parameters = match self.parse_function_parameters() {
            Some(ps) => ps,
            None => {
                return None;
            },
        };
        if !self.expect_peek_and_advance(TokenType::LBRACE) {
            return None;
        }
        match self.parse_block_statement() {
            Some(body) => Some(Expression::Function(FunctionLiteral { token, parameters, body })),
            None => None,
        }
    }

    /// Parameter names separated by `,` up to the closing `)`, starting at
    /// the current token.
    pub fn parse_function_parameters(&mut self) -> (r: Option<Vec<Identifier>>)
        requires
            old(self).wf(),
        ensures
            final(self).follows(*old(self)),
            r is Some ==> final(self).cur().kind == TokenType::RPAREN,
            (match r {
                Some(ps) => Some(names_view(ps@)),
                None => None,
            }, final(self).state()) == p_params(old(self).stream(), old(self).state(), seq![]),
    {
        let mut parameters: Vec<Identifier> = Vec::new();
        let ghost t = self.toks@;
        proof {
            assert(names_view(parameters@) =~= Seq::<(Lexeme, Seq<char>)>::empty());
        }
        while !self.cur_token_is(TokenType::RPAREN)
            invariant
                self.follows(*old(self)),
                t == self.toks@,
                p_params(t, old(self).state(), seq![]) == p_params(
                    t,
                    self.state(),
                    names_view(parameters@),
                ),
            decreases self.measure(),
        {
            if !self.cur_token_is(TokenType::IDENT) {
                self.record_with_literal(
                    "Error while parsing function parameters. Expected next token to be `Identifier`, got=",
                );
                return None;
            }
            let ghost before = parameters@;
            let ghost name = (self.cur(), self.cur().text);
            parameters.push(
                Identifier { token: self.cur_token.copy(), value: self.cur_token.literal.clone() },
            );
            proof {
                assert(parameters@.drop_last() =~= before);
                assert(names_view(parameters@) == names_view(before).push(name));
            }
            self.next_token();
            if !self.cur_token_is(TokenType::COMMA) && !self.cur_token_is(TokenType::RPAREN) {
                self.record_with_literal(
                    "Error while parsing function parameters. Expected next token to be `,` or `)`, got=",
                );
                return None;
            }
            if self.cur_token_is(TokenType::COMMA) {
                self.next_token();
            }
        }
        Some(parameters)
    }

    /// `if (<condition>) { ... }`, optionally followed by `else { ... }`;
    /// the current token is `if`.
    #[verifier::rlimit(60)]
    pub fn parse_if_expression(&mut self) -> (r: Option<Expression>)
        requires
            old(self).wf(),
            old(self).cur().kind == TokenType::IF,
        ensures
            final(self).follows(*old(self)),
            r is Some ==> final(self).cur().kind != TokenType::EOF,
            (opt_expr_view(r), final(self).state()) == p_if(old(self).stream(), old(self).state()),
        decreases old(self).measure(), 2int,
    {
        let token = self.cur_token.copy();
        if !self.expect_peek_and_advance(TokenType::LPAREN) {
            self.record(owned("missing `(` after `if`"));
            return None;
        }
        self.next_token();
        let condition = match self.parse_expression(LOWEST) {
            Some(c) => c,
            None => {
                self.record(owned("missing `if`'s condition"));
                return None;
            },
        };
        if !self.expect_peek_and_advance(TokenType::RPAREN) {
            self.record(owned("missing closing `)` in `if`'s condition"));
            return None;
        }
        if !self.expect_peek_and_advance(TokenType::LBRACE) {
            self.record(owned("missing `{` after `if`'s condition"));
            return None;
        }
        let consequence = match self.parse_block_statement() {
            Some(b) => b,
            None => {
                return None;
            },
        };
        if !self.peek_token_is(TokenType::ELSE) {
            return Some(
                Expression::If(
                    IfExpression {
                        token,
                        condition: Box::new(condition),
                        consequence,
                        alternative: None,
                    },
                ),
            );
        }
        self.next_token();
        if !self.expect_peek_and_advance(TokenType::LBRACE) {
            self.record(owned("missing `{` after `else` denoting start of block statement"));
            return None;
        }
        match self.parse_block_statement() {
            Some(alternative) => Some(
                Expression::If(
                    IfExpression {
                        token,
                        condition: Box::new(condition),
                        consequence,
                        alternative: Some(alternative),
                    },
                ),
            ),
            None => {
                self.record(owned("`if`'s alternative block"));
                None
            },
        }
    }

    /// `{ <statements> }`, the current token being `{`. Fails when a
    /// statement inside fails or the input ends before the closing `}`.
    pub fn parse_block_statement(&mut self) -> (r: Option<BlockStatement>)
        requires
            old(self).wf(),
            old(self).cur().kind == TokenType::LBRACE,
        ensures
            final(self).follows(*old(self)),
            r is Some ==> final(self).cur().kind == TokenType::RBRACE,
            (opt_block_view(r), final(self).state()) == p_block(old(self).stream(), old(self).state()),
        decreases old(self).measure(), 2int,
    {
        let token = self.cur_token.copy();
        let mut statements: Vec<Statement> = Vec::new();
        self.next_token();
        let ghost start = *old(self);
        let ghost t = self.toks@;
        proof {
            assert(stmts_view(statements@) =~= Seq::<StmtV>::empty());
        }
        while !self.cur_token_is(TokenType::RBRACE)
            invariant
                self.follows(start),
                self.measure() < start.measure(),
                start == *old(self),
                t == self.toks@,
                p_stmts(t, adv(t, start.state()), seq![]) == p_stmts(t, self.state(), stmts_view(statements@)),
                token@ == start.cur(),
                0 <= start.state().i < t.len(),
                t == start.stream(),
            decreases self.measure(),
        {
            if self.cur_token_is(TokenType::EOF) {
                self.record_with_literal("Error while parsing `BlockStatement`. Expected `}`, got=");
                return None;
            }
            let ghost before = statements@;
            match self.parse_statement() {
                Some(stmt) => {
                    statements.push(stmt);
                    proof {
                        assert(statements@.drop_last() =~= before);
                    }
                },
                None => {
                    self.record_with_literal(
                        "Error while parsing `BlockStatement`. Expected `Statement`, got=",
                    );
                    return None;
                },
            }
            self.next_token();
        }
        Some(BlockStatement { token, statements })
    }

    /// `true` or `false`, the current token.
    pub fn parse_boolean(&mut self) -> (r: Expression)
        ensures
            expr_view(r) == ExprV::Bool(old(self).cur(), old(self).cur().kind == TokenType::TRUE),
            r->Boolean_0.token@ == old(self).cur(),
            *final(self) == *old(self),
    {
        Expression::Boolean(
            Boolean { token: self.cur_token.copy(), value: self.cur_token_is(TokenType::TRUE) },
        )
    }

    /// The name in the current token.
    pub fn parse_identifier(&mut self) -> (r: Expression)
        ensures
            expr_view(r) == ExprV::Ident(old(self).cur(), old(self).cur().text),
            r->Identifier_0.token@ == old(self).cur(),
            *final(self) == *old(self),
    {
        Expression::Identifier(
            Identifier { token: self.cur_token.copy(), value: self.cur_token.literal.clone() },
        )
    }

    /// The integer in the current token; an error when it is not a run of
    /// digits whose value fits in 64 bits.
    pub fn parse_integer_literal(&mut self) -> (r: Option<Expression>)
        requires
            old(self).wf(),
        ensures
            final(self).follows(*old(self)),
            final(self).cur() == old(self).cur(),
            (opt_expr_view(r), final(self).state()) == match decimal_i64(old(self).cur().text) {
                Some(v) => (Some(ExprV::Int(old(self).cur(), v)), old(self).state()),
                None => (None, report(old(self).state(), integer_message(old(self).cur().text))),
            },
            r is Some ==> r->0->Integer_0.token@ == old(self).cur(),
    {
        match parse_decimal(self.cur_token.literal.as_str()) {
            Some(value) => Some(
                Expression::Integer(IntegerLiteral { token: self.cur_token.copy(), value }),
            ),
            None => {
                let mut m = owned("could not parse `");
                push_str(&mut m, self.cur_token.literal.as_str());
                push_str(&mut m, "` into integer");
                self.record(m);
                None
            },
        }
    }

    /// The floating-point literal in the current token, kept as its text.
    pub fn parse_float_literal(&mut self) -> (r: Expression)
        ensures
            expr_view(r) == ExprV::Float(old(self).cur()),
            r->Float_0.token@ == old(self).cur(),
            *final(self) == *old(self),
    {
        Expression::Float(FloatLiteral { token: self.cur_token.copy() })
    }

    /// `return <expression>;`, the `;` optional; the current token is
    /// `return`.
    pub fn parse_return_statement(&mut self) -> (r: Option<Statement>)
        requires
            old(self).wf(),
            old(self).cur().kind == TokenType::RETURN,
        ensures
            final(self).follows(*old(self)),
            r is Some ==> final(self).cur().kind != TokenType::EOF,
            r is Some ==> r->0->Return_0.token@ == old(self).cur(),
            (opt_stmt_view(r), final(self).state()) == p_return(old(self).stream(), old(self).state()),
        decreases old(self).measure(), 4int,
    {
        let token = self.cur_token.copy();
        self.next_token();
        let expr = match self.parse_expression(LOWEST) {
            Some(e) => e,
            None => {
                return None;
            },
        };
        if self.peek_token_is(TokenType::SEMICOLON) {
            self.next_token();
        }
        Some(Statement::Return(ReturnStatement { token, return_value: expr }))
    }

    /// `let <name> = <expression>;`, the `;` optional; the current token is
    /// `let`.
    pub fn parse_let_statement(&mut self) -> (r: Option<Statement>)
        requires
            old(self).wf(),
            old(self).cur().kind == TokenType::LET,
        ensures
            final(self).follows(*old(self)),
            r is Some ==> final(self).cur().kind != TokenType::EOF,
            r is Some ==> r->0->Let_0.token@ == old(self).cur(),
            (opt_stmt_view(r), final(self).state()) == p_let(old(self).stream(), old(self).state()),
        decreases old(self).measure(), 4int,
    {
        let token = self.cur_token.copy();
        if !self.expect_peek_and_advance(TokenType::IDENT) {
            return None;
        }
        let name = Identifier { token: self.cur_token.copy(), value: self.cur_token.literal.clone() };
        if !self.expect_peek_and_advance(TokenType::ASSIGN) {
            return None;
        }
        self.next_token();
        let value = match self.parse_expression(LOWEST) {
            Some(e) => e,
            None => {
                return None;
            },
        };
        if self.peek_token_is(TokenType::SEMICOLON) {
            self.next_token();
        }
        Some(Statement::Let(LetStatement { token, name, value }))
    }
}

/// Parses `source`: the program and the syntax errors met, in order.
pub fn parse(source: &str) -> (r: (Program, Vec<String>))
    ensures
        stmts_view(r.0.statements@) == p_program(
            lexemes(source@),
            PState { i: 0, errs: seq![] },
            seq![],
        ).0,
        r.1@.map_values(|e: String| e@) == p_program(
            lexemes(source@),
            PState { i: 0, errs: seq![] },
            seq![],
        ).1.errs,
{
    let mut parser = Parser::from_str(source);
    let program = parser.parse_program();
    let errors = parser.errors;
    (program, errors)
}

fn continues(k: TokenType) -> (r: bool)
    ensures
        r == continues_expression(k),
{
    match k {
        TokenType::PLUS | TokenType::MINUS | TokenType::SLASH | TokenType::ASTERISK | TokenType::EQ
        | TokenType::NOTEQ | TokenType::LT | TokenType::GT | TokenType::LPAREN => true,
        _ => false,
    }
}

fn precedence(k: TokenType) -> (r: u8)
    ensures
        r == precedence_of(k),
{
    match k {
        TokenType::EQ | TokenType::NOTEQ => EQUALS,
        TokenType::LT | TokenType::GT => LESSGREATER,
        TokenType::PLUS | TokenType::MINUS => SUM,
        TokenType::SLASH | TokenType::ASTERISK => PRODUCT,
        TokenType::LPAREN => CALL,
        _ => LOWEST,
    }
}

} // verus!
