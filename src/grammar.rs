use vstd::prelude::*;

use crate::ast::{
    block_text, comma, expr_text, list_text, names_text, program_text, stmt_text, stmts_text,
    BlockStatement, Expression, Identifier, Program, Statement,
};
use crate::parser::{
    continues_expression, decimal_i64, no_prefix_message, peek_error_message, precedence_of,
    LOWEST, PREFIX,
};
use crate::lexer::{
    is_blank, is_ident_char, lemma_blank_skipped, lemma_eof_stays, lemma_ident_run,
    lemma_lexemes_from_unfold, lexemes, lexemes_from, letter, next_lexeme, skip_blanks,
};
use crate::token::{keyword_of, Lexeme, TokenType};

verus! {

/// An expression node as the parser's contracts see it: each node keeps
/// the token it was read from.
pub enum ExprV {
    Ident(Lexeme, Seq<char>),
    Int(Lexeme, i64),
    Float(Lexeme),
    Bool(Lexeme, bool),
    Prefix(Lexeme, Seq<char>, Box<ExprV>),
    Infix(Lexeme, Box<ExprV>, Seq<char>, Box<ExprV>),
    If(Lexeme, Box<ExprV>, BlockV, Option<BlockV>),
    Func(Lexeme, Seq<(Lexeme, Seq<char>)>, BlockV),
    Call(Lexeme, Box<ExprV>, Seq<ExprV>),
}

/// A block: its `{` token and its statements.
pub struct BlockV {
    pub tok: Lexeme,
    pub stmts: Seq<StmtV>,
}

/// A statement node with the token it was read from; a `let` also keeps the
/// token and text of its name.
pub enum StmtV {
    Let(Lexeme, (Lexeme, Seq<char>), ExprV),
    Return(Lexeme, ExprV),
    Expr(Lexeme, ExprV),
    Block(BlockV),
}

pub open spec fn expr_view(e: Expression) -> ExprV
    decreases e,
{
    match e {
        Expression::Identifier(i) => ExprV::Ident(i.token@, i.value@),
        Expression::Integer(i) => ExprV::Int(i.token@, i.value),
        Expression::Float(f) => ExprV::Float(f.token@),
        Expression::Boolean(b) => ExprV::Bool(b.token@, b.value),
        Expression::Prefix(p) => ExprV::Prefix(p.token@, p.operator@, Box::new(expr_view(*p.right))),
        Expression::Infix(x) => ExprV::Infix(
            x.token@,
            Box::new(expr_view(*x.left)),
            x.operator@,
            Box::new(expr_view(*x.right)),
        ),
        Expression::If(x) => ExprV::If(
            x.token@,
            Box::new(expr_view(*x.condition)),
            BlockV { tok: x.consequence.token@, stmts: stmts_view(x.consequence.statements@) },
            match x.alternative {
                Some(a) => Some(BlockV { tok: a.token@, stmts: stmts_view(a.statements@) }),
                None => None,
            },
        ),
        Expression::Function(f) => ExprV::Func(
            f.token@,
            names_view(f.parameters@),
            BlockV { tok: f.body.token@, stmts: stmts_view(f.body.statements@) },
        ),
        Expression::Call(c) => ExprV::Call(
            c.token@,
            Box::new(expr_view(*c.function)),
            exprs_view(c.arguments@),
        ),
    }
}

pub open spec fn exprs_view(s: Seq<Expression>) -> Seq<ExprV>
    decreases s,
{
    if s.len() == 0 {
        Seq::empty()
    } else {
        exprs_view(s.drop_last()).push(expr_view(s.last()))
    }
}

pub open spec fn name_view(i: Identifier) -> (Lexeme, Seq<char>) {
    (i.token@, i.value@)
}

pub open spec fn names_view(s: Seq<Identifier>) -> Seq<(Lexeme, Seq<char>)>
    decreases s.len(),
{
    if s.len() == 0 {
        Seq::empty()
    } else {
        names_view(s.drop_last()).push(name_view(s.last()))
    }
}

pub open spec fn stmt_view(s: Statement) -> StmtV
    decreases s,
{
    match s {
        Statement::Let(l) => StmtV::Let(l.token@, name_view(l.name), expr_view(l.value)),
        Statement::Return(r) => StmtV::Return(r.token@, expr_view(r.return_value)),
        Statement::Expression(x) => StmtV::Expr(x.token@, expr_view(x.expression)),
        Statement::Block(b) => StmtV::Block(BlockV { tok: b.token@, stmts: stmts_view(b.statements@) }),
    }
}

pub open spec fn stmts_view(s: Seq<Statement>) -> Seq<StmtV>
    decreases s,
{
    if s.len() == 0 {
        Seq::empty()
    } else {
        stmts_view(s.drop_last()).push(stmt_view(s.last()))
    }
}

pub open spec fn block_view(b: BlockStatement) -> BlockV {
    BlockV { tok: b.token@, stmts: stmts_view(b.statements@) }
}

pub open spec fn opt_expr_view(r: Option<Expression>) -> Option<ExprV> {
    match r {
        Some(e) => Some(expr_view(e)),
        None => None,
    }
}

pub open spec fn opt_stmt_view(r: Option<Statement>) -> Option<StmtV> {
    match r {
        Some(s) => Some(stmt_view(s)),
        None => None,
    }
}

pub open spec fn opt_block_view(r: Option<BlockStatement>) -> Option<BlockV> {
    match r {
        Some(b) => Some(block_view(b)),
        None => None,
    }
}

/// The canonical text of an expression node: the same text that
/// `Expression::to_string` gives for any tree with this view.
pub open spec fn vexpr_text(v: ExprV) -> Seq<char>
    decreases v,
{
    match v {
        ExprV::Ident(_, n) => n,
        ExprV::Int(tk, _) => tk.text,
        ExprV::Float(tk) => tk.text,
        ExprV::Bool(tk, _) => tk.text,
        ExprV::Prefix(_, op, r) => seq!['('] + op + vexpr_text(*r) + seq![')'],
        ExprV::Infix(_, l, op, r) => seq!['('] + vexpr_text(*l) + seq![' '] + op + seq![' ']
            + vexpr_text(*r) + seq![')'],
        ExprV::If(_, c, cons, alt) => {
            let head = seq!['i', 'f', ' ', '('] + vexpr_text(*c) + seq![')', ' '] + vblock_text(
                cons,
            );
            match alt {
                Some(a) => head + seq![' ', 'e', 'l', 's', 'e', ' '] + vblock_text(a),
                None => head,
            }
        },
        ExprV::Func(_, ps, body) => seq!['f', 'n', '('] + vnames_text(ps) + seq![')', ' ']
            + vblock_text(body),
        ExprV::Call(_, f, args) => vexpr_text(*f) + seq!['('] + vlist_text(args) + seq![')'],
    }
}

pub open spec fn vlist_text(args: Seq<ExprV>) -> Seq<char>
    decreases args,
{
    if args.len() == 0 {
        seq![]
    } else if args.len() == 1 {
        vexpr_text(args[0])
    } else {
        vlist_text(args.drop_last()) + comma() + vexpr_text(args.last())
    }
}

pub open spec fn vnames_text(ps: Seq<(Lexeme, Seq<char>)>) -> Seq<char>
    decreases ps.len(),
{
    if ps.len() == 0 {
        seq![]
    } else if ps.len() == 1 {
        ps[0].1
    } else {
        vnames_text(ps.drop_last()) + comma() + ps.last().1
    }
}

pub open spec fn vstmt_text(v: StmtV) -> Seq<char>
    decreases v,
{
    match v {
        StmtV::Let(tk, name, e) => tk.text + seq![' '] + name.1 + seq![' ', '=', ' '] + vexpr_text(e),
        StmtV::Return(tk, e) => tk.text + seq![' '] + vexpr_text(e),
        StmtV::Expr(_, e) => vexpr_text(e),
        StmtV::Block(b) => vblock_text(b),
    }
}

pub open spec fn vstmts_text(stmts: Seq<StmtV>) -> Seq<char>
    decreases stmts,
{
    if stmts.len() == 0 {
        seq![]
    } else {
        vstmts_text(stmts.drop_last()) + vstmt_text(stmts.last()) + seq![';', ' ']
    }
}

pub open spec fn vblock_text(b: BlockV) -> Seq<char>
    decreases b,
{
    seq!['{', ' '] + vstmts_text(b.stmts) + seq!['}']
}

/// The canonical text of a program with these statements.
pub open spec fn vprogram_text(stmts: Seq<StmtV>) -> Seq<char> {
    let all = vstmts_text(stmts);
    if all.len() == 0 {
        all
    } else {
        all.drop_last()
    }
}

proof fn lemma_list_text(s: Seq<Expression>)
    ensures
        exprs_view(s).len() == s.len(),
        list_text(s) == vlist_text(exprs_view(s)),
    decreases s,
{
    if s.len() > 0 {
        lemma_list_text(s.drop_last());
        lemma_expr_text(s.last());
        let v = exprs_view(s);
        assert(v.drop_last() =~= exprs_view(s.drop_last()));
        if s.len() == 1 {
            assert(s[0] == s.last());
            assert(exprs_view(s.drop_last()).len() == 0);
            assert(v[0] == expr_view(s.last()));
        }
    }
}

proof fn lemma_names_text(s: Seq<Identifier>)
    ensures
        names_view(s).len() == s.len(),
        names_text(s) == vnames_text(names_view(s)),
    decreases s.len(),
{
    if s.len() > 0 {
        lemma_names_text(s.drop_last());
        let v = names_view(s);
        assert(v.drop_last() =~= names_view(s.drop_last()));
        if s.len() == 1 {
            assert(s[0] == s.last());
            assert(v[0] == name_view(s.last()));
        }
    }
}

proof fn lemma_stmts_text(s: Seq<Statement>)
    ensures
        stmts_text(s) == vstmts_text(stmts_view(s)),
    decreases s,
{
    if s.len() > 0 {
        lemma_stmts_text(s.drop_last());
        lemma_stmt_text(s.last());
        assert(stmts_view(s).drop_last() =~= stmts_view(s.drop_last()));
    }
}

proof fn lemma_block_text(b: BlockStatement)
    ensures
        block_text(b) == vblock_text(block_view(b)),
    decreases b,
{
    lemma_stmts_text(b.statements@);
}

proof fn lemma_stmt_text(s: Statement)
    ensures
        stmt_text(s) == vstmt_text(stmt_view(s)),
    decreases s,
{
    match s {
        Statement::Let(l) => lemma_expr_text(l.value),
        Statement::Return(r) => lemma_expr_text(r.return_value),
        Statement::Expression(x) => lemma_expr_text(x.expression),
        Statement::Block(b) => lemma_block_text(b),
    }
}

/// The canonical text of an expression is fixed by its view.
pub proof fn lemma_expr_text(e: Expression)
    ensures
        expr_text(e) == vexpr_text(expr_view(e)),
    decreases e,
{
    match e {
        Expression::Prefix(p) => lemma_expr_text(*p.right),
        Expression::Infix(x) => {
            lemma_expr_text(*x.left);
            lemma_expr_text(*x.right);
        },
        Expression::If(x) => {
            lemma_expr_text(*x.condition);
            lemma_block_text(x.consequence);
            match x.alternative {
                Some(a) => lemma_block_text(a),
                None => {},
            }
        },
        Expression::Function(f) => {
            lemma_names_text(f.parameters@);
            lemma_block_text(f.body);
        },
        Expression::Call(c) => {
            lemma_expr_text(*c.function);
            lemma_list_text(c.arguments@);
        },
        _ => {},
    }
}

/// The canonical text of a program is fixed by the views of its statements.
pub proof fn lemma_program_text(p: Program)
    ensures
        program_text(p) == vprogram_text(stmts_view(p.statements@)),
{
    lemma_stmts_text(p.statements@);
}

/// Where parsing stands: the index of the current token in the token
/// stream, and the errors recorded so far.
pub struct PState {
    pub i: int,
    pub errs: Seq<Seq<char>>,
}

pub open spec fn eof_lexeme() -> Lexeme {
    Lexeme { kind: TokenType::EOF, text: seq!['\0'] }
}

/// Token `j` of the stream; the end marker past its end.
pub open spec fn tok(t: Seq<Lexeme>, j: int) -> Lexeme {
    if 0 <= j < t.len() {
        t[j]
    } else {
        eof_lexeme()
    }
}

pub open spec fn cur(t: Seq<Lexeme>, s: PState) -> Lexeme {
    tok(t, s.i)
}

pub open spec fn peek(t: Seq<Lexeme>, s: PState) -> Lexeme {
    tok(t, s.i + 1)
}

/// Moves to the next token; at the end of the stream it stays.
pub open spec fn adv(t: Seq<Lexeme>, s: PState) -> PState {
    PState { i: if s.i < t.len() {
        s.i + 1
    } else {
        s.i
    }, errs: s.errs }
}

pub open spec fn report(s: PState, m: Seq<char>) -> PState {
    PState { i: s.i, errs: s.errs.push(m) }
}

/// Moves on if the next token is of kind `k`; else records the mismatch.
pub open spec fn expect(t: Seq<Lexeme>, s: PState, k: TokenType) -> (bool, PState) {
    if peek(t, s).kind == k {
        (true, adv(t, s))
    } else {
        (false, report(s, peek_error_message(k, peek(t, s).kind)))
    }
}

/// Skips one `;` if it comes next.
pub open spec fn skip_semicolon(t: Seq<Lexeme>, s: PState) -> PState {
    if peek(t, s).kind == TokenType::SEMICOLON {
        adv(t, s)
    } else {
        s
    }
}

/// `head` followed by a token's text in backquotes.
pub open spec fn quoted(head: Seq<char>, text: Seq<char>) -> Seq<char> {
    head + "`"@ + text + "`"@
}

pub open spec fn integer_message(text: Seq<char>) -> Seq<char> {
    "could not parse `"@ + text + "` into integer"@
}

pub open spec fn argument_message() -> Seq<char> {
    "Error while parsing call expression arguments. Failed to parse argument, current token is "@
}

pub open spec fn separator_message() -> Seq<char> {
    "Error while parsing call expression arguments. Expected `,` or `)`, got="@
}

pub open spec fn function_paren_message() -> Seq<char> {
    "Error while parsing function. Expected next token to be `(`, got="@
}

pub open spec fn parameter_message() -> Seq<char> {
    "Error while parsing function parameters. Expected next token to be `Identifier`, got="@
}

pub open spec fn parameter_separator_message() -> Seq<char> {
    "Error while parsing function parameters. Expected next token to be `,` or `)`, got="@
}

pub open spec fn block_end_message() -> Seq<char> {
    "Error while parsing `BlockStatement`. Expected `}`, got="@
}

pub open spec fn block_statement_message() -> Seq<char> {
    "Error while parsing `BlockStatement`. Expected `Statement`, got="@
}

/// `b` is no earlier than `a` and still within the stream.
pub open spec fn moved(t: Seq<Lexeme>, a: PState, b: PState) -> bool {
    a.i <= b.i <= t.len()
}

pub open spec fn within(t: Seq<Lexeme>, s: PState) -> bool {
    0 <= s.i <= t.len()
}

/// Moves on until the current token is `;` or the end marker.
pub open spec fn skip_to_semicolon(t: Seq<Lexeme>, s: PState) -> PState
    decreases t.len() - s.i,
{
    let k = cur(t, s).kind;
    if !within(t, s) || k == TokenType::SEMICOLON || k == TokenType::EOF {
        s
    } else {
        skip_to_semicolon(t, adv(t, s))
    }
}

/// The expression that starts at the current token, taking infix operators
/// while they bind more strongly than `prec`.
pub open spec fn p_expr(t: Seq<Lexeme>, s: PState, prec: int) -> (Option<ExprV>, PState)
    decreases t.len() - s.i, 3int,
{
    if !within(t, s) {
        (None, s)
    } else {
        let c = cur(t, s);
        let (left, s1) = if c.kind == TokenType::IDENT {
            (Some(ExprV::Ident(c, c.text)), s)
        } else if c.kind == TokenType::INT {
            match decimal_i64(c.text) {
                Some(v) => (Some(ExprV::Int(c, v)), s),
                None => (None, report(s, integer_message(c.text))),
            }
        } else if c.kind == TokenType::FLOAT {
            (Some(ExprV::Float(c)), s)
        } else if c.kind == TokenType::TRUE || c.kind == TokenType::FALSE {
            (Some(ExprV::Bool(c, c.kind == TokenType::TRUE)), s)
        } else if c.kind == TokenType::BANG || c.kind == TokenType::MINUS {
            p_prefix(t, s)
        } else if c.kind == TokenType::LPAREN {
            p_grouped(t, s)
        } else if c.kind == TokenType::IF {
            p_if(t, s)
        } else if c.kind == TokenType::FUNCTION {
            p_fn(t, s)
        } else {
            (None, report(s, no_prefix_message(c.kind)))
        };
        match left {
            None => (None, s1),
            Some(l) => if moved(t, s, s1) {
                p_loop(t, s1, prec, l)
            } else {
                (None, s1)
            },
        }
    }
}

/// Extends `left` with infix operators and calls that bind more strongly
/// than `prec`.
pub open spec fn p_loop(t: Seq<Lexeme>, s: PState, prec: int, left: ExprV) -> (Option<ExprV>, PState)
    decreases t.len() - s.i, 2int,
{
    let p = peek(t, s);
    if !within(t, s) {
        (None, s)
    } else if p.kind != TokenType::SEMICOLON && prec < precedence_of(p.kind) && continues_expression(
        p.kind,
    ) {
        let s1 = adv(t, s);
        let (r, s2) = if p.kind == TokenType::LPAREN {
            p_call(t, s1, left)
        } else {
            p_infix(t, s1, left)
        };
        match r {
            None => (None, s2),
            Some(e) => if moved(t, s1, s2) {
                p_loop(t, s2, prec, e)
            } else {
                (None, s2)
            },
        }
    } else {
        (Some(left), s)
    }
}

pub open spec fn p_prefix(t: Seq<Lexeme>, s: PState) -> (Option<ExprV>, PState)
    decreases t.len() - s.i, 2int,
{
    if !(0 <= s.i < t.len()) {
        (None, s)
    } else {
        let c = cur(t, s);
        let (r, s1) = p_expr(t, adv(t, s), PREFIX as int);
        match r {
            Some(e) => (Some(ExprV::Prefix(c, c.text, Box::new(e))), s1),
            None => (None, s1),
        }
    }
}

pub open spec fn p_infix(t: Seq<Lexeme>, s: PState, left: ExprV) -> (Option<ExprV>, PState)
    decreases t.len() - s.i, 2int,
{
    if !(0 <= s.i < t.len()) {
        (None, s)
    } else {
        let c = cur(t, s);
        let (r, s1) = p_expr(t, adv(t, s), precedence_of(c.kind) as int);
        match r {
            Some(e) => (Some(ExprV::Infix(c, Box::new(left), c.text, Box::new(e))), s1),
            None => (None, s1),
        }
    }
}

pub open spec fn p_grouped(t: Seq<Lexeme>, s: PState) -> (Option<ExprV>, PState)
    decreases t.len() - s.i, 2int,
{
    if !(0 <= s.i < t.len()) {
        (None, s)
    } else {
        let (r, s1) = p_expr(t, adv(t, s), LOWEST as int);
        match r {
            None => (None, s1),
            Some(e) => {
                let (ok, s2) = expect(t, s1, TokenType::RPAREN);
                if ok {
                    (Some(e), s2)
                } else {
                    (None, s2)
                }
            },
        }
    }
}

/// A call's argument list, the current token being `(`.
pub open spec fn p_call(t: Seq<Lexeme>, s: PState, f: ExprV) -> (Option<ExprV>, PState)
    decreases t.len() - s.i, 2int,
{
    if peek(t, s).kind == TokenType::RPAREN {
        (Some(ExprV::Call(cur(t, s), Box::new(f), Seq::empty())), adv(t, s))
    } else {
        p_args(t, s, cur(t, s), f, Seq::empty())
    }
}

/// The arguments after the `(` or `,` that is the current token; `lp` is
/// the call's `(` and `acc` holds the arguments already read.
pub open spec fn p_args(t: Seq<Lexeme>, s: PState, lp: Lexeme, f: ExprV, acc: Seq<ExprV>) -> (
    Option<ExprV>,
    PState,
)
    decreases t.len() - s.i, 1int,
{
    if !(0 <= s.i < t.len()) {
        (None, s)
    } else {
        let (r, s1) = p_expr(t, adv(t, s), LOWEST as int);
        match r {
            None => (None, report(s1, quoted(argument_message(), cur(t, s1).text))),
            Some(a) => {
                let s2 = adv(t, s1);
                let k = cur(t, s2).kind;
                if k != TokenType::RPAREN && k != TokenType::COMMA {
                    (None, report(s2, quoted(separator_message(), cur(t, s2).text)))
                } else if k == TokenType::RPAREN {
                    (Some(ExprV::Call(lp, Box::new(f), acc.push(a))), s2)
                } else if s.i < s2.i <= t.len() {
                    p_args(t, s2, lp, f, acc.push(a))
                } else {
                    (None, s2)
                }
            },
        }
    }
}

/// Parameter names up to the closing `)`; `acc` holds those already read.
pub open spec fn p_params(t: Seq<Lexeme>, s: PState, acc: Seq<(Lexeme, Seq<char>)>) -> (
    Option<Seq<(Lexeme, Seq<char>)>>,
    PState,
)
    decreases t.len() - s.i,
{
    let c = cur(t, s);
    if !within(t, s) {
        (None, s)
    } else if c.kind == TokenType::RPAREN {
        (Some(acc), s)
    } else if c.kind != TokenType::IDENT {
        (None, report(s, quoted(parameter_message(), c.text)))
    } else {
        let s1 = adv(t, s);
        let k = cur(t, s1).kind;
        if k != TokenType::COMMA && k != TokenType::RPAREN {
            (None, report(s1, quoted(parameter_separator_message(), cur(t, s1).text)))
        } else {
            let s2 = if k == TokenType::COMMA {
                adv(t, s1)
            } else {
                s1
            };
            p_params(t, s2, acc.push((c, c.text)))
        }
    }
}

pub open spec fn p_fn(t: Seq<Lexeme>, s: PState) -> (Option<ExprV>, PState)
    decreases t.len() - s.i, 2int,
{
    if !(0 <= s.i < t.len()) {
        (None, s)
    } else {
        let (ok, s1) = expect(t, s, TokenType::LPAREN);
        if !ok {
            (None, report(s1, quoted(function_paren_message(), cur(t, s1).text)))
        } else {
            let (ps, s2) = p_params(t, adv(t, s1), Seq::empty());
            match ps {
                None => (None, s2),
                Some(names) => {
                    let (ok2, s3) = expect(t, s2, TokenType::LBRACE);
                    if !ok2 {
                        (None, s3)
                    } else if s.i < s3.i <= t.len() {
                        let (b, s4) = p_block(t, s3);
                        match b {
                            Some(body) => (Some(ExprV::Func(cur(t, s), names, body)), s4),
                            None => (None, s4),
                        }
                    } else {
                        (None, s3)
                    }
                },
            }
        }
    }
}

pub open spec fn p_if(t: Seq<Lexeme>, s: PState) -> (Option<ExprV>, PState)
    decreases t.len() - s.i, 2int,
{
    if !(0 <= s.i < t.len()) {
        (None, s)
    } else {
        let (ok, s1) = expect(t, s, TokenType::LPAREN);
        if !ok {
            (None, report(s1, "missing `(` after `if`"@))
        } else {
            let s2 = adv(t, s1);
            let (c, s3) = p_expr(t, s2, LOWEST as int);
            match c {
                None => (None, report(s3, "missing `if`'s condition"@)),
                Some(cond) => {
                    let (ok2, s4) = expect(t, s3, TokenType::RPAREN);
                    let (ok3, s5) = expect(t, s4, TokenType::LBRACE);
                    if !ok2 {
                        (None, report(s4, "missing closing `)` in `if`'s condition"@))
                    } else if !ok3 {
                        (None, report(s5, "missing `{` after `if`'s condition"@))
                    } else if !(s.i < s5.i <= t.len() && moved(t, s2, s3)) {
                        (None, s5)
                    } else {
                        let (cons, s6) = p_block(t, s5);
                        match cons {
                            None => (None, s6),
                            Some(consequence) => if peek(t, s6).kind != TokenType::ELSE {
                                (Some(ExprV::If(cur(t, s), Box::new(cond), consequence, None)), s6)
                            } else {
                                let (ok4, s7) = expect(t, adv(t, s6), TokenType::LBRACE);
                                if !ok4 {
                                    (None, report(
                                        s7,
                                        "missing `{` after `else` denoting start of block statement"@,
                                    ))
                                } else if !(s.i < s7.i <= t.len() && moved(t, s5, s6)) {
                                    (None, s7)
                                } else {
                                    let (alt, s8) = p_block(t, s7);
                                    match alt {
                                        None => (None, report(s8, "`if`'s alternative block"@)),
                                        Some(alternative) => (
                                            Some(
                                                ExprV::If(
                                                    cur(t, s),
                                                    Box::new(cond),
                                                    consequence,
                                                    Some(alternative),
                                                ),
                                            ),
                                            s8,
                                        ),
                                    }
                                }
                            },
                        }
                    }
                },
            }
        }
    }
}

/// `{ ... }`, the current token being `{`.
pub open spec fn p_block(t: Seq<Lexeme>, s: PState) -> (Option<BlockV>, PState)
    decreases t.len() - s.i, 2int,
{
    if !(0 <= s.i < t.len()) {
        (None, s)
    } else {
        let (r, s1) = p_stmts(t, adv(t, s), Seq::empty());
        match r {
            Some(stmts) => (Some(BlockV { tok: cur(t, s), stmts }), s1),
            None => (None, s1),
        }
    }
}

/// Statements up to the closing `}`; `acc` holds those already read.
pub open spec fn p_stmts(t: Seq<Lexeme>, s: PState, acc: Seq<StmtV>) -> (
    Option<Seq<StmtV>>,
    PState,
)
    decreases t.len() - s.i, 6int,
{
    let c = cur(t, s);
    if !within(t, s) {
        (None, s)
    } else if c.kind == TokenType::RBRACE {
        (Some(acc), s)
    } else if c.kind == TokenType::EOF {
        (None, report(s, quoted(block_end_message(), c.text)))
    } else {
        let (r, s1) = p_stmt(t, s);
        match r {
            None => (None, report(s1, quoted(block_statement_message(), cur(t, s1).text))),
            Some(st) => {
                let s2 = adv(t, s1);
                if s.i < s2.i <= t.len() {
                    p_stmts(t, s2, acc.push(st))
                } else {
                    (None, s2)
                }
            },
        }
    }
}

pub open spec fn p_stmt(t: Seq<Lexeme>, s: PState) -> (Option<StmtV>, PState)
    decreases t.len() - s.i, 5int,
{
    if !within(t, s) {
        (None, s)
    } else if cur(t, s).kind == TokenType::LET {
        p_let(t, s)
    } else if cur(t, s).kind == TokenType::RETURN {
        p_return(t, s)
    } else {
        p_expr_stmt(t, s)
    }
}

pub open spec fn p_let(t: Seq<Lexeme>, s: PState) -> (Option<StmtV>, PState)
    decreases t.len() - s.i, 4int,
{
    if !(0 <= s.i < t.len()) {
        (None, s)
    } else {
        let (ok, s1) = expect(t, s, TokenType::IDENT);
        if !ok {
            (None, s1)
        } else {
            let name = cur(t, s1);
            let (ok2, s2) = expect(t, s1, TokenType::ASSIGN);
            if !ok2 {
                (None, s2)
            } else {
                let (r, s3) = p_expr(t, adv(t, s2), LOWEST as int);
                match r {
                    None => (None, s3),
                    Some(v) => (Some(StmtV::Let(cur(t, s), (name, name.text), v)), skip_semicolon(t, s3)),
                }
            }
        }
    }
}

pub open spec fn p_return(t: Seq<Lexeme>, s: PState) -> (Option<StmtV>, PState)
    decreases t.len() - s.i, 4int,
{
    if !(0 <= s.i < t.len()) {
        (None, s)
    } else {
        let (r, s1) = p_expr(t, adv(t, s), LOWEST as int);
        match r {
            None => (None, s1),
            Some(v) => (Some(StmtV::Return(cur(t, s), v)), skip_semicolon(t, s1)),
        }
    }
}

pub open spec fn p_expr_stmt(t: Seq<Lexeme>, s: PState) -> (Option<StmtV>, PState)
    decreases t.len() - s.i, 4int,
{
    if !within(t, s) {
        (None, s)
    } else {
        let (r, s1) = p_expr(t, s, LOWEST as int);
        match r {
            None => (None, s1),
            Some(e) => (Some(StmtV::Expr(cur(t, s1), e)), skip_semicolon(t, s1)),
        }
    }
}

/// Statements up to the end marker; those that fail are left out.
pub open spec fn p_program(t: Seq<Lexeme>, s: PState, acc: Seq<StmtV>) -> (Seq<StmtV>, PState)
    decreases t.len() - s.i,
{
    if !within(t, s) || cur(t, s).kind == TokenType::EOF {
        (acc, s)
    } else {
        let (r, s1) = p_stmt(t, s);
        let acc1 = match r {
            Some(st) => acc.push(st),
            None => acc,
        };
        let s2 = adv(t, s1);
        if s.i < s2.i <= t.len() {
            p_program(t, s2, acc1)
        } else {
            (acc1, s2)
        }
    }
}

/// An infix operator kind other than a call's `(`.
pub open spec fn binary_operator(k: TokenType) -> bool {
    continues_expression(k) && k != TokenType::LPAREN
}

/// `l op r`, read from the operator token `op`.
pub open spec fn infix(l: ExprV, op: Lexeme, r: ExprV) -> ExprV {
    ExprV::Infix(op, Box::new(l), op.text, Box::new(r))
}

/// Operator precedence: in `x o1 y o2 z` (three names, two infix
/// operators) the operator that binds more strongly takes `y`; when they
/// bind equally, the left one does, so equal operators group to the left.
pub proof fn lemma_precedence(t: Seq<Lexeme>, errs: Seq<Seq<char>>)
    requires
        t.len() == 6,
        t[0].kind == TokenType::IDENT,
        t[2].kind == TokenType::IDENT,
        t[4].kind == TokenType::IDENT,
        binary_operator(t[1].kind),
        binary_operator(t[3].kind),
        t[5].kind == TokenType::EOF,
    ensures
        precedence_of(t[3].kind) > precedence_of(t[1].kind) ==> p_expr(
            t,
            PState { i: 0, errs },
            LOWEST as int,
        ) == (Some(
            infix(
                ExprV::Ident(t[0], t[0].text),
                t[1],
                infix(ExprV::Ident(t[2], t[2].text), t[3], ExprV::Ident(t[4], t[4].text)),
            ),
        ), PState { i: 4, errs }),
        precedence_of(t[3].kind) <= precedence_of(t[1].kind) ==> p_expr(
            t,
            PState { i: 0, errs },
            LOWEST as int,
        ) == (Some(
            infix(
                infix(ExprV::Ident(t[0], t[0].text), t[1], ExprV::Ident(t[2], t[2].text)),
                t[3],
                ExprV::Ident(t[4], t[4].text),
            ),
        ), PState { i: 4, errs }),
{
    let x = ExprV::Ident(t[0], t[0].text);
    let y = ExprV::Ident(t[2], t[2].text);
    let z = ExprV::Ident(t[4], t[4].text);
    let first_strength = precedence_of(t[1].kind) as int;
    let second_strength = precedence_of(t[3].kind) as int;
    let st = |i: int| PState { i, errs };
    // `z` stands alone: the end marker follows it.
    assert(p_loop(t, st(4), first_strength, z) == (Some(z), st(4)));
    assert(p_loop(t, st(4), second_strength, z) == (Some(z), st(4)));
    assert(p_expr(t, st(4), second_strength) == (Some(z), st(4)));
    assert(p_infix(t, st(3), y) == (Some(infix(y, t[3], z)), st(4)));
    assert(p_infix(t, st(3), infix(x, t[1], y)) == (Some(
        infix(infix(x, t[1], y), t[3], z),
    ), st(4)));
    assert(p_loop(t, st(4), LOWEST as int, infix(x, t[1], infix(y, t[3], z))) == (
    Some(infix(x, t[1], infix(y, t[3], z))), st(4)));
    assert(p_loop(t, st(4), LOWEST as int, infix(infix(x, t[1], y), t[3], z)) == (
    Some(infix(infix(x, t[1], y), t[3], z)), st(4)));
    assert(p_loop(t, st(4), first_strength, infix(y, t[3], z)) == (Some(infix(y, t[3], z)), st(4)));
    if second_strength > first_strength {
        assert(p_loop(t, st(2), first_strength, y) == (Some(infix(y, t[3], z)), st(4)));
        assert(p_expr(t, st(2), first_strength) == (Some(infix(y, t[3], z)), st(4)));
        assert(p_infix(t, st(1), x) == (Some(infix(x, t[1], infix(y, t[3], z))), st(4)));
        assert(p_loop(t, st(0), LOWEST as int, x) == (Some(
            infix(x, t[1], infix(y, t[3], z)),
        ), st(4)));
    } else {
        assert(p_loop(t, st(2), first_strength, y) == (Some(y), st(2)));
        assert(p_expr(t, st(2), first_strength) == (Some(y), st(2)));
        assert(p_infix(t, st(1), x) == (Some(infix(x, t[1], y)), st(2)));
        assert(p_loop(t, st(2), LOWEST as int, infix(x, t[1], y)) == (Some(
            infix(infix(x, t[1], y), t[3], z),
        ), st(4)));
        assert(p_loop(t, st(0), LOWEST as int, x) == (Some(
            infix(infix(x, t[1], y), t[3], z),
        ), st(4)));
    }
}

/// Expressions built from names and `true`/`false` with prefix and infix
/// operators, each node's token being the one its text calls for.
pub open spec fn operator_form(e: ExprV) -> bool
    decreases e,
{
    match e {
        ExprV::Ident(tk, n) => tk == (Lexeme { kind: TokenType::IDENT, text: n }),
        ExprV::Bool(tk, b) => if b {
            tk.kind == TokenType::TRUE
        } else {
            tk.kind == TokenType::FALSE
        },
        ExprV::Prefix(tk, op, r) => (tk.kind == TokenType::BANG || tk.kind == TokenType::MINUS)
            && tk.text == op && operator_form(*r),
        ExprV::Infix(tk, l, op, r) => binary_operator(tk.kind) && tk.text == op && operator_form(*l)
            && operator_form(*r),
        _ => false,
    }
}

pub open spec fn lparen() -> Lexeme {
    Lexeme { kind: TokenType::LPAREN, text: seq!['('] }
}

pub open spec fn rparen() -> Lexeme {
    Lexeme { kind: TokenType::RPAREN, text: seq![')'] }
}

/// The tokens of an operator expression's canonical text, where every
/// operator application stands in parentheses.
pub open spec fn canonical_tokens(e: ExprV) -> Seq<Lexeme>
    decreases e,
{
    match e {
        ExprV::Ident(tk, _) => seq![tk],
        ExprV::Bool(tk, _) => seq![tk],
        ExprV::Prefix(tk, _, r) => seq![lparen(), tk] + canonical_tokens(*r) + seq![rparen()],
        ExprV::Infix(tk, l, _, r) => seq![lparen()] + canonical_tokens(*l) + seq![tk]
            + canonical_tokens(*r) + seq![rparen()],
        _ => Seq::empty(),
    }
}

proof fn lemma_canonical_start(e: ExprV)
    requires
        operator_form(e),
    ensures
        canonical_tokens(e).len() >= 1,
        canonical_tokens(e)[0].kind == TokenType::LPAREN || canonical_tokens(e)[0].kind
            == TokenType::IDENT || canonical_tokens(e)[0].kind == TokenType::TRUE
            || canonical_tokens(e)[0].kind == TokenType::FALSE,
{
}

/// Parsing the canonical tokens of an operator expression that stand at
/// index `i` reads exactly those tokens and yields the expression; what
/// follows is then up to the infix loop.
proof fn lemma_reparse_at(t: Seq<Lexeme>, i: int, e: ExprV, prec: int, errs: Seq<Seq<char>>)
    requires
        operator_form(e),
        0 <= i,
        i + canonical_tokens(e).len() <= t.len(),
        t.subrange(i, i + canonical_tokens(e).len()) == canonical_tokens(e),
    ensures
        p_expr(t, PState { i, errs }, prec) == p_loop(
            t,
            PState { i: i + canonical_tokens(e).len() - 1, errs },
            prec,
            e,
        ),
    decreases e,
{
    let n = canonical_tokens(e).len();
    let st = |k: int| PState { i: k, errs };
    assert(t[i] == canonical_tokens(e)[0]);
    match e {
        ExprV::Ident(..) => {},
        ExprV::Bool(..) => {},
        ExprV::Prefix(tk, op, r) => {
            let nr = canonical_tokens(*r).len() as int;
            lemma_canonical_start(*r);
            assert(t[i + 1] == canonical_tokens(e)[1]);
            let ce = canonical_tokens(e);
            let cr = canonical_tokens(*r);
            assert(ce == seq![lparen(), canonical_tokens(e)[1]] + cr + seq![rparen()]);
            assert forall|k: int| 0 <= k < nr implies #[trigger] t.subrange(i + 2, i + 2 + nr)[k]
                == cr[k] by {
                assert(t.subrange(i, i + n)[2 + k] == ce[2 + k]);
            }
            assert(t.subrange(i + 2, i + 2 + nr) =~= cr);
            assert(t[i + 2 + nr] == canonical_tokens(e)[2 + nr]);
            lemma_reparse_at(t, i + 2, *r, PREFIX as int, errs);
            assert(p_loop(t, st(i + 1 + nr), PREFIX as int, *r) == (Some(*r), st(i + 1 + nr)));
            assert(p_prefix(t, st(i + 1)) == (Some(e), st(i + 1 + nr)));
            assert(p_loop(t, st(i + 1 + nr), LOWEST as int, e) == (Some(e), st(i + 1 + nr)));
            assert(p_expr(t, st(i + 1), LOWEST as int) == (Some(e), st(i + 1 + nr)));
            assert(p_grouped(t, st(i)) == (Some(e), st(i + 2 + nr)));
        },
        ExprV::Infix(tk, l, op, r) => {
            let nl = canonical_tokens(*l).len() as int;
            let nr = canonical_tokens(*r).len() as int;
            lemma_canonical_start(*l);
            lemma_canonical_start(*r);
            let ce = canonical_tokens(e);
            let cl = canonical_tokens(*l);
            let cr = canonical_tokens(*r);
            assert(ce == seq![lparen()] + cl + seq![canonical_tokens(e)[1 + nl]] + cr + seq![rparen()]);
            assert forall|k: int| 0 <= k < nl implies #[trigger] t.subrange(i + 1, i + 1 + nl)[k]
                == cl[k] by {
                assert(t.subrange(i, i + n)[1 + k] == ce[1 + k]);
            }
            assert forall|k: int| 0 <= k < nr implies #[trigger] t.subrange(
                i + 2 + nl,
                i + 2 + nl + nr,
            )[k] == cr[k] by {
                assert(t.subrange(i, i + n)[2 + nl + k] == ce[2 + nl + k]);
            }
            assert(t.subrange(i + 1, i + 1 + nl) =~= cl);
            assert(t[i + 1 + nl] == canonical_tokens(e)[1 + nl]);
            assert(t.subrange(i + 2 + nl, i + 2 + nl + nr) =~= cr);
            assert(t[i + 2 + nl + nr] == canonical_tokens(e)[2 + nl + nr]);
            let k = canonical_tokens(e)[1 + nl].kind;
            let pk = precedence_of(k) as int;
            lemma_reparse_at(t, i + 1, *l, LOWEST as int, errs);
            lemma_reparse_at(t, i + 2 + nl, *r, pk, errs);
            assert(p_loop(t, st(i + 1 + nl + nr), pk, *r) == (Some(*r), st(i + 1 + nl + nr)));
            assert(p_infix(t, st(i + 1 + nl), *l) == (Some(e), st(i + 1 + nl + nr)));
            assert(p_loop(t, st(i + 1 + nl + nr), LOWEST as int, e) == (Some(e), st(
                i + 1 + nl + nr,
            )));
            assert(p_loop(t, st(i + nl), LOWEST as int, *l) == (Some(e), st(i + 1 + nl + nr)));
            assert(p_grouped(t, st(i)) == (Some(e), st(i + 2 + nl + nr)));
        },
        _ => {},
    }
}

/// Re-reading canonical text gives back the same tree: the canonical
/// tokens of an operator expression, followed by `;` and the end marker,
/// parse without error into the one expression statement holding it.
pub proof fn lemma_reparse_operator_expression(e: ExprV)
    requires
        operator_form(e),
    ensures
        p_program(
            canonical_tokens(e) + seq![Lexeme { kind: TokenType::SEMICOLON, text: seq![';'] }, eof_lexeme()],
            PState { i: 0, errs: seq![] },
            seq![],
        ) == (seq![StmtV::Expr(canonical_tokens(e).last(), e)], PState { i: canonical_tokens(e).len() + 1int, errs: seq![] }),
{
    let semi = Lexeme { kind: TokenType::SEMICOLON, text: seq![';'] };
    let t = canonical_tokens(e) + seq![semi, eof_lexeme()];
    let n = canonical_tokens(e).len() as int;
    let st = |k: int| PState { i: k, errs: seq![] };
    lemma_canonical_start(e);
    let last = canonical_tokens(e).last();
    assert(t.subrange(0, n) =~= canonical_tokens(e));
    assert(t[n - 1] == last);
    assert(t[n] == semi);
    assert(t[n + 1] == eof_lexeme());
    lemma_reparse_at(t, 0, e, LOWEST as int, seq![]);
    assert(p_loop(t, st(n - 1), LOWEST as int, e) == (Some(e), st(n - 1)));
    assert(p_expr_stmt(t, st(0)) == (Some(StmtV::Expr(last, e)), st(n)));
    assert(p_stmt(t, st(0)) == (Some(StmtV::Expr(last, e)), st(n)));
    assert(p_program(t, st(n + 1), seq![StmtV::Expr(last, e)]) == (seq![StmtV::Expr(last, e)], st(n + 1)));
    assert(seq![].push(StmtV::Expr(last, e)) =~= seq![StmtV::Expr(last, e)]);
}

/// The token kind of an infix operator's text.
pub open spec fn infix_text_kind(op: Seq<char>) -> Option<TokenType> {
    if op == seq!['+'] {
        Some(TokenType::PLUS)
    } else if op == seq!['-'] {
        Some(TokenType::MINUS)
    } else if op == seq!['*'] {
        Some(TokenType::ASTERISK)
    } else if op == seq!['/'] {
        Some(TokenType::SLASH)
    } else if op == seq!['<'] {
        Some(TokenType::LT)
    } else if op == seq!['>'] {
        Some(TokenType::GT)
    } else if op == seq!['=', '='] {
        Some(TokenType::EQ)
    } else if op == seq!['!', '='] {
        Some(TokenType::NOTEQ)
    } else {
        None
    }
}

/// A name the lexer reads back as a name: identifier characters only, and
/// no keyword.
pub open spec fn name_form(n: Seq<char>) -> bool {
    &&& n.len() > 0
    &&& forall|k: int| 0 <= k < n.len() ==> is_ident_char(#[trigger] n[k])
    &&& keyword_of(n) is None
}

pub open spec fn true_text() -> Seq<char> {
    seq!['t', 'r', 'u', 'e']
}

pub open spec fn false_text() -> Seq<char> {
    seq!['f', 'a', 'l', 's', 'e']
}

/// Operator expressions as the parser builds them from text: names,
/// `true`/`false`, and prefix and infix operators, each node holding the
/// token its text is read as.
pub open spec fn text_form(e: ExprV) -> bool
    decreases e,
{
    match e {
        ExprV::Ident(tk, n) => tk == (Lexeme { kind: TokenType::IDENT, text: n }) && name_form(n),
        ExprV::Bool(tk, b) => tk == (if b {
            Lexeme { kind: TokenType::TRUE, text: true_text() }
        } else {
            Lexeme { kind: TokenType::FALSE, text: false_text() }
        }),
        ExprV::Prefix(tk, op, r) => (tk == (Lexeme { kind: TokenType::BANG, text: seq!['!'] })
            || tk == (Lexeme { kind: TokenType::MINUS, text: seq!['-'] })) && op == tk.text
            && text_form(*r),
        ExprV::Infix(tk, l, op, r) => infix_text_kind(op) is Some && tk == (Lexeme {
            kind: infix_text_kind(op)->0,
            text: op,
        }) && text_form(*l) && text_form(*r),
        _ => false,
    }
}

proof fn lemma_text_form_facts(e: ExprV)
    requires
        text_form(e),
    ensures
        operator_form(e),
        vexpr_text(e).len() >= 1,
        vexpr_text(e)[0] == '(' || is_ident_char(vexpr_text(e)[0]),
    decreases e,
{
    match e {
        ExprV::Prefix(_, _, r) => lemma_text_form_facts(*r),
        ExprV::Infix(_, l, _, r) => {
            lemma_text_form_facts(*l);
            lemma_text_form_facts(*r);
        },
        ExprV::Ident(_, n) => {
            assert(is_ident_char(n[0]));
        },
        ExprV::Bool(_, b) => {
            assert(letter('t') && letter('f'));
        },
        _ => {},
    }
}

/// A name or keyword written at `i` and ended by a character that is no
/// identifier character is read as the one token `tk`.
proof fn lemma_lex_word(s: Seq<char>, i: int, n: Seq<char>, tk: Lexeme)
    requires
        0 <= i,
        i + n.len() <= s.len(),
        s.subrange(i, i + n.len()) == n,
        n.len() > 0,
        forall|k: int| 0 <= k < n.len() ==> is_ident_char(#[trigger] n[k]),
        i + n.len() < s.len() ==> !is_ident_char(s[i + n.len()]),
        tk.text == n,
        tk.kind == (match keyword_of(n) {
            Some(k) => k,
            None => TokenType::IDENT,
        }),
    ensures
        lexemes_from(s, i) == seq![tk] + lexemes_from(s, i + n.len()),
{
    assert forall|k: int| i <= k < i + n.len() implies is_ident_char(#[trigger] s[k]) by {
        assert(s[k] == s.subrange(i, i + n.len())[k - i]);
    }
    lemma_ident_run(s, i, i + n.len());
    assert(s[i] == n[0]);
    assert(!is_blank(s[i]));
    assert(next_lexeme(s, i) == (tk, i + n.len()));
    lemma_lexemes_from_unfold(s, i);
}

/// The canonical text of an operator expression, written at `i` and not
/// followed by an identifier character, lexes to its canonical tokens.
proof fn lemma_lex_text(s: Seq<char>, i: int, e: ExprV)
    requires
        text_form(e),
        0 <= i,
        i + vexpr_text(e).len() <= s.len(),
        s.subrange(i, i + vexpr_text(e).len()) == vexpr_text(e),
        i + vexpr_text(e).len() < s.len() ==> !is_ident_char(s[i + vexpr_text(e).len()]),
    ensures
        lexemes_from(s, i) == canonical_tokens(e) + lexemes_from(s, i + vexpr_text(e).len()),
    decreases e, 1int,
{
    let x = vexpr_text(e);
    let n = x.len() as int;
    match e {
        ExprV::Ident(tk, nm) => {
            assert forall|k: int| 0 <= k < n implies #[trigger] s[i + k] == x[k] by {
                assert(s.subrange(i, i + n)[k] == s[i + k]);
            }
            lemma_lex_word(s, i, nm, tk);
        },
        ExprV::Bool(tk, b) => {
            assert(keyword_of(true_text()) == Some(TokenType::TRUE));
            assert(keyword_of(false_text()) == Some(TokenType::FALSE));
            assert(letter('t') && letter('r') && letter('u') && letter('e'));
            assert(letter('f') && letter('a') && letter('l') && letter('s'));
            lemma_lex_word(s, i, tk.text, tk);
        },
        ExprV::Prefix(..) => lemma_lex_prefix(s, i, e),
        ExprV::Infix(..) => lemma_lex_infix(s, i, e),
        _ => {},
    }
}

#[verifier::rlimit(50)]
proof fn lemma_lex_prefix(s: Seq<char>, i: int, e: ExprV)
    requires
        e is Prefix,
        text_form(e),
        0 <= i,
        i + vexpr_text(e).len() <= s.len(),
        s.subrange(i, i + vexpr_text(e).len()) == vexpr_text(e),
        i + vexpr_text(e).len() < s.len() ==> !is_ident_char(s[i + vexpr_text(e).len()]),
    ensures
        lexemes_from(s, i) == canonical_tokens(e) + lexemes_from(s, i + vexpr_text(e).len()),
    decreases e, 0int,
{
    let x = vexpr_text(e);
    let n = x.len() as int;
    assert forall|k: int| 0 <= k < n implies #[trigger] s[i + k] == x[k] by {
        assert(s.subrange(i, i + n)[k] == s[i + k]);
    }
    let (tk, op, r) = (e->Prefix_0, e->Prefix_1, e->Prefix_2);
    let xr = vexpr_text(*r);
    let nr = xr.len() as int;
    lemma_text_form_facts(*r);
    assert(s[i] == '(') by {
        assert(s.subrange(i, i + n)[0] == s[i]);
    }
    assert(s[i + 1] == op[0]) by {
        assert(s.subrange(i, i + n)[1] == s[i + 1]);
    }
    assert(s[i + 2] == xr[0]) by {
        assert(x[2] == xr[0]);
    }
    assert(s[i + 2 + nr] == ')') by {
        assert(x[2 + nr] == ')');
    }
    assert(s.subrange(i + 2, i + 2 + nr) =~= xr) by {
        assert forall|k: int| 0 <= k < nr implies #[trigger] s.subrange(i + 2, i + 2 + nr)[k]
            == xr[k] by {
            assert(x[2 + k] == xr[k]);
        }
    }
    assert(next_lexeme(s, i) == (lparen(), i + 1));
    lemma_lexemes_from_unfold(s, i);
    assert(next_lexeme(s, i + 1) == (tk, i + 2));
    lemma_lexemes_from_unfold(s, i + 1);
    lemma_lex_text(s, i + 2, *r);
    assert(next_lexeme(s, i + 2 + nr) == (rparen(), i + 3 + nr));
    lemma_lexemes_from_unfold(s, i + 2 + nr);
    assert(canonical_tokens(e) + lexemes_from(s, i + n) =~= seq![lparen(), tk]
        + canonical_tokens(*r) + seq![rparen()] + lexemes_from(s, i + n));
    assert(lexemes_from(s, i) =~= seq![lparen(), tk] + (canonical_tokens(*r) + (seq![
        rparen(),
    ] + lexemes_from(s, i + n))));
}

#[verifier::rlimit(50)]
proof fn lemma_lex_infix(s: Seq<char>, i: int, e: ExprV)
    requires
        e is Infix,
        text_form(e),
        0 <= i,
        i + vexpr_text(e).len() <= s.len(),
        s.subrange(i, i + vexpr_text(e).len()) == vexpr_text(e),
        i + vexpr_text(e).len() < s.len() ==> !is_ident_char(s[i + vexpr_text(e).len()]),
    ensures
        lexemes_from(s, i) == canonical_tokens(e) + lexemes_from(s, i + vexpr_text(e).len()),
    decreases e, 0int,
{
    let x = vexpr_text(e);
    let n = x.len() as int;
    assert forall|k: int| 0 <= k < n implies #[trigger] s[i + k] == x[k] by {
        assert(s.subrange(i, i + n)[k] == s[i + k]);
    }
    let (tk, l, op, r) = (e->Infix_0, e->Infix_1, e->Infix_2, e->Infix_3);
    let xl = vexpr_text(*l);
    let xr = vexpr_text(*r);
    let nl = xl.len() as int;
    let no = op.len() as int;
    let nr = xr.len() as int;
    lemma_text_form_facts(*l);
    lemma_text_form_facts(*r);
    let a = i + 1 + nl;
    let b = a + 1 + no;
    assert(s[i] == '(') by {
        assert(s.subrange(i, i + n)[0] == s[i]);
    }
    assert(s.subrange(i + 1, a) =~= xl) by {
        assert forall|k: int| 0 <= k < nl implies #[trigger] s.subrange(i + 1, a)[k] == xl[k] by {
            assert(x[1 + k] == xl[k]);
        }
    }
    assert(s[a] == ' ') by {
        assert(x[1 + nl] == ' ');
    }
    assert forall|k: int| 0 <= k < no implies #[trigger] s[a + 1 + k] == op[k] by {
        assert(x[2 + nl + k] == op[k]);
    }
    assert(s[b] == ' ') by {
        assert(x[2 + nl + no] == ' ');
    }
    assert(s[b + 1] == xr[0]) by {
        assert(x[3 + nl + no] == xr[0]);
    }
    assert(s.subrange(b + 1, b + 1 + nr) =~= xr) by {
        assert forall|k: int| 0 <= k < nr implies #[trigger] s.subrange(b + 1, b + 1 + nr)[k]
            == xr[k] by {
            assert(x[3 + nl + no + k] == xr[k]);
        }
    }
    assert(s[b + 1 + nr] == ')') by {
        assert(x[3 + nl + no + nr] == ')');
    }
    assert(next_lexeme(s, i) == (lparen(), i + 1));
    lemma_lexemes_from_unfold(s, i);
    lemma_lex_text(s, i + 1, *l);
    lemma_blank_skipped(s, a);
    assert(s[a + 1] == op[0]) by {
        assert(s[a + 1 + 0] == op[0]);
    }
    if no == 2 {
        assert(s[a + 2] == op[1]) by {
            assert(s[a + 1 + 1] == op[1]);
        }
    }
    assert(skip_blanks(s, a + 1) == a + 1);
    assert(next_lexeme(s, a + 1) == (tk, b));
    lemma_lexemes_from_unfold(s, a + 1);
    lemma_blank_skipped(s, b);
    lemma_lex_text(s, b + 1, *r);
    assert(next_lexeme(s, b + 1 + nr) == (rparen(), i + n));
    lemma_lexemes_from_unfold(s, b + 1 + nr);
    assert(lexemes_from(s, i) =~= seq![lparen()] + (canonical_tokens(*l) + (seq![tk] + (
    canonical_tokens(*r) + (seq![rparen()] + lexemes_from(s, i + n))))));
    assert(canonical_tokens(e) + lexemes_from(s, i + n) =~= seq![lparen()] + (
    canonical_tokens(*l) + (seq![tk] + (canonical_tokens(*r) + (seq![rparen()]
        + lexemes_from(s, i + n))))));
}

/// Rendering, then re-reading, is a fixpoint: the canonical text of a
/// program made of one operator expression lexes and parses, without
/// error, back into that expression, and so renders to the same text.
pub proof fn lemma_render_reparse(tk: Lexeme, e: ExprV)
    requires
        text_form(e),
    ensures
        p_program(
            lexemes(vprogram_text(seq![StmtV::Expr(tk, e)])),
            PState { i: 0, errs: seq![] },
            seq![],
        ).0 == seq![StmtV::Expr(canonical_tokens(e).last(), e)],
        p_program(
            lexemes(vprogram_text(seq![StmtV::Expr(tk, e)])),
            PState { i: 0, errs: seq![] },
            seq![],
        ).1.errs.len() == 0,
        vprogram_text(
            p_program(
                lexemes(vprogram_text(seq![StmtV::Expr(tk, e)])),
                PState { i: 0, errs: seq![] },
                seq![],
            ).0,
        ) == vprogram_text(seq![StmtV::Expr(tk, e)]),
{
    let x = vexpr_text(e);
    let n = x.len() as int;
    let s = x + seq![';'];
    let semi = Lexeme { kind: TokenType::SEMICOLON, text: seq![';'] };
    lemma_text_form_facts(e);
    assert(vstmt_text(StmtV::Expr(tk, e)) == x);
    assert(vstmt_text(StmtV::Expr(canonical_tokens(e).last(), e)) == x);
    assert(vstmts_text(seq![StmtV::Expr(tk, e)]) =~= x + seq![';', ' ']) by {
        assert(seq![StmtV::Expr(tk, e)].drop_last() =~= Seq::<StmtV>::empty());
        assert(seq![StmtV::Expr(tk, e)].last() == StmtV::Expr(tk, e));
        assert(vstmts_text(Seq::<StmtV>::empty()) == Seq::<char>::empty());
    }
    assert(vprogram_text(seq![StmtV::Expr(tk, e)]) =~= s);
    let last = canonical_tokens(e).last();
    assert(vstmts_text(seq![StmtV::Expr(last, e)]) =~= x + seq![';', ' ']) by {
        assert(seq![StmtV::Expr(last, e)].drop_last() =~= Seq::<StmtV>::empty());
        assert(seq![StmtV::Expr(last, e)].last() == StmtV::Expr(last, e));
        assert(vstmts_text(Seq::<StmtV>::empty()) == Seq::<char>::empty());
    }
    assert(s.subrange(0, n) =~= x);
    assert(s[n] == ';');
    lemma_lex_text(s, 0, e);
    assert(next_lexeme(s, n) == (semi, n + 1));
    lemma_lexemes_from_unfold(s, n);
    lemma_eof_stays(s, n + 1);
    lemma_lexemes_from_unfold(s, n + 1);
    assert(lexemes(s) =~= canonical_tokens(e) + seq![semi, eof_lexeme()]);
    lemma_reparse_operator_expression(e);
}

/// An infix operator written between two blanks at `a` is read as the
/// one token `tk`.
proof fn lemma_lex_operator(s: Seq<char>, a: int, op: Seq<char>, tk: Lexeme)
    requires
        0 <= a,
        a + op.len() + 1 < s.len(),
        s[a] == ' ',
        s.subrange(a + 1, a + 1 + op.len()) == op,
        s[a + 1 + op.len()] == ' ',
        infix_text_kind(op) is Some,
        tk == (Lexeme { kind: infix_text_kind(op)->0, text: op }),
    ensures
        lexemes_from(s, a) == seq![tk] + lexemes_from(s, a + 1 + op.len()),
{
    let no = op.len() as int;
    assert(s[a + 1] == op[0]) by {
        assert(s.subrange(a + 1, a + 1 + no)[0] == s[a + 1]);
    }
    if no == 2 {
        assert(s[a + 2] == op[1]) by {
            assert(s.subrange(a + 1, a + 1 + no)[1] == s[a + 2]);
        }
    }
    lemma_blank_skipped(s, a);
    assert(skip_blanks(s, a + 1) == a + 1);
    assert(next_lexeme(s, a + 1) == (tk, a + 1 + no));
    lemma_lexemes_from_unfold(s, a + 1);
}

/// `x o1 y o2 z` lexes to its five tokens and the end marker.
#[verifier::rlimit(80)]
proof fn lemma_lex_binary_text(x: Seq<char>, o1: Seq<char>, y: Seq<char>, o2: Seq<char>, z: Seq<char>)
    requires
        name_form(x),
        name_form(y),
        name_form(z),
        infix_text_kind(o1) is Some,
        infix_text_kind(o2) is Some,
    ensures
        lexemes(x + seq![' '] + o1 + seq![' '] + y + seq![' '] + o2 + seq![' '] + z) == seq![
            Lexeme { kind: TokenType::IDENT, text: x },
            Lexeme { kind: infix_text_kind(o1)->0, text: o1 },
            Lexeme { kind: TokenType::IDENT, text: y },
            Lexeme { kind: infix_text_kind(o2)->0, text: o2 },
            Lexeme { kind: TokenType::IDENT, text: z },
            eof_lexeme(),
        ],
{
    let s = x + seq![' '] + o1 + seq![' '] + y + seq![' '] + o2 + seq![' '] + z;
    let k1 = infix_text_kind(o1)->0;
    let k2 = infix_text_kind(o2)->0;
    let tx = Lexeme { kind: TokenType::IDENT, text: x };
    let ty = Lexeme { kind: TokenType::IDENT, text: y };
    let tz = Lexeme { kind: TokenType::IDENT, text: z };
    let t1 = Lexeme { kind: k1, text: o1 };
    let t2 = Lexeme { kind: k2, text: o2 };
    let a = x.len() as int;
    let b = a + 1 + o1.len();
    let c = b + 1 + y.len();
    let d = c + 1 + o2.len();
    let n = s.len() as int;
    assert(n == d + 1 + z.len());
    assert(s.subrange(0, a) =~= x);
    assert(s[a] == ' ');
    assert(s.subrange(a + 1, b) =~= o1);
    assert(s[b] == ' ');
    assert(s.subrange(b + 1, c) =~= y);
    assert(s[c] == ' ');
    assert(s.subrange(c + 1, d) =~= o2);
    assert(s[d] == ' ');
    assert(s.subrange(d + 1, n) =~= z);
    assert(!is_ident_char(' '));
    lemma_lex_word(s, 0, x, tx);
    lemma_lex_operator(s, a, o1, t1);
    lemma_blank_skipped(s, b);
    lemma_lex_word(s, b + 1, y, ty);
    lemma_lex_operator(s, c, o2, t2);
    lemma_blank_skipped(s, d);
    lemma_lex_word(s, d + 1, z, tz);
    lemma_eof_stays(s, n);
    lemma_lexemes_from_unfold(s, n);
    assert(lexemes(s) =~= seq![tx, t1, ty, t2, tz, eof_lexeme()]);
}

/// Operator precedence, read from text: `x o1 y o2 z`, with names and infix
/// operators separated by single blanks, parses with the more strongly
/// binding operator taking `y`, and with equal operators grouping to the
/// left.
pub proof fn lemma_precedence_text(
    x: Seq<char>,
    o1: Seq<char>,
    y: Seq<char>,
    o2: Seq<char>,
    z: Seq<char>,
)
    requires
        name_form(x),
        name_form(y),
        name_form(z),
        infix_text_kind(o1) is Some,
        infix_text_kind(o2) is Some,
    ensures
        ({
            let t = lexemes(x + seq![' '] + o1 + seq![' '] + y + seq![' '] + o2 + seq![' '] + z);
            let k1 = infix_text_kind(o1)->0;
            let k2 = infix_text_kind(o2)->0;
            let tx = Lexeme { kind: TokenType::IDENT, text: x };
            let ty = Lexeme { kind: TokenType::IDENT, text: y };
            let tz = Lexeme { kind: TokenType::IDENT, text: z };
            let t1 = Lexeme { kind: k1, text: o1 };
            let t2 = Lexeme { kind: k2, text: o2 };
            &&& precedence_of(k2) > precedence_of(k1) ==> p_expr(
                t,
                PState { i: 0, errs: seq![] },
                LOWEST as int,
            ).0 == Some(
                infix(ExprV::Ident(tx, x), t1, infix(ExprV::Ident(ty, y), t2, ExprV::Ident(tz, z))),
            )
            &&& precedence_of(k2) <= precedence_of(k1) ==> p_expr(
                t,
                PState { i: 0, errs: seq![] },
                LOWEST as int,
            ).0 == Some(
                infix(infix(ExprV::Ident(tx, x), t1, ExprV::Ident(ty, y)), t2, ExprV::Ident(tz, z)),
            )
        }),
{
    let s = x + seq![' '] + o1 + seq![' '] + y + seq![' '] + o2 + seq![' '] + z;
    lemma_lex_binary_text(x, o1, y, o2, z);
    let t = lexemes(s);
    lemma_precedence(t, seq![]);
}

} // verus!
