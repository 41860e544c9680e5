use vstd::prelude::*;

use crate::token::{owned, Token};

verus! {

/// A name, as written.
#[derive(Debug, PartialEq)]
pub struct Identifier {
    pub token: Token,
    pub value: String,
}

/// An integer literal and its value.
#[derive(Debug, PartialEq)]
pub struct IntegerLiteral {
    pub token: Token,
    pub value: i64,
}

/// A floating-point literal; its text is the token's literal.
#[derive(Debug, PartialEq)]
pub struct FloatLiteral {
    pub token: Token,
}

/// `true` or `false`.
#[derive(Debug, PartialEq)]
pub struct Boolean {
    pub token: Token,
    pub value: bool,
}

/// `<operator><right>`, such as `-x` or `!ok`.
#[derive(Debug, PartialEq)]
pub struct PrefixExpression {
    pub token: Token,
    pub operator: String,
    pub right: Box<Expression>,
}

/// `<left> <operator> <right>`.
#[derive(Debug, PartialEq)]
pub struct InfixExpression {
    pub token: Token,
    pub left: Box<Expression>,
    pub operator: String,
    pub right: Box<Expression>,
}

/// `if (<condition>) { ... } else { ... }`, the `else` part optional.
#[derive(Debug, PartialEq)]
pub struct IfExpression {
    pub token: Token,
    pub condition: Box<Expression>,
    pub consequence: BlockStatement,
    pub alternative: Option<BlockStatement>,
}

/// `fn(<parameters>) { <body> }`.
#[derive(Debug, PartialEq)]
pub struct FunctionLiteral {
    pub token: Token,
    pub parameters: Vec<Identifier>,
    pub body: BlockStatement,
}

/// `<function>(<arguments>)`.
#[derive(Debug, PartialEq)]
pub struct CallExpression {
    pub token: Token,
    pub function: Box<Expression>,
    pub arguments: Vec<Expression>,
}

/// Every kind of expression node.
#[derive(Debug, PartialEq)]
pub enum Expression {
    Identifier(Identifier),
    Integer(IntegerLiteral),
    Float(FloatLiteral),
    Boolean(Boolean),
    Prefix(PrefixExpression),
    Infix(InfixExpression),
    If(IfExpression),
    Function(FunctionLiteral),
    Call(CallExpression),
}

/// `let <name> = <value>;`.
#[derive(Debug, PartialEq)]
pub struct LetStatement {
    pub token: Token,
    pub name: Identifier,
    pub value: Expression,
}

/// `return <value>;`.
#[derive(Debug, PartialEq)]
pub struct ReturnStatement {
    pub token: Token,
    pub return_value: Expression,
}

/// An expression used as a statement.
#[derive(Debug, PartialEq)]
pub struct ExpressionStatement {
    pub token: Token,
    pub expression: Expression,
}

/// `{ <statements> }`.
#[derive(Debug, PartialEq)]
pub struct BlockStatement {
    pub token: Token,
    pub statements: Vec<Statement>,
}

/// Every kind of statement node.
#[derive(Debug, PartialEq)]
pub enum Statement {
    Let(LetStatement),
    Return(ReturnStatement),
    Expression(ExpressionStatement),
    Block(BlockStatement),
}

/// The root of a parsed source text.
#[derive(Debug, PartialEq)]
pub struct Program {
    pub statements: Vec<Statement>,
}

/// `", "`, between list items.
pub open spec fn comma() -> Seq<char> {
    seq![',', ' ']
}

/// The canonical text of an expression: every operator application is
/// fully parenthesized.
pub open spec fn expr_text(e: Expression) -> Seq<char>
    decreases e,
{
    match e {
        Expression::Identifier(i) => i.value@,
        Expression::Integer(i) => i.token.literal@,
        Expression::Float(f) => f.token.literal@,
        Expression::Boolean(b) => b.token.literal@,
        Expression::Prefix(p) => seq!['('] + p.operator@ + expr_text(*p.right) + seq![')'],
        Expression::Infix(i) => seq!['('] + expr_text(*i.left) + seq![' '] + i.operator@ + seq![
            ' ',
        ] + expr_text(*i.right) + seq![')'],
        Expression::If(i) => {
            let head = seq!['i', 'f', ' ', '('] + expr_text(*i.condition) + seq![')', ' ']
                + block_text(i.consequence);
            match i.alternative {
                Some(a) => head + seq![' ', 'e', 'l', 's', 'e', ' '] + block_text(a),
                None => head,
            }
        },
        Expression::Function(f) => seq!['f', 'n', '('] + names_text(f.parameters@) + seq![
            ')',
            ' ',
        ] + block_text(f.body),
        Expression::Call(c) => expr_text(*c.function) + seq!['('] + list_text(c.arguments@) + seq![
            ')',
        ],
    }
}

/// The texts of `args`, separated by `", "`.
pub open spec fn list_text(args: Seq<Expression>) -> Seq<char>
    decreases args,
{
    if args.len() == 0 {
        seq![]
    } else if args.len() == 1 {
        expr_text(args[0])
    } else {
        list_text(args.drop_last()) + comma() + expr_text(args.last())
    }
}

/// The names of `params`, separated by `", "`.
pub open spec fn names_text(params: Seq<Identifier>) -> Seq<char>
    decreases params.len(),
{
    if params.len() == 0 {
        seq![]
    } else if params.len() == 1 {
        params[0].value@
    } else {
        names_text(params.drop_last()) + comma() + params.last().value@
    }
}

/// The canonical text of a statement.
pub open spec fn stmt_text(s: Statement) -> Seq<char>
    decreases s,
{
    match s {
        Statement::Let(l) => l.token.literal@ + seq![' '] + l.name.value@ + seq![' ', '=', ' ']
            + expr_text(l.value),
        Statement::Return(r) => r.token.literal@ + seq![' '] + expr_text(r.return_value),
        Statement::Expression(e) => expr_text(e.expression),
        Statement::Block(b) => block_text(b),
    }
}

/// Each statement's text followed by `"; "`.
pub open spec fn stmts_text(stmts: Seq<Statement>) -> Seq<char>
    decreases stmts,
{
    if stmts.len() == 0 {
        seq![]
    } else {
        stmts_text(stmts.drop_last()) + stmt_text(stmts.last()) + seq![';', ' ']
    }
}

/// `{ s1; s2; }`.
pub open spec fn block_text(b: BlockStatement) -> Seq<char>
    decreases b,
{
    seq!['{', ' '] + stmts_text(b.statements@) + seq!['}']
}

/// The statements' texts, each ended by `;`, separated by one space.
pub open spec fn program_text(p: Program) -> Seq<char> {
    let all = stmts_text(p.statements@);
    if all.len() == 0 {
        all
    } else {
        all.drop_last()
    }
}

/// The literal text of the token that begins an expression node.
pub open spec fn expr_token(e: Expression) -> Token {
    match e {
        Expression::Identifier(x) => x.token,
        Expression::Integer(x) => x.token,
        Expression::Float(x) => x.token,
        Expression::Boolean(x) => x.token,
        Expression::Prefix(x) => x.token,
        Expression::Infix(x) => x.token,
        Expression::If(x) => x.token,
        Expression::Function(x) => x.token,
        Expression::Call(x) => x.token,
    }
}

pub open spec fn stmt_token(s: Statement) -> Token {
    match s {
        Statement::Let(x) => x.token,
        Statement::Return(x) => x.token,
        Statement::Expression(x) => x.token,
        Statement::Block(x) => x.token,
    }
}

fn push_str(s: &mut String, t: &str)
    ensures
        final(s)@ == old(s)@ + t@,
{
    s.append(t);
}

impl Expression {
    /// The literal of the token this node was parsed from.
    pub fn token_literal(&self) -> (r: &str)
        ensures
            r@ == expr_token(*self).literal@,
    {
        match self {
            Expression::Identifier(x) => x.token.literal.as_str(),
            Expression::Integer(x) => x.token.literal.as_str(),
            Expression::Float(x) => x.token.literal.as_str(),
            Expression::Boolean(x) => x.token.literal.as_str(),
            Expression::Prefix(x) => x.token.literal.as_str(),
            Expression::Infix(x) => x.token.literal.as_str(),
            Expression::If(x) => x.token.literal.as_str(),
            Expression::Function(x) => x.token.literal.as_str(),
            Expression::Call(x) => x.token.literal.as_str(),
        }
    }

    /// The canonical, fully parenthesized text of this expression.
    pub fn to_string(&self) -> (r: String)
        ensures
            r@ == expr_text(*self),
        decreases self,
    {
        match self {
            Expression::Identifier(i) => i.value.clone(),
            Expression::Integer(i) => i.token.literal.clone(),
            Expression::Float(f) => f.token.literal.clone(),
            Expression::Boolean(b) => b.token.literal.clone(),
            Expression::Prefix(p) => {
                let mut s = owned("(");
                push_str(&mut s, p.operator.as_str());
                let r = p.right.to_string();
                push_str(&mut s, r.as_str());
                push_str(&mut s, ")");
                proof {
                    reveal_strlit("(");
                    reveal_strlit(")");
                }
                s
            },
            Expression::Infix(i) => {
                let mut s = owned("(");
                let l = i.left.to_string();
                push_str(&mut s, l.as_str());
                push_str(&mut s, " ");
                push_str(&mut s, i.operator.as_str());
                push_str(&mut s, " ");
                let r = i.right.to_string();
                push_str(&mut s, r.as_str());
                push_str(&mut s, ")");
                proof {
                    reveal_strlit("(");
                    reveal_strlit(" ");
                    reveal_strlit(")");
                }
                s
            },
            Expression::If(i) => {
                let mut s = owned("if (");
                let c = i.condition.to_string();
                push_str(&mut s, c.as_str());
                push_str(&mut s, ") ");
                let b = i.consequence.to_string();
                push_str(&mut s, b.as_str());
                proof {
                    reveal_strlit("if (");
                    reveal_strlit(") ");
                    reveal_strlit(" else ");
                }
                match &i.alternative {
                    Some(a) => {
                        push_str(&mut s, " else ");
                        let t = a.to_string();
                        push_str(&mut s, t.as_str());
                    },
                    None => {},
                }
                s
            },
            Expression::Function(f) => {
                let mut s = owned("fn(");
                let p = names_to_string(&f.parameters);
                push_str(&mut s, p.as_str());
                push_str(&mut s, ") ");
                let b = f.body.to_string();
                push_str(&mut s, b.as_str());
                proof {
                    reveal_strlit("fn(");
                    reveal_strlit(") ");
                }
                s
            },
            Expression::Call(c) => {
                let mut s = c.function.to_string();
                push_str(&mut s, "(");
                let a = list_to_string(&c.arguments);
                push_str(&mut s, a.as_str());
                push_str(&mut s, ")");
                proof {
                    reveal_strlit("(");
                    reveal_strlit(")");
                }
                s
            },
        }
    }
}

/// The texts of the arguments, separated by `", "`.
fn list_to_string(args: &Vec<Expression>) -> (r: String)
    ensures
        r@ == list_text(args@),
    decreases args,
{
    let mut s = String::new();
    let mut i: usize = 0;
    proof {
        reveal_strlit(", ");
        assert(", "@ =~= comma());
    }
    while i < args.len()
        invariant
            i <= args@.len(),
            s@ == list_text(args@.subrange(0, i as int)),
        decreases args.len() - i,
    {
        assert(decreases_to!(args => args@[i as int]));
        let t = args[i].to_string();
        if i > 0 {
            push_str(&mut s, ", ");
        }
        push_str(&mut s, t.as_str());
        proof {
            let prefix = args@.subrange(0, i + 1);
            assert(prefix.drop_last() =~= args@.subrange(0, i as int));
            assert(prefix.last() == args@[i as int]);
            reveal_strlit(", ");
            assert(", "@ =~= comma());
            assert(s@ =~= list_text(prefix));
        }
        i = i + 1;
    }
    assert(args@.subrange(0, args@.len() as int) =~= args@);
    s
}

/// The parameter names, separated by `", "`.
fn names_to_string(params: &Vec<Identifier>) -> (r: String)
    ensures
        r@ == names_text(params@),
{
    let mut s = String::new();
    let mut i: usize = 0;
    proof {
        reveal_strlit(", ");
        assert(", "@ =~= comma());
    }
    while i < params.len()
        invariant
            i <= params@.len(),
            s@ == names_text(params@.subrange(0, i as int)),
        decreases params.len() - i,
    {
        if i > 0 {
            push_str(&mut s, ", ");
        }
        push_str(&mut s, params[i].value.as_str());
        proof {
            let prefix = params@.subrange(0, i + 1);
            assert(prefix.drop_last() =~= params@.subrange(0, i as int));
            reveal_strlit(", ");
            assert(", "@ =~= comma());
            assert(s@ =~= names_text(prefix));
        }
        i = i + 1;
    }
    assert(params@.subrange(0, params@.len() as int) =~= params@);
    s
}

/// Each statement's text followed by `"; "`.
fn stmts_to_string(stmts: &Vec<Statement>) -> (r: String)
    ensures
        r@ == stmts_text(stmts@),
    decreases stmts,
{
    let mut s = String::new();
    let mut i: usize = 0;
    proof {
        reveal_strlit("; ");
        assert("; "@ =~= seq![';', ' ']);
    }
    while i < stmts.len()
        invariant
            i <= stmts@.len(),
            s@ == stmts_text(stmts@.subrange(0, i as int)),
        decreases stmts.len() - i,
    {
        assert(decreases_to!(stmts => stmts@[i as int]));
        let t = stmts[i].to_string();
        push_str(&mut s, t.as_str());
        push_str(&mut s, "; ");
        proof {
            let prefix = stmts@.subrange(0, i + 1);
            assert(prefix.drop_last() =~= stmts@.subrange(0, i as int));
            reveal_strlit("; ");
            assert("; "@ =~= seq![';', ' ']);
            assert(s@ =~= stmts_text(prefix));
        }
        i = i + 1;
    }
    assert(stmts@.subrange(0, stmts@.len() as int) =~= stmts@);
    s
}

impl Statement {
    /// The literal of the token this node was parsed from.
    pub fn token_literal(&self) -> (r: &str)
        ensures
            r@ == stmt_token(*self).literal@,
    {
        match self {
            Statement::Let(x) => x.token.literal.as_str(),
            Statement::Return(x) => x.token.literal.as_str(),
            Statement::Expression(x) => x.token.literal.as_str(),
            Statement::Block(x) => x.token.literal.as_str(),
        }
    }

    /// The canonical text of this statement.
    pub fn to_string(&self) -> (r: String)
        ensures
            r@ == stmt_text(*self),
        decreases self,
    {
        match self {
            Statement::Let(l) => {
                let mut s = l.token.literal.clone();
                push_str(&mut s, " ");
                push_str(&mut s, l.name.value.as_str());
                push_str(&mut s, " = ");
                let v = l.value.to_string();
                push_str(&mut s, v.as_str());
                proof {
                    reveal_strlit(" ");
                    reveal_strlit(" = ");
                }
                s
            },
            Statement::Return(r) => {
                let mut s = r.token.literal.clone();
                push_str(&mut s, " ");
                let v = r.return_value.to_string();
                push_str(&mut s, v.as_str());
                proof {
                    reveal_strlit(" ");
                }
                s
            },
            Statement::Expression(e) => e.expression.to_string(),
            Statement::Block(b) => b.to_string(),
        }
    }
}

impl BlockStatement {
    /// A block made of `statements`, opened by `token`.
    pub fn new(token: Token, statements: Vec<Statement>) -> (r: Self)
        ensures
            r.token == token,
            r.statements == statements,
    {
        BlockStatement { token, statements }
    }

    /// `{ s1; s2; }`.
    pub fn to_string(&self) -> (r: String)
        ensures
            r@ == block_text(*self),
        decreases self,
    {
        let mut s = owned("{ ");
        let body = stmts_to_string(&self.statements);
        push_str(&mut s, body.as_str());
        push_str(&mut s, "}");
        proof {
            reveal_strlit("{ ");
            reveal_strlit("}");
        }
        s
    }
}

impl Program {
    /// An empty program.
    pub fn new() -> (r: Self)
        ensures
            r.statements@.len() == 0,
    {
        Program { statements: Vec::new() }
    }

    /// A program made of `statements`.
    pub fn from_statements(statements: Vec<Statement>) -> (r: Self)
        ensures
            r.statements == statements,
    {
        Program { statements }
    }

    /// The literal of the first statement's token, or `""` for an empty program.
    pub fn token_literal(&self) -> (r: &str)
        ensures
            self.statements@.len() == 0 ==> r@ == Seq::<char>::empty(),
            self.statements@.len() > 0 ==> r@ == stmt_token(self.statements@[0]).literal@,
    {
        if self.statements.len() == 0 {
            proof {
                reveal_strlit("");
            }
            ""
        } else {
            self.statements[0].token_literal()
        }
    }

    /// Every statement's text followed by `;`, separated by single spaces.
    pub fn to_string(&self) -> (r: String)
        ensures
            r@ == program_text(*self),
    {
        let all = stmts_to_string(&self.statements);
        let n = all.as_str().unicode_len();
        if n == 0 {
            all
        } else {
            owned(all.as_str().substring_char(0, n - 1))
        }
    }
}

impl Identifier {
    /// A name read from `token`.
    pub fn new(token: Token, value: String) -> (r: Self)
        ensures
            r.token == token,
            r.value == value,
    {
        Identifier { token, value }
    }

    /// The literal of the token this name was read from.
    pub fn token_literal(&self) -> (r: &str)
        ensures
            r@ == self.token.literal@,
    {
        self.token.literal.as_str()
    }

    /// The name itself.
    pub fn to_string(&self) -> (r: String)
        ensures
            r@ == self.value@,
    {
        self.value.clone()
    }
}

impl IntegerLiteral {
    pub fn new(token: Token, value: i64) -> (r: Self)
        ensures
            r.token == token,
            r.value == value,
    {
        IntegerLiteral { token, value }
    }

    pub fn token_literal(&self) -> (r: &str)
        ensures
            r@ == self.token.literal@,
    {
        self.token.literal.as_str()
    }
}

impl FloatLiteral {
    /// A floating-point literal whose text is `token`'s literal.
    pub fn new(token: Token) -> (r: Self)
        ensures
            r.token == token,
    {
        FloatLiteral { token }
    }

    pub fn token_literal(&self) -> (r: &str)
        ensures
            r@ == self.token.literal@,
    {
        self.token.literal.as_str()
    }
}

impl Boolean {
    pub fn new(token: Token, value: bool) -> (r: Self)
        ensures
            r.token == token,
            r.value == value,
    {
        Boolean { token, value }
    }

    pub fn token_literal(&self) -> (r: &str)
        ensures
            r@ == self.token.literal@,
    {
        self.token.literal.as_str()
    }
}

impl PrefixExpression {
    pub fn new(token: Token, operator: &str, right: Box<Expression>) -> (r: Self)
        ensures
            r.token == token,
            r.operator@ == operator@,
            r.right == right,
    {
        PrefixExpression { token, operator: owned(operator), right }
    }
}

impl InfixExpression {
    pub fn new(token: Token, left: Box<Expression>, operator: &str, right: Box<Expression>) -> (r:
        Self)
        ensures
            r.token == token,
            r.left == left,
            r.operator@ == operator@,
            r.right == right,
    {
        InfixExpression { token, left, operator: owned(operator), right }
    }
}

impl ExpressionStatement {
    pub fn new(token: Token, expression: Expression) -> (r: Self)
        ensures
            r.token == token,
            r.expression == expression,
    {
        ExpressionStatement { token, expression }
    }
}

impl LetStatement {
    pub fn new(token: Token, name: Identifier, value: Expression) -> (r: Self)
        ensures
            r.token == token,
            r.name == name,
            r.value == value,
    {
        LetStatement { token, name, value }
    }
}

impl ReturnStatement {
    pub fn new(token: Token, return_value: Expression) -> (r: Self)
        ensures
            r.token == token,
            r.return_value == return_value,
    {
        ReturnStatement { token, return_value }
    }
}

impl IfExpression {
    pub fn new(
        token: Token,
        condition: Box<Expression>,
        consequence: BlockStatement,
        alternative: Option<BlockStatement>,
    ) -> (r: Self)
        ensures
            r.token == token,
            r.condition == condition,
            r.consequence == consequence,
            r.alternative == alternative,
    {
        IfExpression { token, condition, consequence, alternative }
    }
}

impl FunctionLiteral {
    pub fn new(token: Token, parameters: Vec<Identifier>, body: BlockStatement) -> (r: Self)
        ensures
            r.token == token,
            r.parameters == parameters,
            r.body == body,
    {
        FunctionLiteral { token, parameters, body }
    }
}

impl CallExpression {
    pub fn new(token: Token, function: Box<Expression>, arguments: Vec<Expression>) -> (r: Self)
        ensures
            r.token == token,
            r.function == function,
            r.arguments == arguments,
    {
        CallExpression { token, function, arguments }
    }
}

} // verus!
