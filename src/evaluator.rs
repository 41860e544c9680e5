use vstd::prelude::*;

use crate::ast::{Expression, Identifier, Program, Statement};
use crate::environment::{EnvView, Environment};
use crate::object::{
    decimal, kind_label, usize_to_string, value_type, Object, ObjectType, Value,
};
use crate::token::owned;

verus! {

/// How deeply evaluation may nest before it gives up with an error.
pub const MAX_DEPTH: u64 = 2000;

/// An error or a pending `return`: both end the evaluation of every
/// enclosing construct.
pub open spec fn is_signal(v: Value) -> bool {
    v is Error || v is Return
}

/// Only `null` and `false` count as false.
pub open spec fn truthy(v: Value) -> bool {
    match v {
        Value::Null => false,
        Value::Bool(b) => b,
        _ => true,
    }
}

/// The value inside a `return`, or the value itself.
pub open spec fn unwrap_return(v: Value) -> Value {
    match v {
        Value::Return(inner) => *inner,
        _ => v,
    }
}

pub open spec fn err(m: Seq<char>) -> Value {
    Value::Error(m)
}

pub open spec fn depth_message() -> Seq<char> {
    "maximum evaluation depth exceeded"@
}

pub open spec fn scopes_message() -> Seq<char> {
    "too many scopes"@
}

pub open spec fn float_message() -> Seq<char> {
    "floating-point values are not supported"@
}

pub open spec fn overflow_message() -> Seq<char> {
    "integer overflow"@
}

pub open spec fn division_message() -> Seq<char> {
    "division by zero"@
}

/// `type mismatch: L op R`.
pub open spec fn mismatch_message(l: ObjectType, op: Seq<char>, r: ObjectType) -> Seq<char> {
    "type mismatch: "@ + kind_label(l) + seq![' '] + op + seq![' '] + kind_label(r)
}

/// `unknown operator: L op R`.
pub open spec fn unknown_infix_message(l: ObjectType, op: Seq<char>, r: ObjectType) -> Seq<
    char,
> {
    "unknown operator: "@ + kind_label(l) + seq![' '] + op + seq![' '] + kind_label(r)
}

/// `unknown operator: opT`.
pub open spec fn unknown_prefix_message(op: Seq<char>, t: ObjectType) -> Seq<char> {
    "unknown operator: "@ + op + kind_label(t)
}

pub open spec fn not_found_message(name: Seq<char>) -> Seq<char> {
    "identifier not found: "@ + name
}

pub open spec fn not_function_message(t: ObjectType) -> Seq<char> {
    "not a function: "@ + kind_label(t)
}

pub open spec fn arity_message(expected: nat, got: nat) -> Seq<char> {
    "wrong number of arguments: expected "@ + decimal(expected) + ", got "@ + decimal(got)
}

/// Integer arithmetic and comparison; arithmetic that leaves the 64-bit
/// range is an error, and so is division by zero.
pub open spec fn int_infix(op: Seq<char>, a: i64, b: i64) -> Value {
    if op == seq!['+'] {
        match a.checked_add(b) {
            Some(n) => Value::Int(n),
            None => err(overflow_message()),
        }
    } else if op == seq!['-'] {
        match a.checked_sub(b) {
            Some(n) => Value::Int(n),
            None => err(overflow_message()),
        }
    } else if op == seq!['*'] {
        match a.checked_mul(b) {
            Some(n) => Value::Int(n),
            None => err(overflow_message()),
        }
    } else if op == seq!['/'] {
        if b == 0 {
            err(division_message())
        } else {
            match a.checked_div(b) {
                Some(n) => Value::Int(n),
                None => err(overflow_message()),
            }
        }
    } else if op == seq!['<'] {
        Value::Bool(a < b)
    } else if op == seq!['>'] {
        Value::Bool(a > b)
    } else if op == seq!['=', '='] {
        Value::Bool(a == b)
    } else if op == seq!['!', '='] {
        Value::Bool(a != b)
    } else {
        err(unknown_infix_message(ObjectType::Integer, op, ObjectType::Integer))
    }
}

/// The value of `l op r`, neither side being an error or a `return`.
pub open spec fn infix_value(op: Seq<char>, l: Value, r: Value) -> Value {
    match (l, r) {
        (Value::Int(a), Value::Int(b)) => int_infix(op, a, b),
        (Value::Bool(a), Value::Bool(b)) => if op == seq!['=', '='] {
            Value::Bool(a == b)
        } else if op == seq!['!', '='] {
            Value::Bool(a != b)
        } else {
            err(unknown_infix_message(ObjectType::Boolean, op, ObjectType::Boolean))
        },
        _ => if value_type(l) != value_type(r) {
            err(mismatch_message(value_type(l), op, value_type(r)))
        } else {
            err(unknown_infix_message(value_type(l), op, value_type(r)))
        },
    }
}

/// The value of `op v`, `v` being neither an error nor a `return`.
pub open spec fn prefix_value(op: Seq<char>, v: Value) -> Value {
    if op == seq!['!'] {
        Value::Bool(!truthy(v))
    } else if op == seq!['-'] {
        match v {
            Value::Int(n) => match 0i64.checked_sub(n) {
                Some(m) => Value::Int(m),
                None => err(overflow_message()),
            },
            _ => err(unknown_prefix_message(op, value_type(v))),
        }
    } else {
        err(unknown_prefix_message(op, value_type(v)))
    }
}

/// Evaluation of an expression with at most `fuel` levels of nesting:
/// its value and the scope table afterwards.
pub open spec fn eval_expr(fuel: nat, e: Expression, env: EnvView) -> (Value, EnvView)
    decreases fuel, 0int,
{
    if fuel == 0 {
        (err(depth_message()), env)
    } else {
        match e {
            Expression::Identifier(i) => match env.get(i.value@) {
                Some(v) => (v, env),
                None => (err(not_found_message(i.value@)), env),
            },
            Expression::Integer(i) => (Value::Int(i.value), env),
            Expression::Float(_) => (err(float_message()), env),
            Expression::Boolean(b) => (Value::Bool(b.value), env),
            Expression::Prefix(p) => {
                let (v, e1) = eval_expr((fuel - 1) as nat, *p.right, env);
                if is_signal(v) {
                    (v, e1)
                } else {
                    (prefix_value(p.operator@, v), e1)
                }
            },
            Expression::Infix(x) => {
                let (l, e1) = eval_expr((fuel - 1) as nat, *x.left, env);
                let (r, e2) = eval_expr((fuel - 1) as nat, *x.right, e1);
                if is_signal(l) {
                    (l, e2)
                } else if is_signal(r) {
                    (r, e2)
                } else {
                    (infix_value(x.operator@, l, r), e2)
                }
            },
            Expression::If(x) => {
                let (c, e1) = eval_expr((fuel - 1) as nat, *x.condition, env);
                if is_signal(c) {
                    (c, e1)
                } else if truthy(c) {
                    eval_block((fuel - 1) as nat, x.consequence.statements@, 0, e1)
                } else {
                    match x.alternative {
                        Some(a) => eval_block((fuel - 1) as nat, a.statements@, 0, e1),
                        None => (Value::Null, e1),
                    }
                }
            },
            Expression::Function(f) => (Value::Closure(f, env.current), env),
            Expression::Call(c) => {
                let (callee, e1) = eval_expr((fuel - 1) as nat, *c.function, env);
                if is_signal(callee) {
                    (callee, e1)
                } else {
                    let (args, e2) = eval_args((fuel - 1) as nat, c.arguments@, 0, e1);
                    match args {
                        Err(v) => (v, e2),
                        Ok(vs) => apply((fuel - 1) as nat, callee, vs, e2),
                    }
                }
            },
        }
    }
}

/// Evaluation of `args[i..]` from left to right: their values, or the
/// first error or `return` met.
pub open spec fn eval_args(fuel: nat, args: Seq<Expression>, i: int, env: EnvView) -> (Result<
    Seq<Value>,
    Value,
>, EnvView)
    decreases fuel, args.len() - i,
{
    if fuel == 0 {
        (Err(err(depth_message())), env)
    } else if i < 0 || i >= args.len() {
        (Ok(Seq::empty()), env)
    } else {
        let (v, e1) = eval_expr((fuel - 1) as nat, args[i], env);
        if is_signal(v) {
            (Err(v), e1)
        } else {
            let (rest, e2) = eval_args(fuel, args, i + 1, e1);
            match rest {
                Ok(vs) => (Ok(seq![v] + vs), e2),
                Err(x) => (Err(x), e2),
            }
        }
    }
}

/// Binds `params[i..]` to `vals[i..]`, in order, in the current scope.
pub open spec fn bind_params(env: EnvView, params: Seq<Identifier>, vals: Seq<Value>, i: int) -> EnvView
    decreases params.len() - i,
{
    if i < 0 || i >= params.len() || i >= vals.len() {
        env
    } else {
        bind_params(env.set(params[i].value@, vals[i]), params, vals, i + 1)
    }
}

/// A call of `callee` on `args`: the body runs in a fresh scope enclosed by
/// the scope the function was defined in; a `return` inside ends the call
/// and gives its value.
pub open spec fn apply(fuel: nat, callee: Value, args: Seq<Value>, env: EnvView) -> (Value, EnvView)
    decreases fuel, 0int,
{
    if fuel == 0 {
        (err(depth_message()), env)
    } else {
        match callee {
            Value::Closure(f, p) => if f.parameters@.len() != args.len() {
                (err(arity_message(f.parameters@.len(), args.len())), env)
            } else if env.scopes.len() + 1 >= usize::MAX {
                (err(scopes_message()), env)
            } else {
                let inner = bind_params(env.enclose(p), f.parameters@, args, 0);
                let (r, e2) = eval_block((fuel - 1) as nat, f.body.statements@, 0, inner);
                (unwrap_return(r), e2.with_current(env.current))
            },
            _ => (err(not_function_message(value_type(callee))), env),
        }
    }
}

/// Evaluation of one statement. A `let` binds in the current scope and
/// has the value `null`.
pub open spec fn eval_stmt(fuel: nat, s: Statement, env: EnvView) -> (Value, EnvView)
    decreases fuel, 0int,
{
    if fuel == 0 {
        (err(depth_message()), env)
    } else {
        match s {
            Statement::Let(l) => {
                let (v, e1) = eval_expr((fuel - 1) as nat, l.value, env);
                if is_signal(v) {
                    (v, e1)
                } else {
                    (Value::Null, e1.set(l.name.value@, v))
                }
            },
            Statement::Return(r) => {
                let (v, e1) = eval_expr((fuel - 1) as nat, r.return_value, env);
                if is_signal(v) {
                    (v, e1)
                } else {
                    (Value::Return(Box::new(v)), e1)
                }
            },
            Statement::Expression(x) => eval_expr((fuel - 1) as nat, x.expression, env),
            Statement::Block(b) => eval_block((fuel - 1) as nat, b.statements@, 0, env),
        }
    }
}

/// Evaluation of `stmts[i..]` in order: the value of the last one, `null`
/// when there is none, or the first error or `return` met, still wrapped.
pub open spec fn eval_block(fuel: nat, stmts: Seq<Statement>, i: int, env: EnvView) -> (
    Value,
    EnvView,
)
    decreases fuel, stmts.len() - i,
{
    if fuel == 0 {
        (err(depth_message()), env)
    } else if i < 0 || i >= stmts.len() {
        (Value::Null, env)
    } else {
        let (v, e1) = eval_stmt((fuel - 1) as nat, stmts[i], env);
        if is_signal(v) || i + 1 >= stmts.len() {
            (v, e1)
        } else {
            eval_block(fuel, stmts, i + 1, e1)
        }
    }
}

/// Evaluation of a whole program: as a block, but a `return` ends the
/// program with the value it carries.
pub open spec fn eval_program(fuel: nat, p: Program, env: EnvView) -> (Value, EnvView) {
    let (v, e1) = eval_block(fuel, p.statements@, 0, env);
    (unwrap_return(v), e1)
}

/// Once a statement yields an error or a `return`, no later statement
/// runs: appending statements after it changes neither the value nor the
/// scope table.
pub proof fn lemma_block_stops_at_signal(
    fuel: nat,
    stmts: Seq<Statement>,
    more: Seq<Statement>,
    env: EnvView,
)
    requires
        is_signal(eval_block(fuel, stmts, 0, env).0),
    ensures
        eval_block(fuel, stmts + more, 0, env) == eval_block(fuel, stmts, 0, env),
{
    lemma_block_suffix(fuel, stmts, more, 0, env);
}

proof fn lemma_block_suffix(
    fuel: nat,
    stmts: Seq<Statement>,
    more: Seq<Statement>,
    i: int,
    env: EnvView,
)
    requires
        0 <= i,
        is_signal(eval_block(fuel, stmts, i, env).0),
    ensures
        eval_block(fuel, stmts + more, i, env) == eval_block(fuel, stmts, i, env),
    decreases stmts.len() - i,
{
    if fuel > 0 && i < stmts.len() {
        assert((stmts + more)[i] == stmts[i]);
        let (v, e1) = eval_stmt((fuel - 1) as nat, stmts[i], env);
        if !is_signal(v) && i + 1 < stmts.len() {
            lemma_block_suffix(fuel, stmts, more, i + 1, e1);
        }
    }
}

/// A program whose statements reach an error or a `return` ends there:
/// further statements change nothing, and the value is the error itself
/// or the value the `return` carries.
pub proof fn lemma_program_stops_at_signal(fuel: nat, p: Program, longer: Program, env: EnvView)
    requires
        is_signal(eval_block(fuel, p.statements@, 0, env).0),
        p.statements@.is_prefix_of(longer.statements@),
    ensures
        eval_program(fuel, longer, env) == eval_program(fuel, p, env),
{
    let more = longer.statements@.subrange(p.statements@.len() as int, longer.statements@.len() as int);
    assert(longer.statements@ =~= p.statements@ + more);
    lemma_block_stops_at_signal(fuel, p.statements@, more, env);
}

/// Whether `obj` counts as true: everything but `null` and `false` does.
pub fn is_truthy(obj: &Object) -> (r: bool)
    ensures
        r == truthy(obj@),
{
    match obj {
        Object::Null => false,
        Object::Boolean(b) => *b,
        _ => true,
    }
}

fn signal(obj: &Object) -> (r: bool)
    ensures
        r == is_signal(obj@),
{
    match obj {
        Object::Error(_) | Object::ReturnValue(_) => true,
        _ => false,
    }
}

fn error_of(m: String) -> (r: Object<'static>)
    ensures
        r@ == err(m@),
{
    Object::Error(m)
}

fn text(s: &str) -> (r: String)
    ensures
        r@ == s@,
{
    owned(s)
}

fn push_str(s: &mut String, t: &str)
    ensures
        final(s)@ == old(s)@ + t@,
{
    s.append(t);
}

/// Whether `op` is the single character `c`.
fn op_is(op: &String, c: char) -> (r: bool)
    ensures
        r == (op@ == seq![c]),
{
    let s = op.as_str();
    if s.unicode_len() != 1 {
        return false;
    }
    let r = s.get_char(0) == c;
    assert(r ==> op@ =~= seq![c]);
    r
}

/// Whether `op` is the two characters `c`, `d`.
fn op_is2(op: &String, c: char, d: char) -> (r: bool)
    ensures
        r == (op@ == seq![c, d]),
{
    let s = op.as_str();
    if s.unicode_len() != 2 {
        return false;
    }
    let r = s.get_char(0) == c && s.get_char(1) == d;
    assert(r ==> op@ =~= seq![c, d]);
    r
}

fn depth_error() -> (r: Object<'static>)
    ensures
        r@ == err(depth_message()),
{
    error_of(text("maximum evaluation depth exceeded"))
}

fn unknown_infix(l: ObjectType, op: &String, r: ObjectType) -> (o: Object<'static>)
    ensures
        o@ == err(unknown_infix_message(l, op@, r)),
{
    let mut m = text("unknown operator: ");
    let a = l.name();
    push_str(&mut m, a.as_str());
    push_str(&mut m, " ");
    push_str(&mut m, op.as_str());
    push_str(&mut m, " ");
    let b = r.name();
    push_str(&mut m, b.as_str());
    proof {
        reveal_strlit(" ");
        assert(m@ =~= unknown_infix_message(l, op@, r));
    }
    error_of(m)
}

fn mismatch(l: ObjectType, op: &String, r: ObjectType) -> (o: Object<'static>)
    ensures
        o@ == err(mismatch_message(l, op@, r)),
{
    let mut m = text("type mismatch: ");
    let a = l.name();
    push_str(&mut m, a.as_str());
    push_str(&mut m, " ");
    push_str(&mut m, op.as_str());
    push_str(&mut m, " ");
    let b = r.name();
    push_str(&mut m, b.as_str());
    proof {
        reveal_strlit(" ");
        assert(m@ =~= mismatch_message(l, op@, r));
    }
    error_of(m)
}

fn unknown_prefix(op: &String, t: ObjectType) -> (o: Object<'static>)
    ensures
        o@ == err(unknown_prefix_message(op@, t)),
{
    let mut m = text("unknown operator: ");
    push_str(&mut m, op.as_str());
    let b = t.name();
    push_str(&mut m, b.as_str());
    error_of(m)
}

fn int_result(r: Option<i64>) -> (o: Object<'static>)
    ensures
        o@ == match r {
            Some(n) => Value::Int(n),
            None => err(overflow_message()),
        },
{
    match r {
        Some(n) => Object::Integer(n),
        None => error_of(text("integer overflow")),
    }
}

/// Integer arithmetic and comparison.
pub fn eval_integer_infix(op: &String, a: i64, b: i64) -> (r: Object<'static>)
    ensures
        r@ == int_infix(op@, a, b),
{
    if op_is(op, '+') {
        int_result(a.checked_add(b))
    } else if op_is(op, '-') {
        int_result(a.checked_sub(b))
    } else if op_is(op, '*') {
        int_result(a.checked_mul(b))
    } else if op_is(op, '/') {
        if b == 0 {
            error_of(text("division by zero"))
        } else {
            int_result(a.checked_div(b))
        }
    } else if op_is(op, '<') {
        Object::Boolean(a < b)
    } else if op_is(op, '>') {
        Object::Boolean(a > b)
    } else if op_is2(op, '=', '=') {
        Object::Boolean(a == b)
    } else if op_is2(op, '!', '=') {
        Object::Boolean(a != b)
    } else {
        unknown_infix(ObjectType::Integer, op, ObjectType::Integer)
    }
}

/// `left op right` on two values that are neither errors nor returns.
pub fn eval_infix<'a>(op: &String, left: &Object<'a>, right: &Object<'a>) -> (r: Object<'a>)
    ensures
        r@ == infix_value(op@, left@, right@),
{
    match (left, right) {
        (Object::Integer(a), Object::Integer(b)) => eval_integer_infix(op, *a, *b),
        (Object::Boolean(a), Object::Boolean(b)) => {
            if op_is2(op, '=', '=') {
                Object::Boolean(*a == *b)
            } else if op_is2(op, '!', '=') {
                Object::Boolean(*a != *b)
            } else {
                unknown_infix(ObjectType::Boolean, op, ObjectType::Boolean)
            }
        },
        _ => {
            let lt = left.get_type();
            let rt = right.get_type();
            if lt != rt {
                mismatch(lt, op, rt)
            } else {
                unknown_infix(lt, op, rt)
            }
        },
    }
}

/// `op right` on a value that is neither an error nor a return.
pub fn eval_prefix<'a>(op: &String, right: &Object<'a>) -> (r: Object<'a>)
    ensures
        r@ == prefix_value(op@, right@),
{
    if op_is(op, '!') {
        Object::Boolean(!is_truthy(right))
    } else if op_is(op, '-') {
        match right {
            Object::Integer(n) => int_result(0i64.checked_sub(*n)),
            _ => unknown_prefix(op, right.get_type()),
        }
    } else {
        unknown_prefix(op, right.get_type())
    }
}

/// Evaluates `e` in the current scope of `env`.
pub fn eval_expression<'a>(e: &'a Expression, env: &mut Environment<'a>, fuel: u64) -> (r: Object<
    'a,
>)
    requires
        old(env)@.wf(),
    ensures
        (r@, final(env)@) == eval_expr(fuel as nat, *e, old(env)@),
        final(env)@.wf(),
        final(env)@.scopes.len() >= old(env)@.scopes.len(),
        final(env)@.current == old(env)@.current,
    decreases fuel, 0int,
{
    if fuel == 0 {
        return depth_error();
    }
    let f = fuel - 1;
    match e {
        Expression::Identifier(i) => match env.get(i.value.as_str()) {
            Some(v) => v,
            None => {
                let mut m = text("identifier not found: ");
                push_str(&mut m, i.value.as_str());
                error_of(m)
            },
        },
        Expression::Integer(i) => Object::Integer(i.value),
        Expression::Float(_) => error_of(text("floating-point values are not supported")),
        Expression::Boolean(b) => Object::Boolean(b.value),
        Expression::Prefix(p) => {
            let v = eval_expression(&p.right, env, f);
            if signal(&v) {
                v
            } else {
                eval_prefix(&p.operator, &v)
            }
        },
        Expression::Infix(x) => {
            let l = eval_expression(&x.left, env, f);
            let r = eval_expression(&x.right, env, f);
            if signal(&l) {
                l
            } else if signal(&r) {
                r
            } else {
                eval_infix(&x.operator, &l, &r)
            }
        },
        Expression::If(x) => {
            let c = eval_expression(&x.condition, env, f);
            if signal(&c) {
                c
            } else if is_truthy(&c) {
                eval_statements(&x.consequence.statements, env, f)
            } else {
                match &x.alternative {
                    Some(a) => eval_statements(&a.statements, env, f),
                    None => Object::Null,
                }
            }
        },
        Expression::Function(lit) => Object::Function { literal: lit, env: env.current() },
        Expression::Call(c) => {
            let callee = eval_expression(&c.function, env, f);
            if signal(&callee) {
                return callee;
            }
            match eval_arguments(&c.arguments, env, f) {
                Err(v) => v,
                Ok(vs) => apply_function(&callee, vs, env, f),
            }
        },
    }
}

/// Evaluates the arguments of a call from left to right, stopping at the
/// first error or `return`.
pub fn eval_arguments<'a>(args: &'a Vec<Expression>, env: &mut Environment<'a>, fuel: u64) -> (r:
    Result<Vec<Object<'a>>, Object<'a>>)
    requires
        old(env)@.wf(),
    ensures
        final(env)@.wf(),
        final(env)@.scopes.len() >= old(env)@.scopes.len(),
        final(env)@.current == old(env)@.current,
        final(env)@ == eval_args(fuel as nat, args@, 0, old(env)@).1,
        match (r, eval_args(fuel as nat, args@, 0, old(env)@).0) {
            (Ok(vs), Ok(ws)) => vs@.map_values(|o: Object<'a>| o@) == ws,
            (Err(v), Err(w)) => v@ == w,
            _ => false,
        },
    decreases fuel, args@.len() + 1,
{
    if fuel == 0 {
        return Err(depth_error());
    }
    let ghost env0 = env@;
    let mut vals: Vec<Object<'a>> = Vec::new();
    let mut i: usize = 0;
    while i < args.len()
        invariant
            env@.wf(),
            env@.scopes.len() >= env0.scopes.len(),
            env@.current == env0.current,
            env0 == old(env)@,
            fuel > 0,
            i <= args@.len(),
            eval_args(fuel as nat, args@, 0, env0) == combine(
                vals@.map_values(|o: Object<'a>| o@),
                eval_args(fuel as nat, args@, i as int, env@),
            ),
        decreases args.len() - i,
    {
        let v = eval_expression(&args[i], env, fuel - 1);
        if signal(&v) {
            return Err(v);
        }
        let ghost before = vals@;
        let ghost vv = v@;
        vals.push(v);
        proof {
            assert(vals@.map_values(|o: Object<'a>| o@) =~= before.map_values(|o: Object<'a>| o@).push(
                vv,
            ));
            lemma_combine_step(before.map_values(|o: Object<'a>| o@), vv, eval_args(fuel as nat, args@, i + 1, env@));
        }
        i = i + 1;
    }
    proof {
        assert(vals@.map_values(|o: Object<'a>| o@) + Seq::<Value>::empty() =~= vals@.map_values(|o: Object<'a>| o@));
    }
    Ok(vals)
}

/// The result of a left-to-right evaluation whose first values were `acc`.
pub open spec fn combine(acc: Seq<Value>, rest: (Result<Seq<Value>, Value>, EnvView)) -> (Result<
    Seq<Value>,
    Value,
>, EnvView) {
    match rest.0 {
        Ok(vs) => (Ok(acc + vs), rest.1),
        Err(x) => (Err(x), rest.1),
    }
}

proof fn lemma_combine_step(acc: Seq<Value>, v: Value, rest: (Result<Seq<Value>, Value>, EnvView))
    ensures
        combine(acc, (
            match rest.0 {
                Ok(vs) => Ok(seq![v] + vs),
                Err(x) => Err(x),
            },
            rest.1,
        )) == combine(acc.push(v), rest),
{
    match rest.0 {
        Ok(vs) => {
            assert(acc + (seq![v] + vs) =~= acc.push(v) + vs);
        },
        Err(x) => {},
    }
}

/// Calls `callee` on `args`.
pub fn apply_function<'a>(
    callee: &Object<'a>,
    args: Vec<Object<'a>>,
    env: &mut Environment<'a>,
    fuel: u64,
) -> (r: Object<'a>)
    requires
        old(env)@.wf(),
    ensures
        (r@, final(env)@) == apply(
            fuel as nat,
            callee@,
            args@.map_values(|o: Object<'a>| o@),
            old(env)@,
        ),
        final(env)@.wf(),
        final(env)@.scopes.len() >= old(env)@.scopes.len(),
        final(env)@.current == old(env)@.current,
    decreases fuel, 0int,
{
    if fuel == 0 {
        return depth_error();
    }
    let ghost vals = args@.map_values(|o: Object<'a>| o@);
    match callee {
        Object::Function { literal, env: outer } => {
            let n = literal.parameters.len();
            if n != args.len() {
                let mut m = text("wrong number of arguments: expected ");
                let a = usize_to_string(n);
                push_str(&mut m, a.as_str());
                push_str(&mut m, ", got ");
                let b = usize_to_string(args.len());
                push_str(&mut m, b.as_str());
                return error_of(m);
            }
            if env.scope_count() >= usize::MAX - 1 {
                return error_of(text("too many scopes"));
            }
            let saved = env.current();
            let ghost env0 = env@;
            env.new_enclosed(*outer);
            let mut args = args;
            let mut i: usize = 0;
            let ghost inner = bind_params(env0.enclose(*outer as nat), literal.parameters@, vals, 0);
            while i < n
                invariant
                    n == literal.parameters@.len(),
                    n == args@.len(),
                    n == vals.len(),
                    i <= n,
                    env@.wf(),
                    env@.scopes.len() == env0.scopes.len() + 1,
                    env@.current == env0.scopes.len(),
                    inner == bind_params(env@, literal.parameters@, vals, i as int),
                    forall|k: int| i <= k < n ==> #[trigger] args@[k]@ == vals[k],
                decreases n - i,
            {
                let mut v = Object::Null;
                std::mem::swap(&mut v, &mut args[i]);
                env.set(literal.parameters[i].value.as_str(), v);
                i = i + 1;
            }
            let r = eval_statements(&literal.body.statements, env, fuel - 1);
            env.set_current(saved);
            match r {
                Object::ReturnValue(inner_value) => *inner_value,
                other => other,
            }
        },
        _ => {
            let mut m = text("not a function: ");
            let t = callee.get_type().name();
            push_str(&mut m, t.as_str());
            error_of(m)
        },
    }
}

/// Evaluates one statement in the current scope of `env`.
pub fn eval_statement<'a>(s: &'a Statement, env: &mut Environment<'a>, fuel: u64) -> (r: Object<
    'a,
>)
    requires
        old(env)@.wf(),
    ensures
        (r@, final(env)@) == eval_stmt(fuel as nat, *s, old(env)@),
        final(env)@.wf(),
        final(env)@.scopes.len() >= old(env)@.scopes.len(),
        final(env)@.current == old(env)@.current,
    decreases fuel, 0int,
{
    if fuel == 0 {
        return depth_error();
    }
    let f = fuel - 1;
    match s {
        Statement::Let(l) => {
            let v = eval_expression(&l.value, env, f);
            if signal(&v) {
                v
            } else {
                env.set(l.name.value.as_str(), v);
                Object::Null
            }
        },
        Statement::Return(r) => {
            let v = eval_expression(&r.return_value, env, f);
            if signal(&v) {
                v
            } else {
                Object::ReturnValue(Box::new(v))
            }
        },
        Statement::Expression(x) => eval_expression(&x.expression, env, f),
        Statement::Block(b) => eval_statements(&b.statements, env, f),
    }
}

/// Evaluates statements in order; stops at the first error or `return`,
/// which it hands back still wrapped.
pub fn eval_statements<'a>(stmts: &'a Vec<Statement>, env: &mut Environment<'a>, fuel: u64) -> (r:
    Object<'a>)
    requires
        old(env)@.wf(),
    ensures
        (r@, final(env)@) == eval_block(fuel as nat, stmts@, 0, old(env)@),
        final(env)@.wf(),
        final(env)@.scopes.len() >= old(env)@.scopes.len(),
        final(env)@.current == old(env)@.current,
    decreases fuel, stmts@.len() + 1,
{
    if fuel == 0 {
        return depth_error();
    }
    let n = stmts.len();
    if n == 0 {
        return Object::Null;
    }
    let ghost env0 = env@;
    let mut i: usize = 0;
    loop
        invariant
            env@.wf(),
            env@.scopes.len() >= env0.scopes.len(),
            env@.current == env0.current,
            env0 == old(env)@,
            fuel > 0,
            n == stmts@.len(),
            i < n,
            eval_block(fuel as nat, stmts@, 0, env0) == eval_block(
                fuel as nat,
                stmts@,
                i as int,
                env@,
            ),
        decreases n - i,
    {
        let v = eval_statement(&stmts[i], env, fuel - 1);
        if signal(&v) || i + 1 >= n {
            return v;
        }
        i = i + 1;
    }
}

impl Program {
    /// Evaluates the program in the current scope of `env`: statements in
    /// order, stopping at the first error; a `return` ends the program with
    /// the value it carries.
    pub fn eval<'a>(&'a self, env: &mut Environment<'a>) -> (r: Object<'a>)
        requires
            old(env)@.wf(),
        ensures
            (r@, final(env)@) == eval_program(MAX_DEPTH as nat, *self, old(env)@),
            final(env)@.wf(),
    {
        let r = eval_statements(&self.statements, env, MAX_DEPTH);
        match r {
            Object::ReturnValue(inner) => *inner,
            other => other,
        }
    }
}

/// Evaluates `program` in a fresh global scope.
pub fn eval<'a>(program: &'a Program) -> (r: Object<'a>)
    ensures
        r@ == eval_program(
            MAX_DEPTH as nat,
            *program,
            EnvView { scopes: seq![crate::environment::ScopeView { store: Seq::empty(), outer: None }], current: 0 },
        ).0,
{
    let mut env = Environment::new();
    program.eval(&mut env)
}

} // verus!
