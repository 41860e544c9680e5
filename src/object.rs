use vstd::prelude::*;

use crate::ast::FunctionLiteral;
use crate::token::owned;

verus! {

/// The runtime type of a value, as named in error messages.
#[derive(Debug, Clone, Copy, PartialEq, Eq, Structural)]
pub enum ObjectType {
    Integer,
    Boolean,
    Null,
    ReturnValue,
    Error,
    Function,
}

/// The upper-case name of a runtime type.
pub open spec fn kind_label(t: ObjectType) -> Seq<char> {
    match t {
        ObjectType::Integer => seq!['I', 'N', 'T', 'E', 'G', 'E', 'R'],
        ObjectType::Boolean => seq!['B', 'O', 'O', 'L', 'E', 'A', 'N'],
        ObjectType::Null => seq!['N', 'U', 'L', 'L'],
        ObjectType::ReturnValue => seq!['R', 'E', 'T', 'U', 'R', 'N', '_', 'V', 'A', 'L', 'U', 'E'],
        ObjectType::Error => seq!['E', 'R', 'R', 'O', 'R'],
        ObjectType::Function => seq!['F', 'U', 'N', 'C', 'T', 'I', 'O', 'N'],
    }
}

impl ObjectType {
    /// The upper-case name of this type.
    pub fn name(&self) -> (r: String)
        ensures
            r@ == kind_label(*self),
    {
        proof {
            reveal_strlit("INTEGER");
            reveal_strlit("BOOLEAN");
            reveal_strlit("NULL");
            reveal_strlit("RETURN_VALUE");
            reveal_strlit("ERROR");
            reveal_strlit("FUNCTION");
        }
        match self {
            ObjectType::Integer => owned("INTEGER"),
            ObjectType::Boolean => owned("BOOLEAN"),
            ObjectType::Null => owned("NULL"),
            ObjectType::ReturnValue => owned("RETURN_VALUE"),
            ObjectType::Error => owned("ERROR"),
            ObjectType::Function => owned("FUNCTION"),
        }
    }
}

/// A runtime value, as the evaluator's contracts speak of it.
pub enum Value {
    Int(i64),
    Bool(bool),
    Null,
    Return(Box<Value>),
    Error(Seq<char>),
    /// A function literal and the index of the scope it was defined in.
    Closure(FunctionLiteral, nat),
}

/// The runtime type of a value.
pub open spec fn value_type(v: Value) -> ObjectType {
    match v {
        Value::Int(_) => ObjectType::Integer,
        Value::Bool(_) => ObjectType::Boolean,
        Value::Null => ObjectType::Null,
        Value::Return(_) => ObjectType::ReturnValue,
        Value::Error(_) => ObjectType::Error,
        Value::Closure(..) => ObjectType::Function,
    }
}

/// A runtime value. A function value borrows its literal from the program
/// being evaluated and names the scope it closes over by index.
#[derive(Debug, PartialEq)]
pub enum Object<'a> {
    Integer(i64),
    Boolean(bool),
    Null,
    ReturnValue(Box<Object<'a>>),
    Error(String),
    Function { literal: &'a FunctionLiteral, env: usize },
}

pub open spec fn object_value<'a>(o: Object<'a>) -> Value
    decreases o,
{
    match o {
        Object::Integer(n) => Value::Int(n),
        Object::Boolean(b) => Value::Bool(b),
        Object::Null => Value::Null,
        Object::ReturnValue(b) => Value::Return(Box::new(object_value(*b))),
        Object::Error(m) => Value::Error(m@),
        Object::Function { literal, env } => Value::Closure(*literal, env as nat),
    }
}

impl<'a> View for Object<'a> {
    type V = Value;

    open spec fn view(&self) -> Value {
        object_value(*self)
    }
}

/// Decimal digits of a natural number.
pub open spec fn decimal(n: nat) -> Seq<char>
    decreases n,
{
    if n < 10 {
        seq![digit_char(n)]
    } else {
        decimal(n / 10) + seq![digit_char(n % 10)]
    }
}

pub open spec fn digit_char(d: nat) -> char {
    if d == 0 {
        '0'
    } else if d == 1 {
        '1'
    } else if d == 2 {
        '2'
    } else if d == 3 {
        '3'
    } else if d == 4 {
        '4'
    } else if d == 5 {
        '5'
    } else if d == 6 {
        '6'
    } else if d == 7 {
        '7'
    } else if d == 8 {
        '8'
    } else {
        '9'
    }
}

/// Decimal text of an integer, with a leading `-` when negative.
pub open spec fn signed_decimal(n: int) -> Seq<char> {
    if n < 0 {
        seq!['-'] + decimal((-n) as nat)
    } else {
        decimal(n as nat)
    }
}

/// Relies on the `Display` impl of `i64`: decimal digits, `-` first when negative.
#[verifier::external_body]
pub(crate) fn i64_to_string(n: i64) -> (r: String)
    ensures
        r@ == signed_decimal(n as int),
{
    n.to_string()
}

/// Relies on the `Display` impl of `usize`: decimal digits.
#[verifier::external_body]
pub(crate) fn usize_to_string(n: usize) -> (r: String)
    ensures
        r@ == decimal(n as nat),
{
    n.to_string()
}

/// The text shown for a value.
pub open spec fn value_text(v: Value) -> Seq<char>
    decreases v,
{
    match v {
        Value::Int(n) => signed_decimal(n as int),
        Value::Bool(b) => if b {
            seq!['t', 'r', 'u', 'e']
        } else {
            seq!['f', 'a', 'l', 's', 'e']
        },
        Value::Null => seq!['n', 'u', 'l', 'l'],
        Value::Return(inner) => value_text(*inner),
        Value::Error(m) => m,
        Value::Closure(..) => seq!['f', 'n'],
    }
}

impl<'a> Object<'a> {
    /// The runtime type of this value.
    pub fn get_type(&self) -> (r: ObjectType)
        ensures
            r == value_type(self@),
    {
        match self {
            Object::Integer(_) => ObjectType::Integer,
            Object::Boolean(_) => ObjectType::Boolean,
            Object::Null => ObjectType::Null,
            Object::ReturnValue(_) => ObjectType::ReturnValue,
            Object::Error(_) => ObjectType::Error,
            Object::Function { .. } => ObjectType::Function,
        }
    }

    /// A copy of this value; a function value keeps borrowing the same literal.
    pub fn copy(&self) -> (r: Object<'a>)
        ensures
            r@ == self@,
        decreases self,
    {
        match self {
            Object::Integer(n) => Object::Integer(*n),
            Object::Boolean(b) => Object::Boolean(*b),
            Object::Null => Object::Null,
            Object::ReturnValue(inner) => Object::ReturnValue(Box::new(inner.copy())),
            Object::Error(m) => Object::Error(m.clone()),
            Object::Function { literal, env } => Object::Function { literal: *literal, env: *env },
        }
    }

    /// The text shown for this value: decimal integers, `true`/`false`,
    /// `null`, an error's message, the wrapped value of a return.
    pub fn to_string(&self) -> (r: String)
        ensures
            r@ == value_text(self@),
        decreases self,
    {
        proof {
            reveal_strlit("true");
            reveal_strlit("false");
            reveal_strlit("null");
            reveal_strlit("fn");
        }
        match self {
            Object::Integer(n) => i64_to_string(*n),
            Object::Boolean(b) => if *b {
                owned("true")
            } else {
                owned("false")
            },
            Object::Null => owned("null"),
            Object::ReturnValue(inner) => inner.to_string(),
            Object::Error(m) => m.clone(),
            Object::Function { .. } => owned("fn"),
        }
    }
}

} // verus!
