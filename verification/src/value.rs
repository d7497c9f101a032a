//! Runtime values: the results of evaluating expressions. A float value
//! carries its literal's bytes; no operator of the language combines floats,
//! so nothing beyond the text is ever computed from one.

use vstd::prelude::*;

verus! {

/// The result of evaluating an expression; `Nil` is the absence of a
/// value, as a `let` or the empty form leaves behind.
#[derive(Debug)]
pub enum Value {
    Int(i64),
    Float(Vec<u8>),
    Bool(bool),
    Nil,
}

/// The mathematical model of a value.
pub enum ValueV {
    Int(i64),
    Float(Seq<u8>),
    Bool(bool),
    Nil,
}

impl View for Value {
    type V = ValueV;

    open spec fn view(&self) -> ValueV {
        match self {
            Value::Int(i) => ValueV::Int(*i),
            Value::Float(t) => ValueV::Float(t@),
            Value::Bool(b) => ValueV::Bool(*b),
            Value::Nil => ValueV::Nil,
        }
    }
}

impl Clone for Value {
    fn clone(&self) -> (r: Self)
        ensures
            r@ == self@,
    {
        match self {
            Value::Int(i) => Value::Int(*i),
            Value::Float(t) => Value::Float(vstd::slice::slice_to_vec(t.as_slice())),
            Value::Bool(b) => Value::Bool(*b),
            Value::Nil => Value::Nil,
        }
    }
}

} // verus!
