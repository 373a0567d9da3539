use vstd::prelude::*;

verus! {

/// What a parser hands back: the text it matched, a number, or a pair.
#[derive(Debug, PartialEq, Eq)]
pub enum Value {
    Text(Vec<char>),
    Num(u32),
    Pair(Box<Value>, Box<Value>),
}

/// The mathematical model of a `Value`.
pub enum Val {
    Text(Seq<char>),
    Num(u32),
    Pair(Box<Val>, Box<Val>),
}

/// The model of a value, component by component.
pub open spec fn model(v: Value) -> Val
    decreases v,
{
    match v {
        Value::Text(t) => Val::Text(t@),
        Value::Num(n) => Val::Num(n),
        Value::Pair(a, b) => Val::Pair(Box::new(model(*a)), Box::new(model(*b))),
    }
}

impl View for Value {
    type V = Val;

    open spec fn view(&self) -> Val {
        model(*self)
    }
}

/// The model of an optional value.
pub open spec fn view_opt(r: Option<Value>) -> Option<Val> {
    match r {
        Some(v) => Some(v@),
        None => None,
    }
}

} // verus!
