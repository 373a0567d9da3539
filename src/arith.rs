use vstd::prelude::*;
use crate::value::{Value, Val, view_opt};
use crate::parser::{Transform, digit_of, digit_value, is_digit_run};

verus! {

/// Transforms for arithmetic grammars.
pub enum Arith {
    /// Reads matched text as a number in the given radix; rejects text that
    /// is not a run of such digits, and numbers above `u32::MAX`.
    Number(u32),
    /// Adds the operands of `(left, (operator, right))`; rejects overflow.
    Sum,
    /// Multiplies the operands of `(left, (operator, right))`; rejects overflow.
    Product,
}

/// The number that the digits `t` write in radix `radix`.
pub open spec fn text_value(t: Seq<char>, radix: u32) -> nat
    decreases t.len(),
{
    if t.len() == 0 {
        0
    } else {
        (text_value(t.drop_last(), radix) * radix + digit_value(t.last())) as nat
    }
}

/// The two operands of `(left, (operator, right))`, where both are numbers.
pub open spec fn operands(v: Val) -> Option<(u32, u32)> {
    match v {
        Val::Pair(l, r) => match (*l, *r) {
            (Val::Num(x), Val::Pair(_, r2)) => match *r2 {
                Val::Num(y) => Some((x, y)),
                _ => None,
            },
            _ => None,
        },
        _ => None,
    }
}

/// `n` as a number value, where it fits in a `u32`.
pub open spec fn num_if_fits(n: int) -> Option<Val> {
    if 0 <= n <= u32::MAX {
        Some(Val::Num(n as u32))
    } else {
        None
    }
}

/// A prefix of a run of digits never writes a larger number than the run.
proof fn lemma_prefix_value(t: Seq<char>, radix: u32, k: int)
    requires
        0 <= k <= t.len(),
        radix >= 1,
    ensures
        text_value(t.subrange(0, k), radix) <= text_value(t, radix),
    decreases t.len(),
{
    if k < t.len() {
        let s = t.drop_last();
        lemma_prefix_value(s, radix, k);
        assert(s.subrange(0, k) =~= t.subrange(0, k));
        let v = text_value(s, radix);
        assert(v * radix >= v) by (nonlinear_arith)
            requires
                radix >= 1,
        ;
    } else {
        assert(t.subrange(0, k) =~= t);
    }
}

/// The number the characters of `t` write in `radix`, where they are a run of
/// digits of that radix and the number fits in a `u32`.
fn read_number(t: &Vec<char>, radix: u32) -> (r: Option<Value>)
    ensures
        view_opt(r) == (if is_digit_run(t@, radix) {
            num_if_fits(text_value(t@, radix) as int)
        } else {
            None
        }),
{
    if t.len() == 0 {
        return None;
    }
    let mut acc: u64 = 0;
    let mut k: usize = 0;
    while k < t.len()
        invariant
            k <= t.len(),
            acc <= u32::MAX,
            acc == text_value(t@.subrange(0, k as int), radix),
            forall|j: int| 0 <= j < k ==> #[trigger] digit_value(t@[j]) < radix,
        decreases t.len() - k,
    {
        let d = digit_of(t[k]);
        if d >= radix {
            return None;
        }
        let ghost pre = t@.subrange(0, k as int);
        assert(t@.subrange(0, k + 1).drop_last() =~= pre);
        assert(acc * (radix as u64) <= u32::MAX as u64 * u32::MAX as u64) by (nonlinear_arith)
            requires
                acc <= u32::MAX,
                radix <= u32::MAX,
        ;
        let next = acc * (radix as u64) + (d as u64);
        k = k + 1;
        if next > u32::MAX as u64 {
            proof {
                lemma_prefix_value(t@, radix, k as int);
            }
            return None;
        }
        acc = next;
    }
    assert(t@.subrange(0, t.len() as int) =~= t@);
    Some(Value::Num(acc as u32))
}

/// The operands of a value shaped `(left, (operator, right))`.
fn take_operands(v: Value) -> (r: Option<(u32, u32)>)
    ensures
        r == operands(v@),
{
    proof {
        reveal_with_fuel(crate::value::model, 3);
    }
    match v {
        Value::Pair(l, rest) => match (*l, *rest) {
            (Value::Num(x), Value::Pair(_, r2)) => match *r2 {
                Value::Num(y) => Some((x, y)),
                _ => None,
            },
            _ => None,
        },
        _ => None,
    }
}

impl Transform for Arith {
    open spec fn spec_apply(&self, v: Val) -> Option<Val> {
        match *self {
            Arith::Number(radix) => match v {
                Val::Text(t) => if is_digit_run(t, radix) {
                    num_if_fits(text_value(t, radix) as int)
                } else {
                    None
                },
                _ => None,
            },
            Arith::Sum => match operands(v) {
                Some((x, y)) => num_if_fits(x + y),
                None => None,
            },
            Arith::Product => match operands(v) {
                Some((x, y)) => num_if_fits(x * y),
                None => None,
            },
        }
    }

    fn apply(&self, v: Value) -> (r: Option<Value>) {
        match self {
            Arith::Number(radix) => match v {
                Value::Text(t) => read_number(&t, *radix),
                _ => None,
            },
            Arith::Sum => match take_operands(v) {
                Some((x, y)) => {
                    if (x as u64) + (y as u64) <= u32::MAX as u64 {
                        Some(Value::Num(x + y))
                    } else {
                        None
                    }
                },
                None => None,
            },
            Arith::Product => match take_operands(v) {
                Some((x, y)) => {
                    assert((x as u64) * (y as u64) <= u32::MAX as u64 * u32::MAX as u64)
                        by (nonlinear_arith);
                    if (x as u64) * (y as u64) <= u32::MAX as u64 {
                        Some(Value::Num(x * y))
                    } else {
                        None
                    }
                },
                None => None,
            },
        }
    }
}

} // verus!
