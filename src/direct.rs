use vstd::prelude::*;
use crate::value::Val;
use crate::parser::{Parser, Transform, eval_in, scan, fix, self_env, size, is_digit_run};

verus! {

/// Direct evaluation of `p` on `x`, where `SelfRef` re-enters the fractal
/// with body `me` on the same text, with at most `k` fractal entries along any
/// path: `None` where that is not enough, else the outcome. Alternatives and
/// the parts of a sequence run left to right, and a part runs only where the
/// one before it matched, as the executable code does.
pub open spec fn direct<T: Transform>(p: Parser<T>, me: Parser<T>, x: Seq<char>, k: nat) -> Option<
    Option<Val>,
>
    decreases k, size(p), 0int,
{
    match p {
        Parser::Literal(s) => Some(
            if x == s@ {
                Some(Val::Text(x))
            } else {
                None
            },
        ),
        Parser::Digits(radix) => Some(
            if is_digit_run(x, radix) {
                Some(Val::Text(x))
            } else {
                None
            },
        ),
        Parser::Alt2(a, b) => match direct(*a, me, x, k) {
            Some(None) => direct(*b, me, x, k),
            other => other,
        },
        Parser::Seq2(a, b) => direct_scan(*a, *b, me, x, x.len() as int, k),
        Parser::Post(a, t) => match direct(*a, me, x, k) {
            Some(Some(v)) => Some(t.spec_apply(v)),
            other => other,
        },
        Parser::Fractal(f) => if k == 0 {
            None
        } else {
            direct(f.inner(), f.inner(), x, (k - 1) as nat)
        },
        Parser::SelfRef => if k == 0 {
            None
        } else {
            direct(me, me, x, (k - 1) as nat)
        },
    }
}

/// Direct evaluation of a sequence, from cut point `i` downwards.
pub open spec fn direct_scan<T: Transform>(
    a: Parser<T>,
    b: Parser<T>,
    me: Parser<T>,
    x: Seq<char>,
    i: int,
    k: nat,
) -> Option<Option<Val>>
    decreases k, size(a) + size(b), i + 1,
{
    if i < 0 || i > x.len() {
        Some(None)
    } else {
        match direct(a, me, x.subrange(0, i), k) {
            None => None,
            Some(None) => direct_scan(a, b, me, x, i - 1, k),
            Some(Some(u)) => match direct(b, me, x.subrange(i, x.len() as int), k) {
                None => None,
                Some(None) => direct_scan(a, b, me, x, i - 1, k),
                Some(Some(v)) => Some(Some(Val::Pair(Box::new(u), Box::new(v)))),
            },
        }
    }
}

/// More entries never change an outcome that fewer entries reached.
proof fn lemma_more_fuel<T: Transform>(p: Parser<T>, me: Parser<T>, x: Seq<char>, k: nat, m: nat)
    requires
        k <= m,
        direct(p, me, x, k) is Some,
    ensures
        direct(p, me, x, m) == direct(p, me, x, k),
    decreases k, size(p), 0int,
{
    match p {
        Parser::Alt2(a, b) => {
            lemma_more_fuel(*a, me, x, k, m);
            if direct(*a, me, x, k) == Some(None::<Val>) {
                lemma_more_fuel(*b, me, x, k, m);
            }
        },
        Parser::Seq2(a, b) => {
            lemma_more_fuel_scan(*a, *b, me, x, x.len() as int, k, m);
        },
        Parser::Post(a, _) => {
            lemma_more_fuel(*a, me, x, k, m);
        },
        Parser::Fractal(f) => {
            lemma_more_fuel(f.inner(), f.inner(), x, (k - 1) as nat, (m - 1) as nat);
        },
        Parser::SelfRef => {
            lemma_more_fuel(me, me, x, (k - 1) as nat, (m - 1) as nat);
        },
        _ => {},
    }
}

proof fn lemma_more_fuel_scan<T: Transform>(
    a: Parser<T>,
    b: Parser<T>,
    me: Parser<T>,
    x: Seq<char>,
    i: int,
    k: nat,
    m: nat,
)
    requires
        k <= m,
        direct_scan(a, b, me, x, i, k) is Some,
    ensures
        direct_scan(a, b, me, x, i, m) == direct_scan(a, b, me, x, i, k),
    decreases k, size(a) + size(b), i + 1,
{
    if 0 <= i <= x.len() {
        lemma_more_fuel(a, me, x.subrange(0, i), k, m);
        if direct(a, me, x.subrange(0, i), k) is Some && direct(a, me, x.subrange(0, i), k)->0 is Some {
            lemma_more_fuel(b, me, x.subrange(i, x.len() as int), k, m);
        }
        if direct_scan(a, b, me, x, i - 1, k) is Some {
            lemma_more_fuel_scan(a, b, me, x, i - 1, k, m);
        }
    }
}

/// The least number of entries with which the fractal with body `g` reaches
/// an outcome on `x`, searching upwards from `j`.
proof fn lemma_least_fuel<T: Transform>(g: Parser<T>, x: Seq<char>, k: nat, j: nat) -> (least: nat)
    requires
        j <= k,
        direct(g, g, x, k) is Some,
        forall|i: nat| i < j ==> (#[trigger] direct(g, g, x, i)) is None,
    ensures
        least <= k,
        direct(g, g, x, least) is Some,
        forall|i: nat| i < least ==> (#[trigger] direct(g, g, x, i)) is None,
    decreases k - j,
{
    if direct(g, g, x, j) is Some {
        j
    } else {
        lemma_least_fuel(g, x, k, j + 1)
    }
}

/// Where a fractal's direct evaluation on `x` returns, the fractal yields the
/// same.
proof fn lemma_fix_agrees<T: Transform>(g: Parser<T>, x: Seq<char>, k: nat)
    requires
        direct(g, g, x, k) is Some,
    ensures
        fix(g, x) == direct(g, g, x, k)->0,
    decreases k, 1int, 0int, 0int,
{
    let least = lemma_least_fuel(g, x, k, 0);
    lemma_more_fuel(g, g, x, least, k);
    lemma_body_agrees(g, g, x, x, least, least);
}

/// Inside the evaluation of the fractal with body `g` on `x0`, with `least`
/// the fewest entries that fractal needs there: a node on a part `x` of `x0`
/// that returns with `k <= least` entries yields what the curtailed meaning
/// gives.
proof fn lemma_body_agrees<T: Transform>(
    p: Parser<T>,
    g: Parser<T>,
    x0: Seq<char>,
    x: Seq<char>,
    k: nat,
    least: nat,
)
    requires
        k <= least,
        forall|i: nat| i < least ==> (#[trigger] direct(g, g, x0, i)) is None,
        x.len() <= x0.len(),
        x.len() == x0.len() ==> x == x0,
        direct(p, g, x, k) is Some,
    ensures
        eval_in(p, self_env(g, x0.len() as int), x) == direct(p, g, x, k)->0,
    decreases k, 0int, size(p), 0int,
{
    match p {
        Parser::Alt2(a, b) => {
            lemma_body_agrees(*a, g, x0, x, k, least);
            if direct(*a, g, x, k) == Some(None::<Val>) {
                lemma_body_agrees(*b, g, x0, x, k, least);
            }
        },
        Parser::Seq2(a, b) => {
            lemma_scan_agrees(*a, *b, g, x0, x, x.len() as int, k, least);
        },
        Parser::Post(a, _) => {
            lemma_body_agrees(*a, g, x0, x, k, least);
        },
        Parser::Fractal(f) => {
            lemma_fix_agrees(f.inner(), x, (k - 1) as nat);
        },
        Parser::SelfRef => {
            if x.len() < x0.len() {
                lemma_fix_agrees(g, x, (k - 1) as nat);
            } else {
                assert(direct(g, g, x0, (k - 1) as nat) is None);
            }
        },
        _ => {},
    }
}

proof fn lemma_scan_agrees<T: Transform>(
    a: Parser<T>,
    b: Parser<T>,
    g: Parser<T>,
    x0: Seq<char>,
    x: Seq<char>,
    i: int,
    k: nat,
    least: nat,
)
    requires
        k <= least,
        forall|j: nat| j < least ==> (#[trigger] direct(g, g, x0, j)) is None,
        x.len() <= x0.len(),
        x.len() == x0.len() ==> x == x0,
        i <= x.len(),
        direct_scan(a, b, g, x, i, k) is Some,
    ensures
        scan(a, b, self_env(g, x0.len() as int), x, i) == direct_scan(a, b, g, x, i, k)->0,
    decreases k, 0int, size(a) + size(b), i + 1,
{
    if 0 <= i {
        let l = x.subrange(0, i);
        let r = x.subrange(i, x.len() as int);
        if l.len() == x0.len() {
            assert(l =~= x);
        }
        if r.len() == x0.len() {
            assert(r =~= x);
        }
        lemma_body_agrees(a, g, x0, l, k, least);
        if direct(a, g, l, k)->0 is Some {
            lemma_body_agrees(b, g, x0, r, k, least);
        }
        if direct_scan(a, b, g, x, i - 1, k) is Some {
            lemma_scan_agrees(a, b, g, x0, x, i - 1, k, least);
        }
    }
}

/// Where direct evaluation of a fractal, re-entering it at each `SelfRef`,
/// returns on `x`, the fractal yields the same: failing a `SelfRef` call on
/// text that is not shorter only replaces evaluations that never return.
pub proof fn law_fractal_agrees_with_direct<T: Transform>(g: Parser<T>, x: Seq<char>, k: nat)
    requires
        direct(g, g, x, k) is Some,
    ensures
        fix(g, x) == direct(g, g, x, k)->0,
{
    lemma_fix_agrees(g, x, k);
}

} // verus!
