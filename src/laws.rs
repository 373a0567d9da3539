use vstd::prelude::*;
use crate::value::Val;
use crate::parser::{Parser, Transform, FractalParser, eval_in, scan, fix, self_env, digit_value, is_digit_run};

verus! {

/// The environment that gives `f` on text shorter than `n`, and failure on
/// anything else.
pub open spec fn below(f: spec_fn(Seq<char>) -> Option<Val>, n: int) -> spec_fn(Seq<char>) -> Option<Val> {
    |y: Seq<char>|
        if y.len() < n {
            f(y)
        } else {
            None
        }
}

/// Whether `a` on `x[..i]` and `b` on `x[i..]` both match.
pub open spec fn splits_at<T: Transform>(
    a: Parser<T>,
    b: Parser<T>,
    env: spec_fn(Seq<char>) -> Option<Val>,
    x: Seq<char>,
    i: int,
) -> bool {
    &&& 0 <= i <= x.len()
    &&& eval_in(a, env, x.subrange(0, i)) is Some
    &&& eval_in(b, env, x.subrange(i, x.len() as int)) is Some
}

/// A literal matches a text exactly when the text is the literal, and then
/// yields that text.
pub proof fn law_literal<T: Transform>(s: Vec<char>, env: spec_fn(Seq<char>) -> Option<Val>, t: Seq<char>)
    ensures
        eval_in(Parser::<T>::Literal(s), env, t) is Some <==> t == s@,
        t == s@ ==> eval_in(Parser::<T>::Literal(s), env, t) == Some(Val::Text(t)),
{
}

/// Decimal digits match a text exactly when it is non-empty and every
/// character of it lies in `'0'..='9'`, and then yield that text.
pub proof fn law_decimal_digits<T: Transform>(env: spec_fn(Seq<char>) -> Option<Val>, t: Seq<char>)
    ensures
        eval_in(Parser::<T>::Digits(10), env, t) is Some <==> (t.len() > 0 && forall|i: int|
            0 <= i < t.len() ==> '0' <= #[trigger] t[i] <= '9'),
        eval_in(Parser::<T>::Digits(10), env, t) is Some ==> eval_in(
            Parser::<T>::Digits(10),
            env,
            t,
        ) == Some(Val::Text(t)),
{
    assert forall|c: char| #[trigger] digit_value(c) < 10 <==> '0' <= c <= '9' by {
        assert(('0' as u32) == 48);
        assert(('9' as u32) == 57);
        assert('0' <= c <==> 48 <= (c as int));
        assert(c <= '9' <==> (c as int) <= 57);
    }
    if forall|i: int| 0 <= i < t.len() ==> '0' <= #[trigger] t[i] <= '9' {
        assert forall|i: int| 0 <= i < t.len() implies #[trigger] digit_value(t[i]) < 10 by {
            assert('0' <= t[i] <= '9');
        }
    }
    if is_digit_run(t, 10) {
        assert forall|i: int| 0 <= i < t.len() implies '0' <= #[trigger] t[i] <= '9' by {
            assert(digit_value(t[i]) < 10);
        }
    }
}

/// Ordered choice keeps the first alternative's result wherever it matches,
/// and tries the second only where the first fails.
pub proof fn law_alt2_ordering<T: Transform>(
    a: Parser<T>,
    b: Parser<T>,
    env: spec_fn(Seq<char>) -> Option<Val>,
    x: Seq<char>,
)
    ensures
        eval_in(a, env, x) is Some ==> eval_in(Parser::Alt2(Box::new(a), Box::new(b)), env, x)
            == eval_in(a, env, x),
        eval_in(a, env, x) is None ==> eval_in(Parser::Alt2(Box::new(a), Box::new(b)), env, x)
            == eval_in(b, env, x),
{
}

/// The scan from cut point `i` downwards finds the largest working cut at
/// most `i`, and finds one whenever there is one.
proof fn lemma_scan<T: Transform>(
    a: Parser<T>,
    b: Parser<T>,
    env: spec_fn(Seq<char>) -> Option<Val>,
    x: Seq<char>,
    i: int,
)
    requires
        i <= x.len(),
    ensures
        (exists|k: int| k <= i && #[trigger] splits_at(a, b, env, x, k)) ==> scan(a, b, env, x, i) is Some,
        scan(a, b, env, x, i) is Some ==> exists|k: int|
            k <= i && #[trigger] splits_at(a, b, env, x, k) && scan(a, b, env, x, i) == Some(
                Val::Pair(
                    Box::new(eval_in(a, env, x.subrange(0, k))->0),
                    Box::new(eval_in(b, env, x.subrange(k, x.len() as int))->0),
                ),
            ) && forall|m: int| k < m <= i ==> !#[trigger] splits_at(a, b, env, x, m),
    decreases i + 1,
{
    if i >= 0 {
        lemma_scan(a, b, env, x, i - 1);
        if splits_at(a, b, env, x, i) {
            assert(forall|m: int| i < m <= i ==> !#[trigger] splits_at(a, b, env, x, m));
        } else {
            if exists|k: int| k <= i && #[trigger] splits_at(a, b, env, x, k) {
                let k = choose|k: int| k <= i && #[trigger] splits_at(a, b, env, x, k);
                assert(k <= i - 1);
            }
            if scan(a, b, env, x, i) is Some {
                let k = choose|k: int|
                    k <= i - 1 && #[trigger] splits_at(a, b, env, x, k) && scan(a, b, env, x, i - 1) == Some(
                        Val::Pair(
                            Box::new(eval_in(a, env, x.subrange(0, k))->0),
                            Box::new(eval_in(b, env, x.subrange(k, x.len() as int))->0),
                        ),
                    ) && forall|m: int| k < m <= i - 1 ==> !#[trigger] splits_at(a, b, env, x, m);
                assert(forall|m: int| k < m <= i ==> !#[trigger] splits_at(a, b, env, x, m));
            }
        }
    } else {
        assert(forall|k: int| k <= i ==> !#[trigger] splits_at(a, b, env, x, k));
    }
}

/// A sequence's result splits back into its parts: where `Seq2(a, b)` yields
/// `(u, v)` on `x`, some cut `i` has `a` yield `u` on `x[..i]` and `b` yield `v`
/// on `x[i..]`, and no larger cut has both parts match. Where some cut has
/// both parts match, the sequence matches.
pub proof fn law_seq2_round_trip<T: Transform>(
    a: Parser<T>,
    b: Parser<T>,
    env: spec_fn(Seq<char>) -> Option<Val>,
    x: Seq<char>,
    u: Val,
    v: Val,
)
    ensures
        eval_in(Parser::Seq2(Box::new(a), Box::new(b)), env, x) == Some(
            Val::Pair(Box::new(u), Box::new(v)),
        ) ==> exists|i: int|
            0 <= i <= x.len() && #[trigger] eval_in(a, env, x.subrange(0, i)) == Some(u) && eval_in(
                b,
                env,
                x.subrange(i, x.len() as int),
            ) == Some(v) && forall|m: int| i < m <= x.len() ==> !#[trigger] splits_at(a, b, env, x, m),
        (exists|i: int| #[trigger] splits_at(a, b, env, x, i)) ==> eval_in(
            Parser::Seq2(Box::new(a), Box::new(b)),
            env,
            x,
        ) is Some,
{
    lemma_scan(a, b, env, x, x.len() as int);
    if exists|i: int| #[trigger] splits_at(a, b, env, x, i) {
        let i = choose|i: int| #[trigger] splits_at(a, b, env, x, i);
        assert(i <= x.len() as int);
    }
    if eval_in(Parser::Seq2(Box::new(a), Box::new(b)), env, x) == Some(
        Val::Pair(Box::new(u), Box::new(v)),
    ) {
        let k = choose|k: int|
            k <= x.len() && #[trigger] splits_at(a, b, env, x, k) && scan(a, b, env, x, x.len() as int) == Some(
                Val::Pair(
                    Box::new(eval_in(a, env, x.subrange(0, k))->0),
                    Box::new(eval_in(b, env, x.subrange(k, x.len() as int))->0),
                ),
            ) && forall|m: int| k < m <= x.len() ==> !#[trigger] splits_at(a, b, env, x, m);
        assert(eval_in(a, env, x.subrange(0, k)) == Some(u));
    }
}

/// A transformed parser matches exactly where the parser matches with some
/// value that the transform accepts, and yields what the transform makes of it.
pub proof fn law_post_propagation<T: Transform>(
    p: Parser<T>,
    t: T,
    env: spec_fn(Seq<char>) -> Option<Val>,
    x: Seq<char>,
)
    ensures
        eval_in(Parser::Post(Box::new(p), t), env, x) is Some <==> exists|v: Val|
            eval_in(p, env, x) == Some(v) && (#[trigger] t.spec_apply(v)) is Some,
        eval_in(p, env, x) is Some ==> eval_in(Parser::Post(Box::new(p), t), env, x)
            == t.spec_apply(eval_in(p, env, x)->0),
        eval_in(p, env, x) is None ==> eval_in(Parser::Post(Box::new(p), t), env, x) is None,
{
    if eval_in(p, env, x) is Some {
        let v = eval_in(p, env, x)->0;
        assert(t.spec_apply(v) == t.spec_apply(v));
    }
}

/// Where `f` meets the equation of the body `g` (on each text, `f` is the
/// body with `SelfRef` read as `f` on shorter text), `f` is the fractal.
proof fn lemma_fixed_point_unique<T: Transform>(
    g: Parser<T>,
    f: spec_fn(Seq<char>) -> Option<Val>,
    x: Seq<char>,
)
    requires
        forall|y: Seq<char>| #[trigger] f(y) == eval_in(g, below(f, y.len() as int), y),
    ensures
        f(x) == fix(g, x),
    decreases x.len(),
{
    assert forall|y: Seq<char>| #[trigger] below(f, x.len() as int)(y) == self_env(g, x.len() as int)(y) by {
        if y.len() < x.len() {
            lemma_fixed_point_unique(g, f, y);
        }
    }
    assert(below(f, x.len() as int) =~= self_env(g, x.len() as int));
}

/// A fractal is the fixed point of its body: on every text it yields what the
/// body yields with `SelfRef` read as the fractal itself on shorter text, and
/// any function with that property is the fractal.
pub proof fn law_fractal_transparency<T: Transform>(
    fp: FractalParser<T>,
    env: spec_fn(Seq<char>) -> Option<Val>,
    x: Seq<char>,
    f: spec_fn(Seq<char>) -> Option<Val>,
)
    ensures
        eval_in(Parser::Fractal(Box::new(fp)), env, x) == fix(fp.inner(), x),
        fix(fp.inner(), x) == eval_in(
            fp.inner(),
            below(|y: Seq<char>| fix(fp.inner(), y), x.len() as int),
            x,
        ),
        (forall|y: Seq<char>| #[trigger] f(y) == eval_in(fp.inner(), below(f, y.len() as int), y))
            ==> f(x) == fix(fp.inner(), x),
{
    let g = fp.inner();
    assert(below(|y: Seq<char>| fix(g, y), x.len() as int) =~= self_env(g, x.len() as int));
    if forall|y: Seq<char>| #[trigger] f(y) == eval_in(g, below(f, y.len() as int), y) {
        lemma_fixed_point_unique(g, f, x);
    }
}

} // verus!
