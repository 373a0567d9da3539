use vstd::prelude::*;
use crate::value::{Value, Val, view_opt};

verus! {

/// A step run on what a parser produced: it maps the value to a new one, or
/// rejects it.
pub trait Transform {
    /// What `apply` returns for a value whose model is `v`.
    spec fn spec_apply(&self, v: Val) -> Option<Val>;

    fn apply(&self, v: Value) -> (r: Option<Value>)
        ensures
            view_opt(r) == self.spec_apply(v@),
    ;
}

/// A grammar. Each node matches the whole of the text it is given.
///
/// `SelfRef` stands for the innermost `Fractal` around it. Outside of any
/// fractal it matches nothing.
pub enum Parser<T> {
    /// Matches exactly the given text.
    Literal(Vec<char>),
    /// Matches a non-empty run of digits in the given radix.
    Digits(u32),
    /// Ordered choice: the first parser, and the second only where the first fails.
    Alt2(Box<Parser<T>>, Box<Parser<T>>),
    /// The first parser on a prefix and the second on the rest; the longest
    /// prefix that works is taken.
    Seq2(Box<Parser<T>>, Box<Parser<T>>),
    /// A parser whose value is passed through a transform.
    Post(Box<Parser<T>>, T),
    /// A grammar that refers to itself through `SelfRef`.
    Fractal(Box<FractalParser<T>>),
    /// The handle a fractal's body uses for the fractal itself.
    SelfRef,
}

/// A grammar tied to itself: its body reaches the whole through `SelfRef`.
/// The body is set once, when the fractal is built, and never changes.
pub struct FractalParser<T> {
    parser: Box<Parser<T>>,
}

/// The handle given to the builder of a fractal.
#[derive(Clone, Copy)]
pub struct ParserRef {}

impl<T> FractalParser<T> {
    /// The grammar that this fractal ties to itself.
    pub closed spec fn inner(&self) -> Parser<T> {
        *self.parser
    }
}

/// The number of nodes of a grammar, fractal bodies included.
pub open spec fn size<T>(p: Parser<T>) -> nat
    decreases p,
{
    match p {
        Parser::Alt2(a, b) => size(*a) + size(*b) + 1,
        Parser::Seq2(a, b) => size(*a) + size(*b) + 1,
        Parser::Post(a, _) => size(*a) + 1,
        Parser::Fractal(f) => size(f.inner()) + 2,
        _ => 1,
    }
}

/// The value of a character read as a digit: `0`-`9`, then `a`-`z` or `A`-`Z`
/// for ten to thirty-five. Any other character gets a value no radix admits.
pub open spec fn digit_value(c: char) -> int {
    let n = c as int;
    if 48 <= n <= 57 {
        n - 48
    } else if 97 <= n <= 122 {
        n - 87
    } else if 65 <= n <= 90 {
        n - 55
    } else {
        99
    }
}

/// Whether `x` is a non-empty run of digits in radix `radix`.
pub open spec fn is_digit_run(x: Seq<char>, radix: u32) -> bool {
    &&& x.len() > 0
    &&& forall|i: int| 0 <= i < x.len() ==> #[trigger] digit_value(x[i]) < radix
}

/// Every radix in the grammar lies in 2..=36.
pub open spec fn wf<T>(p: Parser<T>) -> bool
    decreases p,
{
    match p {
        Parser::Digits(radix) => 2 <= radix <= 36,
        Parser::Alt2(a, b) => wf(*a) && wf(*b),
        Parser::Seq2(a, b) => wf(*a) && wf(*b),
        Parser::Post(a, _) => wf(*a),
        Parser::Fractal(f) => wf(f.inner()),
        _ => true,
    }
}

/// What grammar `p` yields on the whole of `x`, where `env` says what `SelfRef`
/// yields.
pub open spec fn eval_in<T: Transform>(
    p: Parser<T>,
    env: spec_fn(Seq<char>) -> Option<Val>,
    x: Seq<char>,
) -> Option<Val>
    decreases x.len(), size(p), 0int,
{
    match p {
        Parser::Literal(s) => if x == s@ {
            Some(Val::Text(x))
        } else {
            None
        },
        Parser::Digits(radix) => if is_digit_run(x, radix) {
            Some(Val::Text(x))
        } else {
            None
        },
        Parser::Alt2(a, b) => match eval_in(*a, env, x) {
            Some(u) => Some(u),
            None => eval_in(*b, env, x),
        },
        Parser::Seq2(a, b) => scan(*a, *b, env, x, x.len() as int),
        Parser::Post(a, t) => match eval_in(*a, env, x) {
            Some(v) => t.spec_apply(v),
            None => None,
        },
        Parser::Fractal(f) => fix(f.inner(), x),
        Parser::SelfRef => env(x),
    }
}

/// The split of `x` into `a` then `b`, trying the cut points `i`, `i - 1`, ...,
/// `0` in turn and taking the first at which both match.
pub open spec fn scan<T: Transform>(
    a: Parser<T>,
    b: Parser<T>,
    env: spec_fn(Seq<char>) -> Option<Val>,
    x: Seq<char>,
    i: int,
) -> Option<Val>
    decreases x.len(), size(a) + size(b), i + 1,
{
    if i < 0 || i > x.len() {
        None
    } else {
        match (eval_in(a, env, x.subrange(0, i)), eval_in(b, env, x.subrange(i, x.len() as int))) {
            (Some(u), Some(v)) => Some(Val::Pair(Box::new(u), Box::new(v))),
            _ => scan(a, b, env, x, i - 1),
        }
    }
}

/// What the fractal with body `g` yields on `x`: the body, where `SelfRef`
/// stands for the fractal again on any strictly shorter text. A call of
/// `SelfRef` on text that is not shorter fails; evaluated directly it would
/// never return (see `law_fractal_agrees_with_direct`).
pub open spec fn fix<T: Transform>(g: Parser<T>, x: Seq<char>) -> Option<Val>
    decreases x.len(), size(g) + 1, 2int,
{
    eval_in(g, self_env(g, x.len() as int), x)
}

/// The meaning of `SelfRef` in the body `g` of a fractal working on a text of
/// length `n`: the fractal again, on text shorter than `n`.
pub open spec fn self_env<T: Transform>(g: Parser<T>, n: int) -> spec_fn(Seq<char>) -> Option<Val>
    decreases n, size(g) + 1, 1int,
{
    |y: Seq<char>|
        if y.len() < n {
            fix(g, y)
        } else {
            None
        }
}

/// The environment of a grammar that stands alone: `SelfRef` matches nothing.
pub open spec fn no_env() -> spec_fn(Seq<char>) -> Option<Val> {
    |y: Seq<char>| None
}

/// What grammar `p` yields on the whole of `x`.
pub open spec fn parses<T: Transform>(p: Parser<T>, x: Seq<char>) -> Option<Val> {
    eval_in(p, no_env(), x)
}

/// The value of `c` as a digit, as `digit_value` gives it.
pub(crate) fn digit_of(c: char) -> (r: u32)
    ensures
        r == digit_value(c),
{
    let n = c as u32;
    if 48 <= n && n <= 57 {
        n - 48
    } else if 97 <= n && n <= 122 {
        n - 87
    } else if 65 <= n && n <= 90 {
        n - 55
    } else {
        99
    }
}

/// Whether `input[lo..hi]` is `lit`.
fn text_is(lit: &Vec<char>, input: &Vec<char>, lo: usize, hi: usize) -> (r: bool)
    requires
        lo <= hi <= input.len(),
    ensures
        r == (input@.subrange(lo as int, hi as int) == lit@),
{
    if hi - lo != lit.len() {
        return false;
    }
    let mut k: usize = 0;
    while k < lit.len()
        invariant
            lo <= hi <= input.len(),
            hi - lo == lit.len(),
            k <= lit.len(),
            forall|j: int| 0 <= j < k ==> input@[lo + j] == lit@[j],
        decreases lit.len() - k,
    {
        if input[lo + k] != lit[k] {
            assert(input@.subrange(lo as int, hi as int)[k as int] != lit@[k as int]);
            return false;
        }
        k = k + 1;
    }
    assert(input@.subrange(lo as int, hi as int) =~= lit@);
    true
}

/// Whether `input[lo..hi]` is a non-empty run of digits in `radix`.
fn digit_run(radix: u32, input: &Vec<char>, lo: usize, hi: usize) -> (r: bool)
    requires
        lo <= hi <= input.len(),
    ensures
        r == is_digit_run(input@.subrange(lo as int, hi as int), radix),
{
    let ghost x = input@.subrange(lo as int, hi as int);
    if lo == hi {
        return false;
    }
    let mut k: usize = lo;
    while k < hi
        invariant
            lo <= k <= hi <= input.len(),
            x == input@.subrange(lo as int, hi as int),
            forall|j: int| 0 <= j < k - lo ==> #[trigger] digit_value(x[j]) < radix,
        decreases hi - k,
    {
        if digit_of(input[k]) >= radix {
            assert(x[k - lo] == input@[k as int]);
            return false;
        }
        assert(x[k - lo] == input@[k as int]);
        k = k + 1;
    }
    true
}

/// A copy of `input[lo..hi]`.
fn copy_range(input: &Vec<char>, lo: usize, hi: usize) -> (r: Vec<char>)
    requires
        lo <= hi <= input.len(),
    ensures
        r@ == input@.subrange(lo as int, hi as int),
{
    let mut r: Vec<char> = Vec::new();
    let mut k: usize = lo;
    while k < hi
        invariant
            lo <= k <= hi <= input.len(),
            r@ == input@.subrange(lo as int, k as int),
        decreases hi - k,
    {
        r.push(input[k]);
        k = k + 1;
        assert(r@ =~= input@.subrange(lo as int, k as int));
    }
    r
}

/// Runs `p` on `input[lo..hi]`. `SelfRef` stands for the fractal with body `me`,
/// on text shorter than `n0`.
fn eval<T: Transform>(
    p: &Parser<T>,
    me: &Parser<T>,
    n0: usize,
    input: &Vec<char>,
    lo: usize,
    hi: usize,
) -> (r: Option<Value>)
    requires
        lo <= hi <= input.len(),
        wf(*p),
        wf(*me),
    ensures
        view_opt(r) == eval_in(*p, self_env(*me, n0 as int), input@.subrange(lo as int, hi as int)),
    decreases (if n0 >= hi - lo { n0 as int } else { hi - lo }), size(*p),
{
    let ghost x = input@.subrange(lo as int, hi as int);
    let ghost env = self_env(*me, n0 as int);
    match p {
        Parser::Literal(s) => {
            if text_is(s, input, lo, hi) {
                Some(Value::Text(copy_range(input, lo, hi)))
            } else {
                None
            }
        },
        Parser::Digits(radix) => {
            if digit_run(*radix, input, lo, hi) {
                Some(Value::Text(copy_range(input, lo, hi)))
            } else {
                None
            }
        },
        Parser::Alt2(a, b) => {
            match eval(a, me, n0, input, lo, hi) {
                Some(u) => Some(u),
                None => eval(b, me, n0, input, lo, hi),
            }
        },
        Parser::Seq2(a, b) => {
            let mut i: usize = hi - lo;
            loop
                invariant
                    lo <= hi <= input.len(),
                    i <= hi - lo,
                    wf(**a),
                    wf(**b),
                    wf(*me),
                    size(**a) < size(*p),
                    size(**b) < size(*p),
                    x == input@.subrange(lo as int, hi as int),
                    env == self_env(*me, n0 as int),
                    eval_in(*p, env, x) == scan(**a, **b, env, x, i as int),
                decreases i,
            {
                assert(x.subrange(0, i as int) =~= input@.subrange(lo as int, lo + i));
                assert(x.subrange(i as int, x.len() as int) =~= input@.subrange(lo + i, hi as int));
                let ra = eval(a, me, n0, input, lo, lo + i);
                if let Some(u) = ra {
                    let rb = eval(b, me, n0, input, lo + i, hi);
                    if let Some(v) = rb {
                        return Some(Value::Pair(Box::new(u), Box::new(v)));
                    }
                }
                if i == 0 {
                    assert(scan(**a, **b, env, x, -1) is None);
                    return None;
                }
                i = i - 1;
            }
        },
        Parser::Post(a, t) => {
            match eval(a, me, n0, input, lo, hi) {
                Some(v) => t.apply(v),
                None => None,
            }
        },
        Parser::Fractal(f) => {
            eval(&f.parser, &f.parser, hi - lo, input, lo, hi)
        },
        Parser::SelfRef => {
            if hi - lo < n0 {
                eval(me, me, hi - lo, input, lo, hi)
            } else {
                None
            }
        },
    }
}

/// The characters of `s`, in order.
fn chars_of(s: &str) -> (r: Vec<char>)
    ensures
        r@ == s@,
{
    let mut r: Vec<char> = Vec::new();
    for c in it: s.chars()
        invariant
            r@ == it.seq().take(it.index()),
    {
        r.push(c);
    }
    r
}

/// Runs a grammar that stands alone on the whole of `input`.
fn run<T: Transform>(p: &Parser<T>, input: &Vec<char>) -> (r: Option<Value>)
    requires
        wf(*p),
    ensures
        view_opt(r) == parses(*p, input@),
{
    assert(self_env(*p, 0) =~= no_env());
    assert(input@.subrange(0, input.len() as int) =~= input@);
    eval(p, p, 0, input, 0, input.len())
}

impl<T: Transform> Parser<T> {
    /// Runs the grammar on the whole of `s`: the value, or `None` where `s`
    /// does not match.
    pub fn call(&self, s: &str) -> (r: Option<Value>)
        requires
            wf(*self),
        ensures
            view_opt(r) == parses(*self, s@),
    {
        let input = chars_of(s);
        run(self, &input)
    }

    /// The parser that matches exactly `s`.
    pub fn literal(s: &str) -> (r: Self)
        ensures
            r matches Parser::Literal(l) && l@ == s@,
    {
        Parser::Literal(chars_of(s))
    }

    /// The parser that matches a non-empty run of digits in `radix`.
    pub fn digits(radix: u32) -> (r: Self)
        requires
            2 <= radix <= 36,
        ensures
            r == Parser::<T>::Digits(radix),
            wf(r),
    {
        Parser::Digits(radix)
    }

    /// Ordered choice between `a` and `b`.
    pub fn alt2(a: Self, b: Self) -> (r: Self)
        ensures
            r == Parser::Alt2(Box::new(a), Box::new(b)),
    {
        Parser::Alt2(Box::new(a), Box::new(b))
    }

    /// `a` on a prefix and `b` on the rest.
    pub fn seq2(a: Self, b: Self) -> (r: Self)
        ensures
            r == Parser::Seq2(Box::new(a), Box::new(b)),
    {
        Parser::Seq2(Box::new(a), Box::new(b))
    }

    /// `p` with its value passed through `t`.
    pub fn post(p: Self, t: T) -> (r: Self)
        ensures
            r == Parser::Post(Box::new(p), t),
    {
        Parser::Post(Box::new(p), t)
    }
}

impl ParserRef {
    /// The grammar node that stands for the fractal this handle was given by.
    pub fn parser<T>(self) -> (r: Parser<T>)
        ensures
            r == Parser::<T>::SelfRef,
    {
        Parser::SelfRef
    }
}

impl<T: Transform> FractalParser<T> {
    /// Ties a grammar to itself: `maker` receives the handle for the fractal
    /// being built, and what it returns becomes the fractal's body.
    pub fn new<F: Fn(ParserRef) -> Parser<T>>(maker: F) -> (r: Self)
        requires
            maker.requires((ParserRef {},)),
        ensures
            maker.ensures((ParserRef {},), r.inner()),
    {
        let handle = ParserRef {};
        let parser = maker(handle);
        FractalParser { parser: Box::new(parser) }
    }

    /// Runs the fractal on the whole of `s`: the value, or `None` where `s`
    /// does not match.
    pub fn call(&self, s: &str) -> (r: Option<Value>)
        requires
            wf(self.inner()),
        ensures
            view_opt(r) == fix(self.inner(), s@),
    {
        let input = chars_of(s);
        assert(input@.subrange(0, input.len() as int) =~= input@);
        eval(&self.parser, &self.parser, input.len(), &input, 0, input.len())
    }

    /// The fractal as a node of a larger grammar.
    pub fn into_parser(self) -> (r: Parser<T>)
        ensures
            r == Parser::Fractal(Box::new(self)),
    {
        Parser::Fractal(Box::new(self))
    }
}

} // verus!
