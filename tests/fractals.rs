use fractals::arith::Arith;
use fractals::parser::{FractalParser, Parser, ParserRef};
use fractals::value::Value;

fn text(s: &str) -> Value {
    Value::Text(s.chars().collect())
}

fn pair(a: Value, b: Value) -> Value {
    Value::Pair(Box::new(a), Box::new(b))
}

fn binary(fractal: ParserRef, op: &str, t: Arith) -> Parser<Arith> {
    Parser::post(
        Parser::seq2(
            fractal.parser(),
            Parser::seq2(Parser::literal(op), fractal.parser()),
        ),
        t,
    )
}

// Addition is tried before multiplication, so `*` binds tighter than `+`.
fn infix() -> FractalParser<Arith> {
    FractalParser::new(|fractal: ParserRef| {
        Parser::alt2(
            Parser::post(Parser::digits(10), Arith::Number(10)),
            Parser::alt2(
                binary(fractal, " + ", Arith::Sum),
                binary(fractal, " * ", Arith::Product),
            ),
        )
    })
}

#[test]
fn test_fractal_parser() {
    let parser = infix();
    assert_eq!(parser.call("1 + 2 * 3 + 4"), Some(Value::Num(11)));
}

#[test]
fn infix_single_number() {
    assert_eq!(infix().call("7"), Some(Value::Num(7)));
}

#[test]
fn infix_sum() {
    assert_eq!(infix().call("1 + 2"), Some(Value::Num(3)));
}

#[test]
fn infix_product() {
    assert_eq!(infix().call("2 * 3"), Some(Value::Num(6)));
}

#[test]
fn infix_mixed() {
    assert_eq!(infix().call("1 + 2 * 3"), Some(Value::Num(7)));
}

#[test]
fn infix_rejects_letters() {
    assert_eq!(infix().call("abc"), None);
}

#[test]
fn infix_rejects_dangling_operator() {
    assert_eq!(infix().call("1 +"), None);
}

#[test]
fn infix_rejects_empty() {
    assert_eq!(infix().call(""), None);
}

#[test]
fn infix_product_overflow_fails() {
    assert_eq!(infix().call("65536 * 65536"), None);
}

#[test]
fn infix_as_node_agrees_with_fractal() {
    let fp = infix();
    let direct = fp.call("3 * 4 + 5");
    assert_eq!(direct, Some(Value::Num(17)));
    assert_eq!(fp.into_parser().call("3 * 4 + 5"), direct);
}

#[test]
fn literal_matches_exactly() {
    let p: Parser<Arith> = Parser::literal("abc");
    assert_eq!(p.call("abc"), Some(text("abc")));
    assert_eq!(p.call("ab"), None);
    assert_eq!(p.call("abcd"), None);
    assert_eq!(p.call(""), None);
}

#[test]
fn empty_literal_matches_empty_input() {
    let p: Parser<Arith> = Parser::literal("");
    assert_eq!(p.call(""), Some(text("")));
    assert_eq!(p.call("a"), None);
}

#[test]
fn literal_matches_non_ascii() {
    let p: Parser<Arith> = Parser::literal("héllo");
    assert_eq!(p.call("héllo"), Some(text("héllo")));
    assert_eq!(p.call("hello"), None);
}

#[test]
fn decimal_digits() {
    let p: Parser<Arith> = Parser::digits(10);
    assert_eq!(p.call("0123"), Some(text("0123")));
    assert_eq!(p.call(""), None);
    assert_eq!(p.call("12a"), None);
    assert_eq!(p.call(" 1"), None);
}

#[test]
fn hex_digits_either_case() {
    let p: Parser<Arith> = Parser::digits(16);
    assert_eq!(p.call("fF09"), Some(text("fF09")));
    assert_eq!(p.call("g"), None);
}

#[test]
fn binary_digits() {
    let p: Parser<Arith> = Parser::digits(2);
    assert_eq!(p.call("1010"), Some(text("1010")));
    assert_eq!(p.call("102"), None);
}

#[test]
fn base36_digits() {
    let p: Parser<Arith> = Parser::digits(36);
    assert_eq!(p.call("zZ9"), Some(text("zZ9")));
}

#[test]
fn alt2_keeps_first_success() {
    let p = Parser::alt2(
        Parser::post(Parser::digits(10), Arith::Number(10)),
        Parser::digits(10),
    );
    assert_eq!(p.call("42"), Some(Value::Num(42)));
}

#[test]
fn alt2_falls_back_to_second() {
    let p: Parser<Arith> = Parser::alt2(Parser::literal("x"), Parser::digits(10));
    assert_eq!(p.call("42"), Some(text("42")));
    assert_eq!(p.call("x"), Some(text("x")));
    assert_eq!(p.call("y"), None);
}

#[test]
fn seq2_takes_longest_prefix() {
    let p: Parser<Arith> = Parser::seq2(Parser::digits(10), Parser::digits(10));
    assert_eq!(p.call("123"), Some(pair(text("12"), text("3"))));
    assert_eq!(p.call("1"), None);
}

#[test]
fn seq2_on_empty_input() {
    let p: Parser<Arith> = Parser::seq2(Parser::literal(""), Parser::literal(""));
    assert_eq!(p.call(""), Some(pair(text(""), text(""))));
}

#[test]
fn seq2_with_empty_right_part() {
    let p: Parser<Arith> = Parser::seq2(Parser::literal("ab"), Parser::literal(""));
    assert_eq!(p.call("ab"), Some(pair(text("ab"), text(""))));
}

#[test]
fn post_number_reads_decimal() {
    let p = Parser::post(Parser::digits(10), Arith::Number(10));
    assert_eq!(p.call("007"), Some(Value::Num(7)));
    assert_eq!(p.call("4294967295"), Some(Value::Num(4294967295)));
    assert_eq!(p.call("4294967296"), None);
    assert_eq!(p.call("99999999999999999999"), None);
}

#[test]
fn post_number_reads_hex() {
    let p = Parser::post(Parser::digits(16), Arith::Number(16));
    assert_eq!(p.call("fF"), Some(Value::Num(255)));
}

#[test]
fn post_fails_where_parser_fails() {
    let p = Parser::post(Parser::literal("x"), Arith::Number(10));
    assert_eq!(p.call("y"), None);
}

#[test]
fn post_fails_where_transform_rejects() {
    let p = Parser::post(Parser::literal("x"), Arith::Number(10));
    assert_eq!(p.call("x"), None);
    let q = Parser::post(Parser::digits(10), Arith::Sum);
    assert_eq!(q.call("12"), None);
}

#[test]
fn sum_overflow_fails() {
    assert_eq!(infix().call("4294967295 + 1"), None);
    assert_eq!(infix().call("4294967294 + 1"), Some(Value::Num(4294967295)));
}

#[test]
fn self_call_on_same_text_fails() {
    let fp = FractalParser::new(|s: ParserRef| {
        Parser::<Arith>::alt2(s.parser(), Parser::literal("x"))
    });
    assert_eq!(fp.call("x"), Some(text("x")));
    assert_eq!(fp.call("y"), None);
}

#[test]
fn fractal_right_recursion() {
    // a list of one or more "a", each followed by the rest
    let fp = FractalParser::new(|s: ParserRef| {
        Parser::<Arith>::alt2(
            Parser::literal("a"),
            Parser::seq2(Parser::literal("a"), s.parser()),
        )
    });
    assert_eq!(fp.call("a"), Some(text("a")));
    assert_eq!(fp.call("aa"), Some(pair(text("a"), text("a"))));
    assert_eq!(fp.call("aab"), None);
}

// one or more "b"
fn bs() -> Parser<Arith> {
    FractalParser::new(|s: ParserRef| {
        Parser::<Arith>::alt2(
            Parser::literal("b"),
            Parser::seq2(Parser::literal("b"), s.parser()),
        )
    })
    .into_parser()
}

#[test]
fn nested_fractals_each_keep_their_handle() {
    // any number of "a", then one or more "b"
    let fp = FractalParser::new(|s: ParserRef| {
        Parser::<Arith>::alt2(bs(), Parser::seq2(Parser::literal("a"), s.parser()))
    });
    assert_eq!(fp.call("b"), Some(text("b")));
    assert_eq!(
        fp.call("abb"),
        Some(pair(text("a"), pair(text("b"), text("b"))))
    );
    assert_eq!(fp.call("aab"), Some(pair(text("a"), pair(text("a"), text("b")))));
    assert_eq!(fp.call("a"), None);
    assert_eq!(fp.call("ba"), None);
}

#[test]
fn free_handle_matches_nothing() {
    let p: Parser<Arith> = ParserRef {}.parser();
    assert_eq!(p.call(""), None);
    assert_eq!(p.call("a"), None);
}
