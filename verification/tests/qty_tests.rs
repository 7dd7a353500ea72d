use shopfloor::qty::{parse_qty_chars, render_qty_chars, Qty};

fn chars(s: &str) -> Vec<char> {
    s.chars().collect()
}

fn parse(s: &str) -> Option<i64> {
    parse_qty_chars(&chars(s)).map(|q| q.milli)
}

fn render(milli: i64) -> String {
    render_qty_chars(Qty { milli }).into_iter().collect()
}

#[test]
fn parses_whole_numbers() {
    assert_eq!(parse("10"), Some(10_000));
    assert_eq!(parse("0"), Some(0));
    assert_eq!(parse("999999"), Some(999_999_000));
}

#[test]
fn parses_fractions() {
    assert_eq!(parse("2.5"), Some(2_500));
    assert_eq!(parse("0.050"), Some(50));
    assert_eq!(parse(".5"), Some(500));
    assert_eq!(parse("5."), Some(5_000));
    assert_eq!(parse("1.23"), Some(1_230));
}

#[test]
fn parses_signs() {
    assert_eq!(parse("-1.25"), Some(-1_250));
    assert_eq!(parse("+3"), Some(3_000));
    assert_eq!(parse("-0"), Some(0));
}

#[test]
fn parses_largest_quantity() {
    assert_eq!(parse("999999.999"), Some(999_999_999));
    assert_eq!(parse("-999999.999"), Some(-999_999_999));
}

#[test]
fn rejects_bad_quantities() {
    assert_eq!(parse(""), None);
    assert_eq!(parse("."), None);
    assert_eq!(parse("abc"), None);
    assert_eq!(parse("1e3"), None);
    assert_eq!(parse("1.2345"), None);
    assert_eq!(parse("1000000"), None);
    assert_eq!(parse("--1"), None);
    assert_eq!(parse("1 2"), None);
    assert_eq!(parse("1.2.3"), None);
}

#[test]
fn renders_canonical_text() {
    assert_eq!(render(2_500), "2.5");
    assert_eq!(render(10_000), "10");
    assert_eq!(render(-1_250), "-1.25");
    assert_eq!(render(50), "0.05");
    assert_eq!(render(0), "0");
    assert_eq!(render(999_999_999), "999999.999");
    assert_eq!(render(1_230), "1.23");
    assert_eq!(render(7), "0.007");
}

#[test]
fn quantity_text_round_trips() {
    for &m in &[0i64, 1, -1, 999, 1_000, 2_500, -2_500, 123_456_789, 999_999_999, -999_999_999] {
        let text = render(m);
        assert_eq!(parse(&text), Some(m), "round trip of {m} through {text:?}");
    }
}
