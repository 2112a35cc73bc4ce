use verilog_sheet::parameter::Param;
use verilog_sheet::text::chars_of;
use verilog_sheet::text::compare;
use verilog_sheet::text::decimal;
use verilog_sheet::text::decimal_usize;
use verilog_sheet::text::find;
use verilog_sheet::text::join;
use verilog_sheet::text::pad;
use verilog_sheet::text::parse_radix;
use verilog_sheet::text::repeat;
use verilog_sheet::text::replace;
use verilog_sheet::text::Order;
use verilog_sheet::calculator::CalcError;
use verilog_sheet::width::Width;

#[test]
fn decimal_numerals() {
    assert_eq!(decimal(0), "0");
    assert_eq!(decimal(7), "7");
    assert_eq!(decimal(10), "10");
    assert_eq!(decimal(1234567890), "1234567890");
    assert_eq!(decimal(u128::MAX), "340282366920938463463374607431768211455");
    assert_eq!(decimal_usize(4096), "4096");
}

#[test]
fn padding_and_repeating() {
    assert_eq!(pad("ab", 5), "ab   ");
    assert_eq!(pad("abcde", 5), "abcde");
    assert_eq!(pad("abcdef", 5), "abcdef");
    assert_eq!(pad("", 0), "");
    assert_eq!(pad("é", 3), "é  ");
    assert_eq!(repeat(' ', 8), "        ");
    assert_eq!(repeat('x', 0), "");
}

#[test]
fn joining() {
    assert_eq!(join(&vec![], ", "), "");
    assert_eq!(join(&vec!["a".to_string()], ", "), "a");
    assert_eq!(join(&vec!["a".to_string(), "".to_string(), "c".to_string()], ", "), "a, , c");
}

#[test]
fn characters_of_a_text() {
    assert_eq!(chars_of("aé∑"), vec!['a', 'é', '∑']);
    assert!(chars_of("").is_empty());
}

#[test]
fn comparison_is_that_of_strings() {
    let words = ["", "a", "A", "ab", "b", "é", "z", "Z0", "_x", "a_", "a0"];
    for a in words {
        for b in words {
            let expected = match a.cmp(b) {
                std::cmp::Ordering::Less => Order::Before,
                std::cmp::Ordering::Equal => Order::Same,
                std::cmp::Ordering::Greater => Order::After,
            };
            assert_eq!(compare(a, b), expected, "{:?} against {:?}", a, b);
        }
    }
}

#[test]
fn replacing_is_that_of_strings() {
    let cases = [
        ("W+WW", "W", "8"),
        ("aaa", "aa", "b"),
        ("abc", "", "-"),
        ("", "", "x"),
        ("", "a", "x"),
        ("K-1", "K", "12"),
        ("abcabc", "bc", ""),
        ("abc", "abcd", "x"),
        ("{a, b}", "{", ""),
    ];
    for (s, from, to) in cases {
        assert_eq!(replace(s, from, to), s.replace(from, to), "{:?} {:?} {:?}", s, from, to);
    }
    assert_eq!(replace("W+WW", "W", "8"), "8+88");
    assert_eq!(replace("abc", "", "-"), "-a-b-c-");
}

#[test]
fn numerals_in_a_base() {
    assert_eq!(parse_radix("0", 10, 100), Some(0));
    assert_eq!(parse_radix("100", 10, 100), Some(100));
    assert_eq!(parse_radix("101", 10, 100), None);
    assert_eq!(parse_radix("007", 10, 100), Some(7));
    assert_eq!(parse_radix("", 10, 100), None);
    assert_eq!(parse_radix("12a", 10, 1000), None);
    assert_eq!(parse_radix("+5", 10, 1000), None);
    assert_eq!(parse_radix("1010", 2, 1000), Some(10));
    assert_eq!(parse_radix("102", 2, 1000), None);
    assert_eq!(parse_radix("fF", 16, 1000), Some(255));
    assert_eq!(parse_radix("17", 8, 1000), Some(15));
    assert_eq!(parse_radix("z", 36, 1000), Some(35));
    assert_eq!(
        parse_radix("340282366920938463463374607431768211455", 10, u128::MAX),
        Some(u128::MAX)
    );
    assert_eq!(parse_radix("340282366920938463463374607431768211456", 10, u128::MAX), None);
    assert_eq!(parse_radix("ffffffffffffffffffffffffffffffffff", 16, u128::MAX), None);
}

#[test]
fn first_place_of_a_name() {
    let names = vec!["a".to_string(), "b".to_string(), "a".to_string()];
    assert_eq!(find(&names, "a"), 0);
    assert_eq!(find(&names, "b"), 1);
    assert_eq!(find(&names, "c"), 3);
}

#[test]
fn widths_add_and_subtract() {
    assert!(matches!(Width::RawWidth(3).plus(Width::RawWidth(4)), Width::RawWidth(7)));
    assert!(matches!(Width::RawWidth(7).minus(Width::RawWidth(4)), Width::RawWidth(3)));
    assert!(matches!(Width::RawWidth(4).minus(Width::RawWidth(7)), Width::RawWidth(0)));
    assert!(matches!(Width::RawWidth(7).plus_int(1), Width::RawWidth(8)));
    assert!(matches!(Width::RawWidth(7).minus_int(8), Width::RawWidth(0)));
    match Width::literal("K").minus(Width::RawWidth(1)) {
        Width::LiteralWidth(s, 0) => assert_eq!(s, "K - 1"),
        _ => panic!("a symbolic width"),
    }
    match Width::RawWidth(2).plus(Width::LiteralWidth("W".to_string(), 9)) {
        Width::LiteralWidth(s, 0) => assert_eq!(s, "2 + W"),
        _ => panic!("a symbolic width"),
    }
    match Width::literal("A").plus(Width::literal("B")).minus_int(3) {
        Width::LiteralWidth(s, 0) => assert_eq!(s, "A + B - 3"),
        _ => panic!("a symbolic width"),
    }
    match Width::RawWidth(usize::MAX).plus_int(1) {
        Width::LiteralWidth(s, 0) => assert_eq!(s, format!("{} + 1", usize::MAX)),
        _ => panic!("a symbolic width"),
    }
}

#[test]
fn widths_evaluate_under_parameters() {
    let params = vec![Param::new("W".to_string(), 8), Param::new("K".to_string(), 12)];
    let w = Width::literal("K - 1 + 1");
    assert_eq!(w.width(), 0);
    assert!(w.is_literal());
    let e = w.width_from(&params);
    assert_eq!(e.width(), 12);
    assert_eq!(e.to_string(), "K - 1 + 1");
    assert_eq!(Width::literal("W*2+K").evaluate(&params), Ok(28));
    assert_eq!(Width::literal("X+1").evaluate(&params), Err(CalcError::UnexpectedChar('X')));
    assert_eq!(Width::literal("X+1").width_from(&params).width(), 0);
    assert_eq!(Width::literal("").width_from(&params).width(), 0);
    let raw = Width::RawWidth(5).width_from(&params);
    assert_eq!(raw.width(), 5);
    assert!(!raw.is_literal());
    assert_eq!(raw.to_string(), "5");
    assert_eq!(Width::default().width(), 0);
    assert_eq!(Width::from(9usize).width(), 9);
    assert_eq!(Width::from("N".to_string()).to_string(), "N");
    assert_eq!(Width::RawWidth(3).duplicate().width(), 3);
}
