use verilog_sheet::calculator::CalcError;
use verilog_sheet::calculator::Mistake;
use verilog_sheet::calculator::Node;
use verilog_sheet::calculator::Parser;
use verilog_sheet::calculator::StrCalc;
use verilog_sheet::calculator::Token;
use verilog_sheet::calculator::Tokenizer;
use verilog_sheet::decimal::Number;

#[test]
fn test_calculate() {
    assert_eq!(String::from("1 + 2").calculate(), Ok(3));
    assert_eq!(String::from("1 - 2").calculate(), Err(CalcError::OutOfRange));
    assert_eq!(String::from("1 * 2").calculate(), Ok(2));
    assert_eq!(String::from("1 / 2").calculate(), Ok(0));
    assert_eq!(String::from("1 ^ 2").calculate(), Ok(1));
    assert_eq!(String::from("-1").calculate(), Err(CalcError::OutOfRange));
    assert_eq!(String::from("-1 + 2").calculate(), Ok(1));
    assert_eq!(String::from("-1 - 2").calculate(), Err(CalcError::OutOfRange));
    assert_eq!(String::from("-1 * 2").calculate(), Err(CalcError::OutOfRange));
    assert_eq!(String::from("-1 ^ 2").calculate(), Ok(1));
    assert_eq!(String::from("3 - (2+3) * 2 - 1 * (-3 *3)").calculate(), Ok(2));
}

#[test]
fn calculate_follows_precedence() {
    assert_eq!(String::from("2 + 3 * 4").calculate(), Ok(14));
    assert_eq!(String::from("(2 + 3) * 4").calculate(), Ok(20));
    assert_eq!(String::from("2 * 3 ^ 2").calculate(), Ok(18));
    assert_eq!(String::from("10 - 4 - 3").calculate(), Ok(3));
    assert_eq!(String::from("64 / 4 / 2").calculate(), Ok(8));
    assert_eq!(String::from("8+4-1").calculate(), Ok(11));
    assert_eq!(String::from("  7\t").calculate(), Ok(7));
}

#[test]
fn calculate_reports_unexpected_characters() {
    assert_eq!(String::from("W + 4").calculate(), Err(CalcError::UnexpectedChar('W')));
    assert_eq!(String::from("4 + $").calculate(), Err(CalcError::UnexpectedChar('$')));
    assert_eq!(String::from("1.5").calculate(), Err(CalcError::UnexpectedChar('.')));
}

#[test]
fn calculate_reports_unbalanced_parentheses() {
    assert_eq!(
        String::from("(1 + 2").calculate(),
        Err(CalcError::InvalidOperator(Mistake::Incomplete))
    );
    assert_eq!(
        String::from("1 + 2)").calculate(),
        Err(CalcError::InvalidOperator(Mistake::Trailing(Token::RightParen)))
    );
    assert_eq!(
        String::from("(1 2").calculate(),
        Err(CalcError::InvalidOperator(Mistake::ExpectedCloseParen(Token::Number(
            Number { mantissa: 2, scale: 0 }
        ))))
    );
    assert_eq!(
        String::from("1 + * 2").calculate(),
        Err(CalcError::InvalidOperator(Mistake::ExpectedOperand(Token::Multiply)))
    );
    assert_eq!(
        String::from("").calculate(),
        Err(CalcError::InvalidOperator(Mistake::Incomplete))
    );
    assert_eq!(
        String::from("1 2").calculate(),
        Err(CalcError::InvalidOperator(Mistake::Trailing(Token::Number(Number {
            mantissa: 2,
            scale: 0
        }))))
    );
}

#[test]
fn calculate_refuses_what_has_no_width() {
    assert_eq!(String::from("1 / 0").calculate(), Err(CalcError::OutOfRange));
    assert_eq!(String::from("2 ^ (1 / 2)").calculate(), Err(CalcError::OutOfRange));
    assert_eq!(String::from("10 ^ 40").calculate(), Err(CalcError::OutOfRange));
    assert_eq!(
        String::from("99999999999999999999999999999999999999999").calculate(),
        Err(CalcError::UnexpectedChar('9'))
    );
}

#[test]
fn tokenizer_reads_tokens_one_by_one() {
    let mut t = Tokenizer::new("12 +(3)");
    assert_eq!(t.next(), Some(Token::Number(Number { mantissa: 12, scale: 0 })));
    assert_eq!(t.next(), Some(Token::Add));
    assert_eq!(t.next(), Some(Token::LeftParen));
    assert_eq!(t.next(), Some(Token::Number(Number { mantissa: 3, scale: 0 })));
    assert_eq!(t.next(), Some(Token::RightParen));
    assert_eq!(t.next(), Some(Token::EOF));
    assert_eq!(t.next(), None);
    assert_eq!(t.get_unexpected_char(), None);
    let mut bad = Tokenizer::new(" ?");
    assert_eq!(bad.next(), None);
    assert_eq!(bad.get_unexpected_char(), Some('?'));
}

#[test]
fn parser_builds_the_tree() {
    let mut p = Parser::new("1 + 2 * 3").unwrap();
    let tree = p.parse().unwrap();
    let one = Node::Number(Number { mantissa: 1, scale: 0 });
    let two = Node::Number(Number { mantissa: 2, scale: 0 });
    let three = Node::Number(Number { mantissa: 3, scale: 0 });
    let expected = Node::Add(
        Box::new(one),
        Box::new(Node::Multiply(Box::new(two), Box::new(three))),
    );
    assert_eq!(tree, expected);
    assert_eq!(tree.eval(), Some(Number { mantissa: 7, scale: 0 }));
}

#[test]
fn numbers_compute_through_the_decimal_crate() {
    // Each operation goes through the decimal arithmetic: none hands an
    // operand back.
    assert_eq!(String::from("15 + 25").calculate(), Ok(40));
    assert_eq!(String::from("25 - 15").calculate(), Ok(10));
    assert_eq!(String::from("15 * 25").calculate(), Ok(375));
    assert_eq!(String::from("375 / 25").calculate(), Ok(15));
    assert_eq!(String::from("2 ^ 10").calculate(), Ok(1024));
    assert_eq!(String::from("3 / 2 * 4").calculate(), Ok(6));
    assert_eq!(String::from("3 / 0").calculate(), Err(CalcError::OutOfRange));
    let a = Number { mantissa: 15, scale: 1 };
    assert_eq!(Number::from_u64(2).power(Number::from_u64(10)).unwrap().to_usize(), Some(1024));
    assert_eq!(Number::from_u64(2).power(a), None);
    assert_eq!(a.negated(), Some(Number { mantissa: -15, scale: 1 }));
    assert_eq!(Number { mantissa: i128::MIN, scale: 0 }.negated(), None);
    assert_eq!(a.to_usize(), Some(1));
    assert_eq!(a.negated().unwrap().to_usize(), None);
    assert_eq!(Number { mantissa: 5, scale: 29 }.to_usize(), None);
    assert!(Number { mantissa: 20, scale: 1 }.whole());
    assert!(Number { mantissa: -20, scale: 1 }.whole());
    assert!(!a.whole());
    let parsed = Parser::new("42").unwrap().parse().unwrap();
    assert_eq!(parsed, Node::Number(Number { mantissa: 42, scale: 0 }));
}
