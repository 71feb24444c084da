use ultrafxr::number::Radix::{Binary, Decimal, Hexadecimal, Octal};
use ultrafxr::number::Sign::{Negative, Positive};
use ultrafxr::number::convert::{make_integer, FloatParts, Magnitude};
use ultrafxr::number::scan::{bias_exponent, parse_exponent};
use ultrafxr::number::{ParseError, ParsedNumber, Radix, Sign};
use ultrafxr::sourcepos::{Pos, Span};

fn span_of(offset: u32, input: &str) -> Span {
    Span {
        start: Pos(offset),
        end: Pos(offset + input.len() as u32),
    }
}

#[test]
fn parse_success() {
    let mut success = true;
    type Case = (
        &'static str,
        &'static str,
        Sign,
        Radix,
        &'static [u8],
        Option<i32>,
    );
    const CASES: &'static [Case] = &[
        ("0", "", Positive, Decimal, &[0], None),
        (
            "0x0123456789abcdef",
            "",
            Positive,
            Hexadecimal,
            &[15, 14, 13, 12, 11, 10, 9, 8, 7, 6, 5, 4, 3, 2, 1, 0],
            None,
        ),
        (
            "0XABCDEF",
            "",
            Positive,
            Hexadecimal,
            &[15, 14, 13, 12, 11, 10],
            None,
        ),
        ("0b011", "", Positive, Binary, &[1, 1, 0], None),
        ("0B110", "", Positive, Binary, &[0, 1, 1], None),
        (
            "0o01234567",
            "",
            Positive,
            Octal,
            &[7, 6, 5, 4, 3, 2, 1, 0],
            None,
        ),
        (
            "0O76543210",
            "",
            Positive,
            Octal,
            &[0, 1, 2, 3, 4, 5, 6, 7],
            None,
        ),
        ("1.", "", Positive, Decimal, &[1], Some(0)),
        (".9", "", Positive, Decimal, &[9], Some(-1)),
        ("1e+15", "", Positive, Decimal, &[1], Some(15)),
        ("2e10", "", Positive, Decimal, &[2], Some(10)),
        ("9e-99", "", Positive, Decimal, &[9], Some(-99)),
        ("1.2e3", "", Positive, Decimal, &[2, 1], Some(2)),
        ("5.6e-3", "", Positive, Decimal, &[6, 5], Some(-4)),
        ("-0", "", Negative, Decimal, &[0], None),
        ("-0b11", "", Negative, Binary, &[1, 1], None),
        ("-0x123", "", Negative, Hexadecimal, &[3, 2, 1], None),
        ("-0o777", "", Negative, Octal, &[7, 7, 7], None),
        ("+123", "", Positive, Decimal, &[3, 2, 1], None),
        ("+0x123", "", Positive, Hexadecimal, &[3, 2, 1], None),
        ("12V", "V", Positive, Decimal, &[2, 1], None),
        ("0o", "o", Positive, Decimal, &[0], None),
        ("0oct", "oct", Positive, Decimal, &[0], None),
        ("0x", "x", Positive, Decimal, &[0], None),
        ("0xyz", "xyz", Positive, Decimal, &[0], None),
        ("0b", "b", Positive, Decimal, &[0], None),
        ("0bbb", "bbb", Positive, Decimal, &[0], None),
        ("1.2e3ms", "ms", Positive, Decimal, &[2, 1], Some(2)),
    ];
    let mut num = ParsedNumber::new();
    for (n, &(input, output, sign, radix, digits, exponent)) in CASES.iter().enumerate() {
        let offset: u32 = (1 + n as u32) * 100;
        let in_span = span_of(offset, input);
        match num.parse(input, in_span) {
            Err((e, _)) => {
                success = false;
                println!("Test case {} failed:", n);
                println!("    Input: {:?}", input);
                println!("    Error: {:?}", e);
            }
            Ok(rest) => {
                if rest != output
                    || num.sign != sign
                    || num.radix != radix
                    || num.digits != digits
                    || num.exponent != exponent
                {
                    success = false;
                    println!("Test case {} failed:", n);
                    println!("    Input: {:?}", input);
                    if rest != output {
                        println!("    Output: {:?}, expected {:?}", rest, output);
                    }
                    if num.sign != sign {
                        println!("    Sign: {:?}, expected {:?}", num.sign, sign);
                    }
                    if num.radix != radix {
                        println!("    Radix: {}, expected {}", num.radix.value(), radix.value());
                    }
                    if num.digits != digits {
                        println!("    Digits: {:?}, expected {:?}", num.digits, digits);
                    }
                    if num.exponent != exponent {
                        println!("    Exponent: {:?}, expected {:?}", num.exponent, exponent);
                    }
                }
            }
        }
    }
    if !success {
        println!();
        panic!("failed");
    }
}

#[test]
fn integer() {
    const CASES: &'static [(&'static str, i64)] = &[
        ("0", 0),
        ("1", 1),
        ("321", 321),
        ("+12", 12),
        ("-25", -25),
        ("9223372036854775807", i64::max_value()),
        ("-9223372036854775808", i64::min_value()),
        ("0b10110", 0b10110),
        ("-0b11010", -0b11010),
        ("0o777", 0o777),
        ("-0o123", -0o123),
        ("0xcafe", 0xcafe),
        ("-0xdead", -0xdead),
        (
            "0b111111111111111111111111111111111111111111111111111111111111111",
            i64::max_value(),
        ),
        (
            "-0b1000000000000000000000000000000000000000000000000000000000000000",
            i64::min_value(),
        ),
        ("0o777777777777777777777", i64::max_value()),
        ("-0o1000000000000000000000", i64::min_value()),
        ("0x7fffffffffffffff", i64::max_value()),
        ("-0x8000000000000000", i64::min_value()),
    ];
    let mut success = true;
    let mut num = ParsedNumber::new();
    for (n, &(input, expected)) in CASES.iter().enumerate() {
        let in_span = span_of(1, input);
        match num
            .parse(input, in_span)
            .map_err(|(e, _)| e)
            .and_then(|_| num.integer())
        {
            Err(e) => {
                success = false;
                println!("Test case {} failed:", n);
                println!("    Input: {:?}", input);
                println!("    Error: {:?}", e);
            }
            Ok(output) => {
                if output != expected {
                    success = false;
                    println!("Test case {} failed:", n);
                    println!("    Input: {:?}", input);
                    println!("    Output:   {:?}", output);
                    println!("    Expected: {:?}", expected);
                }
            }
        }
    }
    if !success {
        println!();
        panic!("failed");
    }
}

#[test]
fn integer_fail() {
    const CASES: &'static [&'static str] = &[
        "9223372036854775808",
        "-9223372036854775809",
        "0b1000000000000000000000000000000000000000000000000000000000000000",
        "-0b1000000000000000000000000000000000000000000000000000000000000001",
        "0o1000000000000000000000",
        "-0o1000000000000000000001",
        "0x8000000000000000",
        "-0x8000000000000001",
    ];
    let mut success = true;
    let mut num = ParsedNumber::new();
    for (n, &input) in CASES.iter().enumerate() {
        let in_span = span_of(1, input);
        match num.parse(input, in_span) {
            Err(e) => {
                success = false;
                println!("Test case {} failed:", n);
                println!("    Input: {:?}", input);
                println!("    Error: {:?}", e);
            }
            Ok(_) => {
                let output = num.integer();
                let expected: Result<i64, ParseError> = Err(ParseError::IntegerTooLarge);
                if output != expected {
                    success = false;
                    println!("Test case {} failed:", n);
                    println!("    Input: {:?}", input);
                    println!("    Output:   {:?}", output);
                    println!("    Expected: {:?}", expected);
                }
            }
        }
    }
    if !success {
        println!();
        panic!("failed");
    }
}

/// Powers of 10 which are exact.
const POWERS_OF_10: [f64; 23] = [
    1e0, 1e1, 1e2, 1e3, 1e4, 1e5, 1e6, 1e7, 1e8, 1e9, 1e10, 1e11, 1e12, 1e13, 1e14, 1e15, 1e16,
    1e17, 1e18, 1e19, 1e20, 1e21, 1e22,
];

fn pow10(n: i32) -> f64 {
    const MAX: i32 = 22;
    if n <= 0 {
        1.0
    } else {
        let mut x = 1.0;
        let mut n = n;
        while n > MAX {
            x *= POWERS_OF_10[MAX as usize];
            n -= MAX;
        }
        x * POWERS_OF_10[n as usize]
    }
}

fn to_f64(parts: FloatParts) -> f64 {
    let magnitude = match parts.magnitude {
        Magnitude::Zero => 0.0,
        Magnitude::Infinite => f64::INFINITY,
        Magnitude::Scaled { mantissa, exponent } => {
            let mantissa = mantissa as f64;
            if exponent > 0 {
                mantissa * pow10(exponent)
            } else if exponent < 0 {
                mantissa / pow10(-exponent)
            } else {
                mantissa
            }
        }
    };
    match parts.sign {
        Sign::Positive => magnitude,
        Sign::Negative => -magnitude,
    }
}

fn parse_float(input: &str) -> f64 {
    let mut num = ParsedNumber::new();
    match num.parse(input, span_of(1, input)) {
        Ok(_) => to_f64(num.float_parts()),
        Err((e, _)) => panic!("{:?}: {:?}", input, e),
    }
}

#[test]
fn float() {
    const CASES: &'static [(&'static str, f64)] = &[
        ("0.0", 0.0),
        ("1.5", 1.5),
        ("1e10", 1e10),
        ("99999e22", 99999e22),
        ("-0.00001", -0.00001),
        ("1234e-20", 1234e-20),
    ];
    let mut success = true;
    for (n, &(input, expected)) in CASES.iter().enumerate() {
        let output = parse_float(input);
        if output != expected {
            success = false;
            println!("Test case {} failed:", n);
            println!("    Input: {:?}", input);
            println!("    Output:   {:?}", output);
            println!("    Expected: {:?}", expected);
        }
    }
    if !success {
        println!();
        panic!("failed");
    }
}

fn parse_err(input: &str, offset: u32) -> (ParseError, Span) {
    let mut num = ParsedNumber::new();
    match num.parse(input, span_of(offset, input)) {
        Ok(rest) => panic!("{:?} parsed, rest {:?}", input, rest),
        Err(e) => e,
    }
}

fn span(start: u32, end: u32) -> Span {
    Span {
        start: Pos(start),
        end: Pos(end),
    }
}

#[test]
fn invalid_digit_has_exact_span() {
    assert_eq!(
        parse_err("0b12", 10),
        (ParseError::InvalidDigit(Binary, '2'), span(13, 14))
    );
    assert_eq!(
        parse_err("-0o178", 1),
        (ParseError::InvalidDigit(Octal, '8'), span(6, 7))
    );
    assert_eq!(
        parse_err("0b019", 100),
        (ParseError::InvalidDigit(Binary, '9'), span(104, 105))
    );
}

#[test]
fn point_after_prefixed_number() {
    assert_eq!(
        parse_err("0x1f.5", 1),
        (ParseError::UnexpectedPoint(Hexadecimal), span(5, 6))
    );
    assert_eq!(
        parse_err("+0b1.", 20),
        (ParseError::UnexpectedPoint(Binary), span(24, 25))
    );
}

#[test]
fn second_point() {
    assert_eq!(parse_err("1.2.3", 1), (ParseError::ExtraPoint, span(4, 5)));
    assert_eq!(parse_err("..", 7), (ParseError::ExtraPoint, span(8, 9)));
    assert_eq!(parse_err("-1..", 1), (ParseError::ExtraPoint, span(4, 5)));
}

#[test]
fn no_digits() {
    assert_eq!(parse_err("", 5), (ParseError::NoDigits, span(5, 5)));
    assert_eq!(parse_err("abc", 5), (ParseError::NoDigits, span(5, 8)));
    assert_eq!(parse_err(".", 5), (ParseError::NoDigits, span(5, 6)));
    assert_eq!(parse_err("-", 5), (ParseError::NoDigits, span(6, 6)));
    assert_eq!(parse_err("+x", 5), (ParseError::NoDigits, span(6, 7)));
    assert_eq!(parse_err(".e5", 1), (ParseError::NoDigits, span(1, 4)));
}

#[test]
fn no_digits_after_prefix() {
    let mut num = ParsedNumber::new();
    let text = b"0xg";
    assert_eq!(
        num.parse_int(Hexadecimal, text, 2, span(1, 4)),
        Err((ParseError::NoDigits, span(3, 4)))
    );
    assert_eq!(
        num.parse_int(Octal, b"0o", 2, span(1, 3)),
        Err((ParseError::NoDigits, span(3, 3)))
    );
}

#[test]
fn exponent_without_value() {
    assert_eq!(parse_err("1e", 1), (ParseError::NoExponentValue, span(2, 3)));
    assert_eq!(parse_err("1e+", 1), (ParseError::NoExponentValue, span(2, 4)));
    assert_eq!(parse_err("1E-x", 1), (ParseError::NoExponentValue, span(2, 4)));
    assert_eq!(parse_err("2.5em", 10), (ParseError::NoExponentValue, span(13, 14)));
    assert_eq!(parse_err("-7e", 1), (ParseError::NoExponentValue, span(3, 4)));
}

fn parsed(input: &str) -> (ParsedNumber, String) {
    let mut num = ParsedNumber::new();
    let rest = match num.parse(input, span_of(1, input)) {
        Ok(rest) => rest.to_string(),
        Err((e, _)) => panic!("{:?}: {:?}", input, e),
    };
    (num, rest)
}

#[test]
fn prefixed_number_stops_at_other_characters() {
    let (num, rest) = parsed("0x1fg");
    assert_eq!(num.radix, Hexadecimal);
    assert_eq!(num.digits, vec![15, 1]);
    assert_eq!(rest, "g");
    let (num, rest) = parsed("0b101abc");
    assert_eq!(num.radix, Binary);
    assert_eq!(num.digits, vec![1, 0, 1]);
    assert_eq!(rest, "abc");
    let (num, rest) = parsed("0o17 ");
    assert_eq!(num.radix, Octal);
    assert_eq!(num.digits, vec![7, 1]);
    assert_eq!(rest, " ");
    let (num, rest) = parsed("0x10e5");
    assert_eq!(num.digits, vec![5, 14, 0, 1]);
    assert_eq!(num.exponent, None);
    assert_eq!(rest, "");
}

#[test]
fn prefix_needs_a_digit_of_its_radix() {
    let (num, rest) = parsed("0b2");
    assert_eq!(num.radix, Decimal);
    assert_eq!(num.digits, vec![0]);
    assert_eq!(rest, "b2");
    let (num, rest) = parsed("0o8");
    assert_eq!(num.radix, Decimal);
    assert_eq!(num.digits, vec![0]);
    assert_eq!(rest, "o8");
    let (num, rest) = parsed("-0Xg");
    assert_eq!(num.sign, Negative);
    assert_eq!(num.radix, Decimal);
    assert_eq!(rest, "Xg");
}

#[test]
fn case_of_letters_does_not_matter() {
    for &(upper, lower) in [
        ("0X1F", "0x1f"),
        ("0XABCDEF", "0xabcdef"),
        ("0B101", "0b101"),
        ("0O17", "0o17"),
        ("1E5", "1e5"),
        ("2.5E-3", "2.5e-3"),
    ]
    .iter()
    {
        let (a, rest_a) = parsed(upper);
        let (b, rest_b) = parsed(lower);
        assert_eq!(a.sign, b.sign);
        assert_eq!(a.radix, b.radix);
        assert_eq!(a.digits, b.digits);
        assert_eq!(a.exponent, b.exponent);
        assert_eq!(rest_a, rest_b);
    }
    let (mixed, _) = parsed("0x1F");
    assert_eq!(mixed.digits, vec![15, 1]);
    assert_eq!(
        parse_err("0B12", 1),
        (ParseError::InvalidDigit(Binary, '2'), span(4, 5))
    );
}

#[test]
fn fraction_lowers_exponent() {
    let (num, _) = parsed("1.23");
    assert_eq!(num.digits, vec![3, 2, 1]);
    assert_eq!(num.exponent, Some(-2));
    let (num, _) = parsed("1.2e3");
    assert_eq!(num.digits, vec![2, 1]);
    assert_eq!(num.exponent, Some(2));
    let (num, _) = parsed("5.6e-3");
    assert_eq!(num.digits, vec![6, 5]);
    assert_eq!(num.exponent, Some(-4));
    let (num, _) = parsed("-.125E+2");
    assert_eq!(num.sign, Negative);
    assert_eq!(num.digits, vec![5, 2, 1]);
    assert_eq!(num.exponent, Some(-1));
}

#[test]
fn exponent_saturates() {
    let (num, _) = parsed("1e2147483647");
    assert_eq!(num.exponent, Some(i32::MAX));
    let (num, _) = parsed("1e2147483648");
    assert_eq!(num.exponent, Some(i32::MAX));
    let (num, _) = parsed("1e99999999999999999999");
    assert_eq!(num.exponent, Some(i32::MAX));
    let (num, _) = parsed("1e-2147483647");
    assert_eq!(num.exponent, Some(-2147483647));
    let (num, _) = parsed("1e-2147483648");
    assert_eq!(num.exponent, Some(i32::MIN));
    let (num, _) = parsed("1e-99999999999999999999");
    assert_eq!(num.exponent, Some(i32::MIN));
    // An exponent at an end of the range is kept as it is.
    let (num, _) = parsed("1.5e99999999999");
    assert_eq!(num.exponent, Some(i32::MAX));
    let (num, _) = parsed("1.5e2147483646");
    assert_eq!(num.exponent, Some(2147483645));
    let (num, _) = parsed("1.55e-2147483646");
    assert_eq!(num.exponent, Some(i32::MIN));
    let (num, _) = parsed("1.5e-2147483647");
    assert_eq!(num.exponent, Some(i32::MIN));
}

#[test]
fn bias_of_the_exponent() {
    assert_eq!(bias_exponent(None, None), None);
    assert_eq!(bias_exponent(Some(7), None), Some(7));
    assert_eq!(bias_exponent(None, Some(0)), Some(0));
    assert_eq!(bias_exponent(None, Some(3)), Some(-3));
    assert_eq!(bias_exponent(Some(3), Some(1)), Some(2));
    assert_eq!(bias_exponent(Some(i32::MAX), Some(5)), Some(i32::MAX));
    assert_eq!(bias_exponent(Some(i32::MIN), Some(5)), Some(i32::MIN));
    assert_eq!(bias_exponent(Some(i32::MIN + 2), Some(5)), Some(i32::MIN));
    assert_eq!(bias_exponent(Some(5), Some(1usize << 31)), Some(i32::MIN));
    assert_eq!(bias_exponent(None, Some(1usize << 31)), Some(i32::MIN));
}

#[test]
fn exponent_alone() {
    let pos = span(1, 8);
    assert_eq!(parse_exponent(b"12e+5ms", 2, pos), Ok((Some(5), 5)));
    assert_eq!(parse_exponent(b"12e+5ms", 0, pos), Ok((None, 0)));
    assert_eq!(parse_exponent(b"12E-05", 2, pos), Ok((Some(-5), 6)));
    assert_eq!(parse_exponent(b"12", 2, pos), Ok((None, 2)));
    assert_eq!(
        parse_exponent(b"12e-", 2, pos),
        Err((ParseError::NoExponentValue, span(3, 5)))
    );
}

#[test]
fn bytes_and_text_agree() {
    let mut num = ParsedNumber::new();
    assert_eq!(num.parse_bytes(b"-0x1f ", span(1, 7)), Ok(5));
    assert_eq!(num.sign, Negative);
    assert_eq!(num.radix, Hexadecimal);
    assert_eq!(num.digits, vec![15, 1]);
    assert_eq!(num.parse_bytes(b"12\xff", span(1, 4)), Ok(2));
    assert_eq!(num.digits, vec![2, 1]);
    assert_eq!(num.parse_dec(b"x1.5e1", 1, span(1, 7)), Ok(6));
    assert_eq!(num.digits, vec![5, 1]);
    assert_eq!(num.exponent, Some(0));
}

#[test]
fn rest_may_hold_any_character() {
    let mut num = ParsedNumber::new();
    let input = "12\u{b5}V";
    assert_eq!(num.parse(input, span_of(1, input)), Ok("\u{b5}V"));
    let input = "0x1f\u{20ac}";
    assert_eq!(num.parse(input, span_of(1, input)), Ok("\u{20ac}"));
    let input = "\u{663}";
    assert_eq!(
        num.parse(input, span_of(1, input)),
        Err((ParseError::NoDigits, span(1, 3)))
    );
}

#[test]
fn number_is_reused() {
    let mut num = ParsedNumber::new();
    assert_eq!(num.parse("-1.5e3", span(1, 7)), Ok(""));
    assert_eq!(num.parse("0b1", span(1, 4)), Ok(""));
    assert_eq!(num.sign, Positive);
    assert_eq!(num.radix, Binary);
    assert_eq!(num.digits, vec![1]);
    assert_eq!(num.exponent, None);
}

#[test]
fn new_is_empty() {
    let num = ParsedNumber::new();
    assert_eq!(num.sign, Positive);
    assert_eq!(num.radix, Decimal);
    assert!(num.digits.is_empty());
    assert_eq!(num.exponent, None);
    assert_eq!(num.integer(), Ok(0));
}

fn number(sign: Sign, radix: Radix, digits: &[u8], exponent: Option<i32>) -> ParsedNumber {
    let mut num = ParsedNumber::new();
    num.sign = sign;
    num.radix = radix;
    num.digits = digits.to_vec();
    num.exponent = exponent;
    num
}

#[test]
fn trim_integer_keeps_low_zeros() {
    let mut num = number(Positive, Decimal, &[0, 0, 1, 2, 0, 0], None);
    num.trim();
    assert_eq!(num.digits, vec![0, 0, 1, 2]);
    assert_eq!(num.exponent, None);
    assert_eq!(num.integer(), Ok(2100));
}

#[test]
fn trim_with_exponent_drops_both() {
    let mut num = number(Negative, Decimal, &[0, 0, 1, 2, 0, 0], Some(-3));
    num.trim();
    assert_eq!(num.sign, Negative);
    assert_eq!(num.digits, vec![1, 2]);
    assert_eq!(num.exponent, Some(-1));
    let mut num = number(Positive, Decimal, &[0, 5], Some(i32::MAX));
    num.trim();
    assert_eq!(num.digits, vec![5]);
    assert_eq!(num.exponent, Some(i32::MAX));
}

#[test]
fn trim_twice_is_trim_once() {
    for &(digits, exponent) in [
        (&[0u8, 0, 1, 2, 0, 0][..], Some(4)),
        (&[0, 0, 1, 2, 0, 0][..], None),
        (&[0, 0, 0][..], Some(-2)),
        (&[][..], None),
        (&[7][..], Some(0)),
    ]
    .iter()
    {
        let mut once = number(Negative, Decimal, digits, exponent);
        once.trim();
        let mut twice = once.clone();
        twice.trim();
        assert_eq!(once.sign, twice.sign);
        assert_eq!(once.radix, twice.radix);
        assert_eq!(once.digits, twice.digits);
        assert_eq!(once.exponent, twice.exponent);
    }
}

#[test]
fn trim_zero() {
    let (mut num, _) = parsed("-0.000");
    num.trim();
    assert_eq!(num.sign, Negative);
    assert!(num.digits.is_empty());
    assert_eq!(num.exponent, Some(-3));
    let (mut num, _) = parsed("-0x000");
    num.trim();
    assert_eq!(num.sign, Negative);
    assert_eq!(num.radix, Hexadecimal);
    assert!(num.digits.is_empty());
    assert_eq!(num.integer(), Ok(0));
}

#[test]
fn make_integer_edges() {
    assert_eq!(make_integer(Positive, Decimal, &[]), Some(0));
    assert_eq!(make_integer(Negative, Decimal, &[]), Some(0));
    assert_eq!(make_integer(Positive, Decimal, &[3, 2, 1]), Some(123));
    assert_eq!(make_integer(Negative, Hexadecimal, &[15, 15]), Some(-255));
    assert_eq!(make_integer(Positive, Binary, &[0, 1]), Some(2));
    // Leading zeros do not overflow.
    let mut digits = vec![1u8; 63];
    digits.extend_from_slice(&[0; 40]);
    assert_eq!(make_integer(Positive, Binary, &digits), Some(i64::MAX));
    digits[63] = 1;
    assert_eq!(make_integer(Positive, Binary, &digits), None);
}

#[test]
fn float_parts_of_short_numbers() {
    let (num, _) = parsed("1.5");
    assert_eq!(
        num.float_parts(),
        FloatParts {
            sign: Positive,
            magnitude: Magnitude::Scaled {
                mantissa: 15,
                exponent: -1
            }
        }
    );
    let (num, _) = parsed("-99999e22");
    assert_eq!(
        num.float_parts(),
        FloatParts {
            sign: Negative,
            magnitude: Magnitude::Scaled {
                mantissa: 99999,
                exponent: 22
            }
        }
    );
    let (num, _) = parsed("42");
    assert_eq!(
        num.float_parts(),
        FloatParts {
            sign: Positive,
            magnitude: Magnitude::Scaled {
                mantissa: 42,
                exponent: 0
            }
        }
    );
}

#[test]
fn float_parts_without_digits() {
    let num = number(Negative, Decimal, &[], Some(400));
    assert_eq!(
        num.float_parts(),
        FloatParts {
            sign: Positive,
            magnitude: Magnitude::Zero
        }
    );
    assert_eq!(to_f64(num.float_parts()), 0.0);
    assert!(to_f64(num.float_parts()).is_sign_positive());
}

#[test]
fn float_saturates() {
    assert_eq!(parse_float("1e308"), f64::INFINITY);
    assert_eq!(parse_float("1e5000"), f64::INFINITY);
    assert_eq!(parse_float("-1e308"), f64::NEG_INFINITY);
    assert_eq!(parse_float("0e308"), f64::INFINITY);
    let large = parse_float("1e307");
    assert!(large.is_finite());
    assert!((large / 1e307 - 1.0).abs() < 1e-14);
    let small = parse_float("1e-342");
    assert!(small >= 0.0);
    assert!(small < 1e-300);
    assert_eq!(parse_float("1e23"), 1e23);
    assert_eq!(parse_float("1e-343"), 0.0);
    assert_eq!(parse_float("9223372036854775807e-343"), 0.0);
    assert_eq!(parse_float("1e-5000"), 0.0);
    assert!(parse_float("-1e-343").is_sign_negative());
    assert_eq!(parse_float("-1e-343"), 0.0);
    let (num, _) = parsed("1e-342");
    assert_eq!(
        num.float_parts().magnitude,
        Magnitude::Scaled {
            mantissa: 1,
            exponent: -342
        }
    );
    // The point moves the edge: 10.0e307 has the exponent 306.
    let (num, _) = parsed("10.0e307");
    assert_eq!(
        num.float_parts().magnitude,
        Magnitude::Scaled {
            mantissa: 100,
            exponent: 306
        }
    );
}

#[test]
fn float_keeps_nineteen_digits() {
    let (num, _) = parsed("9999999999999999999");
    assert_eq!(
        num.float_parts().magnitude,
        Magnitude::Scaled {
            mantissa: 9999999999999999999,
            exponent: 0
        }
    );
    let (num, _) = parsed("12345678901234567890123");
    assert_eq!(
        num.float_parts().magnitude,
        Magnitude::Scaled {
            mantissa: 1234567890123456789,
            exponent: 4
        }
    );
    let (num, _) = parsed("1.2345678901234567890123");
    assert_eq!(
        num.float_parts().magnitude,
        Magnitude::Scaled {
            mantissa: 1234567890123456789,
            exponent: -18
        }
    );
    assert_eq!(parse_float("1.2345678901234567890123"), 1.2345678901234567);
    let (num, _) = parsed("10000000000000000000000e304");
    assert_eq!(num.float_parts().magnitude, Magnitude::Infinite);
}

#[test]
fn number_to_string() {
    for &(input, expected) in [
        ("0", "0"),
        ("+12", "12"),
        ("-25", "-25"),
        ("0XABCDEF", "0xabcdef"),
        ("-0b0110", "-0b0110"),
        ("0O777", "0o777"),
        ("1.", "1e+0"),
        (".9", "9e-1"),
        ("1.2e3", "12e+2"),
        ("5.6e-3", "56e-4"),
        ("1e99999999999", "1e+2147483647"),
        ("1e-99999999999", "1e-2147483648"),
        ("7E10", "7e+10"),
    ]
    .iter()
    {
        let (num, _) = parsed(input);
        assert_eq!(num.to_string(), expected);
    }
    assert_eq!(number(Negative, Hexadecimal, &[], None).to_string(), "-0x0");
    assert_eq!(number(Positive, Decimal, &[], Some(-5)).to_string(), "0e-5");
}

#[test]
fn error_to_string() {
    assert_eq!(
        ParseError::InvalidDigit(Binary, '2').to_string(),
        "invalid digit for base 2: '2'"
    );
    assert_eq!(
        ParseError::InvalidDigit(Octal, '9').to_string(),
        "invalid digit for base 8: '9'"
    );
    assert_eq!(ParseError::ExtraPoint.to_string(), "unexpected extra '.'");
    assert_eq!(
        ParseError::UnexpectedPoint(Hexadecimal).to_string(),
        "non-integers not supported in base 16"
    );
    assert_eq!(
        ParseError::UnexpectedPoint(Decimal).to_string(),
        "non-integers not supported in base 10"
    );
    assert_eq!(
        ParseError::UnexpectedChar('\n').to_string(),
        "unexpected character '\\n'"
    );
    assert_eq!(
        ParseError::UnexpectedChar('q').to_string(),
        "unexpected character 'q'"
    );
    assert_eq!(ParseError::NoDigits.to_string(), "number has no digits");
    assert_eq!(
        ParseError::NoExponentValue.to_string(),
        "missing exponent value"
    );
    assert_eq!(
        ParseError::IntegerTooLarge.to_string(),
        "integer is too large for 64 bits"
    );
}

#[test]
fn error_described_with_given_text() {
    assert_eq!(
        ParseError::InvalidDigit(Octal, '8').describe("<8>"),
        "invalid digit for base 8: <8>"
    );
    assert_eq!(
        ParseError::UnexpectedChar('x').describe("U+0078"),
        "unexpected character U+0078"
    );
    assert_eq!(ParseError::NoDigits.describe("unused"), "number has no digits");
}

#[test]
fn radix_values() {
    assert_eq!(Binary.value(), 2);
    assert_eq!(Octal.value(), 8);
    assert_eq!(Decimal.value(), 10);
    assert_eq!(Hexadecimal.value(), 16);
}

#[test]
fn what_is_taken_is_the_longest_literal() {
    for &input in ["12V", "0x1fg", "1.5e3ms", "-0b101.", "7e5e", "0oct", "+.5x"].iter() {
        let mut num = ParsedNumber::new();
        let whole = num.parse_bytes(input.as_bytes(), span_of(1, input));
        let end = match whole {
            Ok(end) => end,
            Err(_) => continue,
        };
        let digits = num.digits.clone();
        let exponent = num.exponent;
        for cut in end..=input.len() {
            let piece = &input.as_bytes()[..cut];
            assert_eq!(num.parse_bytes(piece, span_of(1, input)), Ok(end));
            assert_eq!(num.digits, digits);
            assert_eq!(num.exponent, exponent);
        }
    }
}

#[test]
fn error_span_stays_in_range() {
    let mut num = ParsedNumber::new();
    let far = Span {
        start: Pos(u32::MAX - 2),
        end: Pos(u32::MAX),
    };
    assert_eq!(
        num.parse("0b12", far),
        Err((
            ParseError::InvalidDigit(Binary, '2'),
            span(u32::MAX, u32::MAX)
        ))
    );
    assert_eq!(
        num.parse("1..", far),
        Err((ParseError::ExtraPoint, span(u32::MAX, u32::MAX)))
    );
    assert_eq!(
        num.parse("x", far),
        Err((ParseError::NoDigits, span(u32::MAX - 2, u32::MAX)))
    );
}

#[test]
fn what_is_written_parses_back() {
    for num in [
        number(Positive, Decimal, &[3, 2, 1], None),
        number(Negative, Decimal, &[0], None),
        number(Positive, Decimal, &[0, 0], Some(0)),
        number(Negative, Decimal, &[6, 5], Some(-4)),
        number(Positive, Decimal, &[1], Some(i32::MAX)),
        number(Positive, Decimal, &[1], Some(i32::MIN)),
        number(Positive, Decimal, &[0, 1], Some(-2147483647)),
        number(Positive, Binary, &[0, 1, 1, 0], None),
        number(Negative, Octal, &[7, 0], None),
        number(Positive, Hexadecimal, &[14, 11, 0, 15, 0], None),
    ]
    .iter()
    {
        let text = num.to_string();
        let mut back = ParsedNumber::new();
        assert_eq!(back.parse(&text, span_of(1, &text)), Ok(""));
        assert_eq!(back.sign, num.sign);
        assert_eq!(back.radix, num.radix);
        assert_eq!(back.digits, num.digits);
        assert_eq!(back.exponent, num.exponent);
    }
}
