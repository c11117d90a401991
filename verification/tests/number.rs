use gcad_webview::gcode::number::{append_decimal, parse_integer, Decimal, GcodeNumber};
use gcad_webview::gcode::parser::ParserErrorReason;

fn chars_of(text: &str) -> Vec<char> {
    text.chars().collect()
}

/// What the two number parsers of the standard library make of a text:
/// the integer first, else the float.
fn by_std(text: &str) -> Option<Result<i64, f64>> {
    if let Ok(i) = text.parse::<i64>() {
        Some(Ok(i))
    } else if let Ok(f) = text.parse::<f64>() {
        Some(Err(f))
    } else {
        None
    }
}

fn by_library(text: &str) -> Option<Result<i64, f64>> {
    match GcodeNumber::from_chars(&chars_of(text)) {
        Ok(GcodeNumber::Int(i)) => Some(Ok(i)),
        Ok(GcodeNumber::Float(d)) => {
            let kept: String = d.as_slice().iter().collect();
            assert_eq!(kept, text);
            Some(Err(kept.parse::<f64>().unwrap()))
        },
        Err(reason) => {
            assert_eq!(reason, ParserErrorReason::ExpectedNumber);
            None
        },
    }
}

#[test]
fn integers_are_read() {
    assert_eq!(parse_integer(&chars_of("0")), Some(0));
    assert_eq!(parse_integer(&chars_of("10")), Some(10));
    assert_eq!(parse_integer(&chars_of("-10")), Some(-10));
    assert_eq!(parse_integer(&chars_of("0042")), Some(42));
    assert_eq!(parse_integer(&chars_of("-0")), Some(0));
    assert_eq!(parse_integer(&chars_of("9223372036854775807")), Some(i64::MAX));
    assert_eq!(parse_integer(&chars_of("-9223372036854775808")), Some(i64::MIN));
    assert_eq!(parse_integer(&chars_of("00000000000000000000000000000000000000012")), Some(12));
}

#[test]
fn what_is_no_integer_is_not_read_as_one() {
    for text in ["", "-", "1.0", ".", "1-", "--1", "+1", "1e3", " 1", "1 ", "x", "٣"] {
        assert_eq!(parse_integer(&chars_of(text)), None, "{:?}", text);
    }
}

#[test]
fn integers_out_of_range_are_not_read_as_integers() {
    for text in [
        "9223372036854775808",
        "-9223372036854775809",
        "18446744073709551616",
        "99999999999999999999999999999999",
        "-99999999999999999999999999999999",
    ] {
        assert_eq!(parse_integer(&chars_of(text)), None, "{:?}", text);
    }
}

#[test]
fn decimals_are_kept_as_written() {
    for text in ["1.5", "-1.5", ".5", "5.", "-.5", "-5.", "0", "-0", "123", "1234567890123456789012345.5"] {
        let literal = Decimal::new(&chars_of(text)).unwrap();
        assert_eq!(literal.as_slice(), chars_of(text).as_slice());
        assert_eq!(literal.clone().as_slice(), chars_of(text).as_slice());
    }
}

#[test]
fn what_is_no_decimal_is_not_kept() {
    for text in ["", "-", ".", "-.", "1.2.3", "--1", "1-", "+1", "1e3", "inf", "nan", " 1", "1,5"] {
        assert!(Decimal::new(&chars_of(text)).is_none(), "{:?}", text);
    }
}

#[test]
fn numbers_are_integers_first() {
    assert!(matches!(GcodeNumber::from_str("10"), Ok(GcodeNumber::Int(10))));
    assert!(matches!(GcodeNumber::from_str("-3"), Ok(GcodeNumber::Int(-3))));
    assert!(matches!(GcodeNumber::from_str("10.0"), Ok(GcodeNumber::Float(_))));
    assert!(matches!(GcodeNumber::from_str("9223372036854775808"), Ok(GcodeNumber::Float(_))));
    assert!(matches!(GcodeNumber::from_str(""), Err(ParserErrorReason::ExpectedNumber)));
    assert!(matches!(GcodeNumber::from_str("1.2.3"), Err(ParserErrorReason::ExpectedNumber)));
    assert!(matches!(GcodeNumber::from_str("abc"), Err(ParserErrorReason::ExpectedNumber)));
}

#[test]
fn from_str_and_from_chars_agree() {
    for text in ["", "1", "-1", "1.5", "-", ".", "12345678901234567890", "1.2.3"] {
        let a = GcodeNumber::from_str(text);
        let b = GcodeNumber::from_chars(&chars_of(text));
        match (a, b) {
            (Ok(GcodeNumber::Int(x)), Ok(GcodeNumber::Int(y))) => assert_eq!(x, y),
            (Ok(GcodeNumber::Float(x)), Ok(GcodeNumber::Float(y))) => {
                assert_eq!(x.as_slice(), y.as_slice())
            },
            (Err(x), Err(y)) => assert_eq!(x, y),
            _ => panic!("the two readings of {:?} differ", text),
        }
    }
}

#[test]
fn a_copy_of_a_number_is_the_number() {
    let int = GcodeNumber::from_str("42").unwrap();
    assert!(matches!(int.clone(), GcodeNumber::Int(42)));
    let decimal = GcodeNumber::from_str("-4.25").unwrap();
    match (decimal.clone(), decimal) {
        (GcodeNumber::Float(a), GcodeNumber::Float(b)) => assert_eq!(a.as_slice(), b.as_slice()),
        _ => panic!("a copy changed the kind of the number"),
    }
}

/// Every text of up to five number characters is read as the standard
/// library reads it.
#[test]
fn numbers_are_read_as_the_standard_library_reads_them() {
    let alphabet = ['0', '7', '9', '.', '-'];
    let mut texts: Vec<String> = vec![String::new()];
    let mut last: Vec<String> = vec![String::new()];
    for _ in 0..5 {
        let mut next = Vec::new();
        for text in &last {
            for c in alphabet {
                let mut longer = text.clone();
                longer.push(c);
                next.push(longer);
            }
        }
        texts.extend(next.iter().cloned());
        last = next;
    }
    assert_eq!(texts.len(), 1 + 5 + 25 + 125 + 625 + 3125);
    let mut integers = 0;
    let mut decimals = 0;
    for text in &texts {
        let expected = by_std(text);
        assert_eq!(by_library(text), expected, "{:?}", text);
        match expected {
            Some(Ok(_)) => integers += 1,
            Some(Err(_)) => decimals += 1,
            None => {},
        }
    }
    assert!(integers > 0 && decimals > 0);
}

#[test]
fn long_numbers_are_read_as_the_standard_library_reads_them() {
    for text in [
        "9223372036854775807",
        "9223372036854775808",
        "-9223372036854775808",
        "-9223372036854775809",
        "000000000000000000000000000009223372036854775807",
        "123456789012345678901234567890",
        "0.000000000000000000000000000000000000000001",
        "-123456789.123456789",
        "179769313486231570000000000000000000000000000000000000000000000000000000000000000000000000000000000000000000000000000000000000000000000000000000000000000000000000000000000000000000000000000000000000000000000000000000000000000000000000000000000000000000000000000000000000000000000000000000000000000000000000000",
    ] {
        assert_eq!(by_library(text), by_std(text), "{:?}", text);
    }
}

#[test]
fn numbers_are_written_in_decimal() {
    for n in [0usize, 1, 9, 10, 11, 99, 100, 101, 12345, 1000000, usize::MAX] {
        let mut text = String::from("line ");
        append_decimal(&mut text, n);
        assert_eq!(text, format!("line {}", n));
        assert_eq!(parse_integer(&chars_of(&text[5..])), i64::try_from(n).ok());
    }
}
