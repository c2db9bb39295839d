//! Numbers and references.

use std::fmt::Debug;

use suricata_rule_parser::{
    number_digits, number_or_name, number_result, parse_number, parse_number_or_reference,
    ErrorKind, IResult, Integer, NomErrorKind, NumberOrReference, ParseError, Rejection,
};

fn bad<T>(input: &str) -> IResult<&str, T, ParseError<&str>> {
    Err(Rejection::Error(ParseError { kind: ErrorKind::BadNumber, input }))
}

/// The texts of the least and the greatest value, those of the integers just outside, and
/// the greatest value in base sixteen.
fn check_range<T: Integer + PartialEq + Debug>(
    min: T,
    max: T,
    texts: [&str; 4],
    hex: &str,
) {
    let [below, least, greatest, above] = texts;
    assert_eq!(parse_number::<T>(least), Ok(("", min)));
    let (rest, value) = parse_number::<T>(greatest).unwrap();
    assert_eq!((rest, &value), ("", &max));
    let written = format!("  0x{},", hex);
    assert_eq!(parse_number::<T>(&written).unwrap(), (",", value));
    let upper = format!("0X{}", hex.to_uppercase());
    assert_eq!(parse_number::<T>(&upper), Ok(("", max)));
    assert_eq!(parse_number::<T>(below), bad(below));
    assert_eq!(parse_number::<T>(above), bad(above));
    let too_long = format!("0x{}0", hex);
    assert_eq!(parse_number::<T>(&too_long), bad(too_long.as_str()));
    assert_eq!(parse_number::<T>("0x"), bad("0x"));
    assert_eq!(parse_number::<T>("1g"), bad("1g"));
    assert_eq!(parse_number::<T>("0xg"), bad("0xg"));
}

#[test]
fn range_of_unsigned_numbers() {
    check_range::<u8>(u8::MIN, u8::MAX, ["-1", "0", "255", "256"], "ff");
    check_range::<u16>(u16::MIN, u16::MAX, ["-1", "0", "65535", "65536"], "ffff");
    check_range::<u32>(u32::MIN, u32::MAX, ["-1", "0", "4294967295", "4294967296"], "ffffffff");
    check_range::<u64>(
        u64::MIN,
        u64::MAX,
        ["-1", "0", "18446744073709551615", "18446744073709551616"],
        "ffffffffffffffff",
    );
    check_range::<u128>(
        u128::MIN,
        u128::MAX,
        [
            "-1",
            "0",
            "340282366920938463463374607431768211455",
            "340282366920938463463374607431768211456",
        ],
        "ffffffffffffffffffffffffffffffff",
    );
    let greatest = usize::MAX.to_string();
    let above = (usize::MAX as u128 + 1).to_string();
    let hex = format!("{:x}", usize::MAX);
    check_range::<usize>(usize::MIN, usize::MAX, ["-1", "0", &greatest, &above], &hex);
}

#[test]
fn range_of_signed_numbers() {
    check_range::<i8>(i8::MIN, i8::MAX, ["-129", "-128", "127", "128"], "7f");
    check_range::<i16>(i16::MIN, i16::MAX, ["-32769", "-32768", "32767", "32768"], "7fff");
    check_range::<i32>(
        i32::MIN,
        i32::MAX,
        ["-2147483649", "-2147483648", "2147483647", "2147483648"],
        "7fffffff",
    );
    check_range::<i64>(
        i64::MIN,
        i64::MAX,
        [
            "-9223372036854775809",
            "-9223372036854775808",
            "9223372036854775807",
            "9223372036854775808",
        ],
        "7fffffffffffffff",
    );
    check_range::<i128>(
        i128::MIN,
        i128::MAX,
        [
            "-170141183460469231731687303715884105729",
            "-170141183460469231731687303715884105728",
            "170141183460469231731687303715884105727",
            "170141183460469231731687303715884105728",
        ],
        "7fffffffffffffffffffffffffffffff",
    );
    let below = (isize::MIN as i128 - 1).to_string();
    let least = isize::MIN.to_string();
    let greatest = isize::MAX.to_string();
    let above = (isize::MAX as i128 + 1).to_string();
    let hex = format!("{:x}", isize::MAX);
    check_range::<isize>(isize::MIN, isize::MAX, [&below, &least, &greatest, &above], &hex);
}

#[test]
fn signs_of_numbers() {
    assert_eq!(parse_number::<u8>("+7"), Ok(("", 7)));
    assert_eq!(parse_number::<u8>("0x+7"), Ok(("", 7)));
    assert_eq!(parse_number::<u8>("-0"), bad("-0"));
    assert_eq!(parse_number::<i8>("-0"), Ok(("", 0)));
    assert_eq!(parse_number::<i8>("0x-7f"), Ok(("", -127)));
    for input in ["+", "-", "+-1", "--1", "0x+", "0x-", "-0x1", "\u{661}"] {
        assert_eq!(parse_number::<i64>(input), bad(input));
    }
}

#[test]
fn number_is_a_whole_token() {
    assert_eq!(parse_number::<u64>(" 10:x"), Ok((":x", 10)));
    assert_eq!(parse_number::<u64>("007;"), Ok((";", 7)));
    assert_eq!(parse_number::<u64>("10a b"), bad("10a"));
    assert_eq!(
        parse_number::<u64>(" ;"),
        Err(Rejection::Error(ParseError {
            kind: ErrorKind::Nom(NomErrorKind::IsNot),
            input: ";",
        }))
    );
}

#[test]
fn token_is_a_number_or_a_name() {
    assert_eq!(
        parse_number_or_reference::<u32>(" 0x10,x"),
        Ok((",x", NumberOrReference::Number(16)))
    );
    assert_eq!(
        parse_number_or_reference::<u32>(" len,x"),
        Ok((",x", NumberOrReference::Name("len".to_string())))
    );
    assert_eq!(
        parse_number_or_reference::<u8>("256"),
        Ok(("", NumberOrReference::Name("256".to_string())))
    );
    assert_eq!(
        parse_number_or_reference::<u8>(","),
        Err(Rejection::Error(ParseError {
            kind: ErrorKind::Nom(NomErrorKind::IsNot),
            input: ",",
        }))
    );
}

#[test]
fn base_and_digits_of_a_token() {
    assert_eq!(number_digits("0x1f"), (16, "1f"));
    assert_eq!(number_digits("0X"), (16, ""));
    assert_eq!(number_digits("00x1"), (10, "00x1"));
    assert_eq!(number_digits("0"), (10, "0"));
    assert_eq!(number_digits(""), (10, ""));
    assert_eq!(number_digits("x1"), (10, "x1"));
}

#[test]
fn result_of_a_number_read_elsewhere() {
    assert_eq!(number_result(",x", "1.5", "1.5".parse::<f64>().ok()), Ok((",x", 1.5)));
    assert_eq!(number_result(",x", "a", "a".parse::<f64>().ok()), bad("a"));
    assert_eq!(number_or_name("1.5", Some(1.5)), NumberOrReference::Number(1.5));
    assert_eq!(
        number_or_name("len", None::<f64>),
        NumberOrReference::Name("len".to_string())
    );
}

#[test]
fn numbers_read_back() {
    for n in -300i64..300 {
        let written = format!("{};", n);
        assert_eq!(parse_number::<i64>(&written), Ok((";", n)));
        if (-128..128).contains(&n) {
            assert_eq!(parse_number::<i8>(&written), Ok((";", n as i8)));
        } else {
            let name = n.to_string();
            assert_eq!(parse_number::<i8>(&written), bad(name.as_str()));
        }
        if n >= 0 {
            let hex = format!("0x{:x} ", n);
            assert_eq!(parse_number::<i64>(&hex), Ok((" ", n)));
        }
    }
}
