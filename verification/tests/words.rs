//! Words, separators, marks, and the values in front of them.

use suricata_rule_parser::{
    end_of_options, nom_message, option_name, options_separator, parse_direction, parse_end_quote,
    parse_option_value, parse_tag, parse_token, start_of_options, take_until_whitespace, Direction,
    ErrorKind, IResult, LeafError, NomErrorKind, ParseError, Rejection,
};

fn rejected<T>(kind: ErrorKind, input: &str) -> IResult<&str, T, ParseError<&str>> {
    Err(Rejection::Error(ParseError { kind, input }))
}

#[test]
fn word_is_rejected_where_there_is_none() {
    let kind = ErrorKind::Nom(NomErrorKind::IsNot);
    assert_eq!(take_until_whitespace(""), rejected(kind.clone(), ""));
    assert_eq!(take_until_whitespace(" \t\r\n"), rejected(kind, ""));
}

#[test]
fn word_may_hold_other_white_space() {
    assert_eq!(take_until_whitespace(" a\u{a0}b\u{b}c\u{2003}d e"), Ok((" e", "a\u{a0}b\u{b}c\u{2003}d")));
    assert_eq!(take_until_whitespace("\u{a0}a"), Ok(("", "\u{a0}a")));
}

#[test]
fn word_of_several_byte_characters() {
    assert_eq!(take_until_whitespace("\t\u{e9}\u{1f600}\u{4e2d} x"), Ok((" x", "\u{e9}\u{1f600}\u{4e2d}")));
}

#[test]
fn token_ends_at_each_terminator() {
    for end in ["\n", "\r", "\t", ",", ";", ":", " "] {
        let input = format!("  tok{}rest", end);
        let rest = format!("{}rest", end);
        assert_eq!(parse_token(&input), Ok((rest.as_str(), "tok")));
    }
    assert_eq!(parse_token("tok"), Ok(("", "tok")));
    assert_eq!(parse_token("a.b-c/d"), Ok(("", "a.b-c/d")));
}

#[test]
fn token_is_rejected_at_a_terminator() {
    let kind = ErrorKind::Nom(NomErrorKind::IsNot);
    assert_eq!(parse_token("  ,a"), rejected(kind.clone(), ",a"));
    assert_eq!(parse_token(":a"), rejected(kind.clone(), ":a"));
    assert_eq!(parse_token(""), rejected(kind, ""));
}

#[test]
fn option_name_ends_at_semicolon_or_colon() {
    assert_eq!(option_name(" msg:\"x\";"), Ok((":\"x\";", "msg")));
    assert_eq!(option_name("nocase;"), Ok((";", "nocase")));
    assert_eq!(option_name("a b, c"), Ok(("", "a b, c")));
    assert_eq!(option_name(" ;"), rejected(ErrorKind::Nom(NomErrorKind::IsNot), ";"));
}

#[test]
fn separator_is_semicolon_or_colon() {
    assert_eq!(options_separator(" ;x"), Ok(("x", ';')));
    assert_eq!(options_separator(":x"), Ok(("x", ':')));
    assert_eq!(options_separator(" x"), rejected(ErrorKind::Nom(NomErrorKind::OneOf), "x"));
    assert_eq!(options_separator(""), rejected(ErrorKind::Nom(NomErrorKind::OneOf), ""));
}

#[test]
fn tag_is_found_behind_spaces() {
    let arrow = parse_tag("=>");
    assert_eq!(arrow(" \t=> x"), Ok((" x", "=>")));
    assert_eq!(arrow("=>=>"), Ok(("=>", "=>")));
    assert_eq!(arrow(" =x"), rejected(ErrorKind::Nom(NomErrorKind::Tag), "=x"));
    assert_eq!(arrow("="), rejected(ErrorKind::Nom(NomErrorKind::Tag), "="));
    let empty = parse_tag("");
    assert_eq!(empty("  a"), Ok(("a", "")));
    let accented = parse_tag("\u{e9}t\u{e9}");
    assert_eq!(accented(" \u{e9}t\u{e9}!"), Ok(("!", "\u{e9}t\u{e9}")));
}

#[test]
fn options_are_in_parentheses() {
    assert_eq!(start_of_options(" (msg"), Ok(("msg", "(")));
    assert_eq!(start_of_options(" msg"), rejected(ErrorKind::Nom(NomErrorKind::Tag), "msg"));
    assert_eq!(end_of_options("\n) #"), Ok((" #", ")")));
    assert_eq!(
        end_of_options(" msg"),
        Err(Rejection::Error(LeafError { input: "msg", code: NomErrorKind::Tag }))
    );
}

#[test]
fn end_quote_is_found_behind_spaces() {
    assert_eq!(parse_end_quote("  \";"), Ok((";", "\"")));
    assert_eq!(parse_end_quote("\"\""), Ok(("\"", "\"")));
    assert_eq!(parse_end_quote(" x\""), rejected(ErrorKind::Nom(NomErrorKind::Tag), "x\""));
}

#[test]
fn direction_is_an_arrow_at_the_start() {
    assert_eq!(parse_direction("-> any"), Ok((" any", Direction::Single)));
    assert_eq!(parse_direction("<>any"), Ok(("any", Direction::Both)));
    for input in ["", "-", "<", ">", "<-", " ->", "=>"] {
        assert_eq!(parse_direction(input), rejected(ErrorKind::Invalid, input));
    }
}

#[test]
fn option_value_keeps_escaped_terminators() {
    assert_eq!(parse_option_value(r"a\;b;c"), Ok(("c", r"a\;b")));
    assert_eq!(parse_option_value(";"), Ok(("", "")));
    assert_eq!(parse_option_value("\u{e9}\u{4e2d};\u{e9}"), Ok(("\u{e9}", "\u{e9}\u{4e2d}")));
    // A backslash escapes what follows, even behind another backslash.
    assert_eq!(parse_option_value(r"a\\;b;c"), Ok(("c", r"a\\;b")));
    assert_eq!(parse_option_value(r"a\b;c"), Ok(("c", r"a\b")));
}

#[test]
fn option_value_without_terminator_is_rejected() {
    assert_eq!(
        parse_option_value("  value"),
        rejected(ErrorKind::UnterminatedRuleOptionValue, "value")
    );
    assert_eq!(parse_option_value(""), rejected(ErrorKind::UnterminatedRuleOptionValue, ""));
    assert_eq!(parse_option_value(r"a\;"), rejected(ErrorKind::UnterminatedRuleOptionValue, r"a\;"));
}

#[test]
fn messages_of_errors() {
    assert_eq!(ErrorKind::UnterminatedArray.message(), "unterminated array");
    assert_eq!(ErrorKind::UnterminatedRuleOptionValue.message(), "unterminated rule option value");
    assert_eq!(ErrorKind::BadNumber.message(), "bad number");
    assert_eq!(ErrorKind::UnexpectedCharacter.message(), "unexpected character");
    assert_eq!(ErrorKind::Invalid.message(), "invalid");
    assert_eq!(ErrorKind::Other("argument required").message(), "argument required");
    assert_eq!(ErrorKind::Nom(NomErrorKind::Tag).message(), "nom error: Tag");
    assert_eq!(ErrorKind::Nom(NomErrorKind::IsNot).message(), "nom error: IsNot");
    assert_eq!(ErrorKind::Nom(NomErrorKind::OneOf).message(), "nom error: OneOf");
    assert_eq!(ErrorKind::Nom(NomErrorKind::AlphaNumeric).message(), "nom error: AlphaNumeric");
    assert_eq!(ErrorKind::Nom(NomErrorKind::TakeUntil).message(), "nom error: Take until");
}

#[test]
fn message_of_any_parser_of_nom() {
    assert_eq!(nom_message("Many0"), "nom error: Many0");
    assert_eq!(nom_message(""), "nom error: ");
    assert_eq!(
        nom_message(nom::error::ErrorKind::SeparatedList.description()),
        "nom error: Separated list"
    );
}

#[test]
fn error_of_a_rejection() {
    let inner = ParseError::from_error_kind("x", NomErrorKind::Tag);
    assert_eq!(inner, ParseError { kind: ErrorKind::Nom(NomErrorKind::Tag), input: "x" });
    assert_eq!(ParseError::append("y", NomErrorKind::IsNot, inner.clone()), inner);
    assert_eq!(ParseError::from(Rejection::Error(inner.clone())), inner);
    assert_eq!(ParseError::from(Rejection::Failure(inner.clone())), inner);
}
