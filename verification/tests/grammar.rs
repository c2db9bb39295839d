//! The parsers against their grammar, written with the combinators of `nom`, on every short
//! text over the characters that matter to them.

use nom::branch::alt;
use nom::bytes::complete::{escaped_transform, is_not, tag, take_until, take_while};
use nom::character::complete::{alphanumeric1, multispace0, none_of, one_of};
use nom::combinator::{opt, rest};
use nom::multi::separated_list0;
use nom::sequence::{delimited, preceded, terminated, tuple};
use nom::IResult;

use suricata_rule_parser::{
    end_of_options, metadata, option_name, options_separator, parse_content, parse_direction,
    parse_end_quote, parse_flow, parse_flowbits, parse_isdataat, parse_number_or_reference,
    parse_pcre, parse_quoted_string, parse_reference, parse_tag, parse_token, start_of_options,
    take_until_whitespace, Content, Direction, ErrorKind, Flow, FlowbitCommand, Flowbits, IsDataAt,
    IsDataAtPosition, NumberOrReference, ParseError, Pcre, Reference, Rejection,
};

/// What remains and the value, or the message of the error and where it arose.
type Found<T> = Result<(String, T), (String, String)>;

fn ours<T>(r: suricata_rule_parser::IResult<&str, T, ParseError<&str>>) -> Found<T> {
    match r {
        Ok((rest, value)) => Ok((rest.to_string(), value)),
        Err(Rejection::Error(e)) => Err((e.kind.message(), e.input.to_string())),
        Err(Rejection::Failure(e)) => panic!("{:?}", e),
    }
}

fn theirs<T>(r: IResult<&str, T>) -> Found<T> {
    match r {
        Ok((rest, value)) => Ok((rest.to_string(), value)),
        Err(nom::Err::Error(e)) => {
            Err((format!("nom error: {}", e.code.description()), e.input.to_string()))
        }
        Err(e) => panic!("{:?}", e),
    }
}

fn other<T>(message: &'static str, input: &str) -> Found<T> {
    Err((ErrorKind::Other(message).message(), input.to_string()))
}

/// The texts of up to `len` of `pieces`.
fn all_texts(pieces: &[&str], len: usize) -> Vec<String> {
    let mut all = vec![String::new()];
    let mut start = 0;
    for _ in 0..len {
        let end = all.len();
        for i in start..end {
            for piece in pieces {
                let longer = format!("{}{}", all[i], piece);
                all.push(longer);
            }
        }
        start = end;
    }
    all
}

fn nom_token(input: &str) -> IResult<&str, &str> {
    preceded(multispace0, is_not("\n\r\t,;: "))(input)
}

fn nom_quoted_string(input: &str) -> IResult<&str, String> {
    let escaped = escaped_transform(none_of("\\\""), '\\', one_of("\"\\;:"));
    let empty = nom::combinator::map(tag(""), |s: &str| s.to_string());
    delimited(tag("\""), alt((escaped, empty)), tag("\""))(input)
}

fn nom_list(input: &str) -> IResult<&str, Vec<&str>> {
    let sep = terminated(multispace0, preceded(multispace0, tag(",")));
    separated_list0(sep, preceded(multispace0, take_while(|c| c != ',' && c != ';')))(input)
}

#[test]
fn words_follow_the_grammar() {
    for text in all_texts(&["a", " ", "\t", "\r", "\n", ",", ";", ":", "\u{e9}", "\u{a0}"], 4) {
        let input = text.as_str();
        assert_eq!(
            ours(take_until_whitespace(input)),
            theirs(preceded(multispace0, is_not(" \t\r\n"))(input))
        );
        assert_eq!(ours(parse_token(input)), theirs(nom_token(input)));
        assert_eq!(ours(option_name(input)), theirs(preceded(multispace0, is_not(";:"))(input)));
        assert_eq!(
            ours(options_separator(input)),
            theirs(preceded(multispace0, one_of(";:"))(input))
        );
    }
}

#[test]
fn marks_follow_the_grammar() {
    for text in all_texts(&["-", ">", "<", "(", ")", "\"", " ", "\n", "a"], 4) {
        let input = text.as_str();
        for mark in ["", "-", "->", "(a", "\n"] {
            assert_eq!(
                ours(parse_tag(mark)(input)),
                theirs(preceded(multispace0, tag(mark))(input))
            );
        }
        assert_eq!(ours(start_of_options(input)), theirs(preceded(multispace0, tag("("))(input)));
        assert_eq!(ours(parse_end_quote(input)), theirs(preceded(multispace0, tag("\""))(input)));
        let closing: IResult<&str, &str> = preceded(multispace0, tag(")"))(input);
        match (end_of_options(input), closing) {
            (Ok(found), Ok(expected)) => assert_eq!(found, expected),
            (Err(Rejection::Error(found)), Err(nom::Err::Error(expected))) => {
                assert_eq!(found.input, expected.input);
                assert_eq!(
                    ErrorKind::Nom(found.code).message(),
                    format!("nom error: {}", expected.code.description())
                );
            }
            (found, expected) => panic!("{:?} {:?}", found, expected),
        }
        let arrow: IResult<&str, Direction> = alt((
            nom::combinator::map(tag("->"), |_| Direction::Single),
            nom::combinator::map(tag("<>"), |_| Direction::Both),
        ))(input);
        match arrow {
            Ok(found) => assert_eq!(parse_direction(input), Ok(found)),
            Err(_) => assert_eq!(
                parse_direction(input),
                Err(Rejection::Error(ParseError { kind: ErrorKind::Invalid, input }))
            ),
        }
    }
}

#[test]
fn quoted_strings_follow_the_grammar() {
    for text in all_texts(&["\"", "\\", ";", ":", "a", "\u{e9}"], 6) {
        assert_eq!(ours(parse_quoted_string(&text)), theirs(nom_quoted_string(&text)));
        let quoted = format!("\"{}", text);
        assert_eq!(ours(parse_quoted_string(&quoted)), theirs(nom_quoted_string(&quoted)));
    }
}

#[test]
fn contents_follow_the_grammar() {
    for text in all_texts(&["!", " ", "\t", "\"", "\\", "a"], 6) {
        let content = |input| {
            let (input, negate) = preceded(multispace0, opt(tag("!")))(input)?;
            let (input, pattern) = nom_quoted_string(input)?;
            Ok((input, Content { pattern, negated: negate.is_some() }))
        };
        assert_eq!(ours(parse_content(&text)), theirs(content(text.as_str())));
    }
}

#[test]
fn lists_follow_the_grammar() {
    for text in all_texts(&[",", ";", " ", "\n", "a", "to_client", "\u{a0}", "\u{e9}"], 5) {
        let (end, parts) = nom_list(&text).unwrap();
        let values: Vec<String> = parts.iter().map(|p| p.trim().to_string()).collect();
        assert_eq!(metadata(&text), Ok((end, values)));
        let expected = match parts.iter().find(|p| p.trim() != "to_client") {
            Some(part) => other("unexpected flow option", part),
            None => Ok((end.to_string(), Flow { to_client: true, ..Flow::default() })),
        };
        assert_eq!(ours(parse_flow(&text)), expected);
    }
}

fn nom_pcre(input: &str) -> Found<Pcre> {
    let mut start = tuple((opt(tag("!")), preceded(multispace0, tag("\"")), tag("/")));
    let (body, (negate, _, _)) = match start(input) {
        Ok(found) => found,
        Err(e) => return theirs(Err(e)),
    };
    let negate = negate.is_some();
    let end = match body.rfind('/') {
        Some(end) => end,
        None => return other("pcre: no terminating /", body),
    };
    let pattern = body[..end].to_string();
    let tail = &body[end + 1..];
    let closing: IResult<&str, &str> = preceded(multispace0, tag("\""))(tail);
    if let Ok((rest, _)) = closing {
        return Ok((
            rest.to_string(),
            Pcre { negate, pattern, modifiers: String::new(), vars: vec![] },
        ));
    }
    let captures = preceded(preceded(multispace0, tag(",")), take_until("\""));
    let mut tail_parser =
        tuple((alphanumeric1, opt(captures), preceded(multispace0, tag("\""))));
    let parsed: IResult<&str, (&str, Option<&str>, &str)> = tail_parser(tail);
    theirs(parsed.map(|(rest, (modifiers, vars, _))| {
        let vars = match vars {
            Some(vars) => vars.split(',').map(|s| s.trim().to_string()).collect(),
            None => vec![],
        };
        (rest, Pcre { negate, pattern, modifiers: modifiers.to_string(), vars })
    }))
}

#[test]
fn pcres_follow_the_grammar() {
    for text in all_texts(&["!", " ", "\"", "/", "a", ",", "\u{e9}"], 5) {
        assert_eq!(ours(parse_pcre(&text)), nom_pcre(&text));
        for start in ["\"/", "! \"/a/", "\"/a/b", "\"/a/b,"] {
            let longer = format!("{}{}", start, text);
            assert_eq!(ours(parse_pcre(&longer)), nom_pcre(&longer));
        }
    }
}

fn nom_isdataat(input: &str) -> Found<IsDataAt> {
    let parsed: IResult<&str, (Option<&str>, &str)> =
        tuple((preceded(multispace0, opt(tag("!"))), nom_token))(input);
    let (options, (negate, position)) = match parsed {
        Ok(found) => found,
        Err(e) => return theirs(Err(e)),
    };
    let number = match position.strip_prefix("0x").or(position.strip_prefix("0X")) {
        Some(digits) => u64::from_str_radix(digits, 16),
        None => position.parse::<u64>(),
    };
    let position = match number {
        Ok(n) => IsDataAtPosition::Position(n),
        Err(_) => IsDataAtPosition::Identifier(position.to_string()),
    };
    let options: Vec<&str> = options.split(',').map(|s| s.trim()).collect();
    let known = ["", "relative", "rawbytes"];
    match options.iter().find(|option| !known.contains(option)) {
        Some(option) => other("invalid option", option),
        None => Ok((
            String::new(),
            IsDataAt {
                negate: negate.is_some(),
                position,
                relative: options.contains(&"relative"),
                rawbytes: options.contains(&"rawbytes"),
            },
        )),
    }
}

#[test]
fn isdataats_follow_the_grammar() {
    let pieces = ["!", " ", ",", ";", "0x", "1", "a", "relative", "rawbytes", "\u{a0}"];
    for text in all_texts(&pieces, 4) {
        assert_eq!(ours(parse_isdataat(&text)), nom_isdataat(&text));
        let longer = format!("1,{}", text);
        assert_eq!(ours(parse_isdataat(&longer)), nom_isdataat(&longer));
    }
}

#[test]
fn numbers_and_references_follow_the_grammar() {
    for text in all_texts(&["0", "x", "X", "f", "1", "+", "-", " ", ","], 5) {
        let expected = nom_token(&text).map(|(rest, token)| {
            let number = match token.strip_prefix("0x").or(token.strip_prefix("0X")) {
                Some(digits) => i16::from_str_radix(digits, 16),
                None => token.parse::<i16>(),
            };
            match number {
                Ok(n) => (rest, NumberOrReference::Number(n)),
                Err(_) => (rest, NumberOrReference::Name(token.to_string())),
            }
        });
        assert_eq!(ours(parse_number_or_reference::<i16>(&text)), theirs(expected));
    }
}

fn nom_flowbits(input: &str) -> Found<Flowbits> {
    let name_parser = preceded(tag(","), preceded(multispace0, rest));
    let parsed: IResult<&str, (&str, Option<&str>)> =
        tuple((preceded(multispace0, alphanumeric1), opt(name_parser)))(input);
    let (end, (command, names)) = match parsed {
        Ok(found) => found,
        Err(e) => return theirs(Err(e)),
    };
    let names: Option<Vec<String>> =
        names.map(|names| names.split('|').map(|s| s.trim().to_string()).collect());
    match (command, names) {
        ("set", Some(names)) => {
            Ok((end.to_string(), Flowbits { command: FlowbitCommand::SetBit, names }))
        }
        ("set", None) => other("argument required", end),
        ("noalert", Some(_)) => other("noalert does not take arguments", end),
        ("noalert", None) => {
            Ok((end.to_string(), Flowbits { command: FlowbitCommand::NoAlert, names: vec![] }))
        }
        (command, _) => other("invalid flowbits command", command),
    }
}

#[test]
fn flowbits_follow_the_grammar() {
    for text in all_texts(&["set", "noalert", "a", " ", ",", "|", "\u{a0}", "\u{e9}"], 5) {
        assert_eq!(ours(parse_flowbits(&text)), nom_flowbits(&text));
    }
}

#[test]
fn references_follow_the_grammar() {
    for text in all_texts(&["a", " ", "\t", ",", "\u{e9}"], 6) {
        let parsed = tuple((take_until(","), tag(","), preceded(multispace0, rest)))(text.as_str());
        let expected = parsed.map(|(end, (scheme, _, reference)): (&str, (&str, &str, &str))| {
            (
                end,
                Reference { scheme: scheme.to_string(), reference: reference.to_string() },
            )
        });
        assert_eq!(ours(parse_reference(&text)), theirs(expected));
    }
}
