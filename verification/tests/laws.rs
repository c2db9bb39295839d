//! What holds of the parsers together, on examples.

use suricata_rule_parser::{
    metadata, option_name, options_separator, parse_array, parse_content, parse_direction,
    parse_end_quote, parse_flow, parse_flowbits, parse_isdataat, parse_number, parse_option_value,
    parse_pcre, parse_quoted_string, parse_reference, parse_tag, parse_token, scan_array,
    start_of_options, take_until_whitespace, Direction, ErrorKind, Flow, FlowbitCommand,
    IsDataAtPosition, ParseError, Rejection,
};

const TEXTS: [&str; 24] = [
    "",
    "a",
    "a b",
    "a,b;c:d",
    "!a",
    "!\"a\\\"b\";x",
    "\"a\\\\\"",
    "\"a\\n\"",
    "[a,[b],!c]d",
    "![a]",
    "[a",
    "->",
    "<> x",
    "10,relative",
    "0x1f;",
    "!\"/a/b/i,c,d\"e",
    "\"/a/\"",
    "\"/a",
    "set,a|b",
    "noalert",
    "established,to_client;",
    "url,x",
    "\u{e9}\u{a0}",
    "\\;",
];

/// Where a parser left off, or where it failed.
fn extent<T>(r: Result<(&str, T), Rejection<ParseError<&str>>>) -> (bool, String) {
    match r {
        Ok((rest, _)) => (true, rest.to_string()),
        Err(e) => (false, ParseError::from(e).input.to_string()),
    }
}

/// How each parser treats `input`.
fn extents(input: &str) -> Vec<(bool, String)> {
    vec![
        extent(take_until_whitespace(input)),
        extent(parse_token(input)),
        extent(option_name(input)),
        extent(parse_tag("a")(input)),
        extent(start_of_options(input)),
        extent(options_separator(input)),
        extent(parse_end_quote(input)),
        extent(parse_option_value(input)),
        extent(parse_number::<u64>(input)),
        extent(parse_content(input)),
        extent(parse_isdataat(input)),
        extent(parse_flowbits(input)),
        extent(parse_array(input)),
        extent(scan_array(input)),
        extent(metadata(input)),
        extent(parse_flow(input)),
        extent(parse_quoted_string(input)),
        extent(parse_direction(input)),
        extent(parse_pcre(input)),
        extent(parse_reference(input)),
    ]
}

#[test]
fn leading_space_is_ignored() {
    for text in TEXTS {
        let spaced = format!(" \t\r\n{}", text);
        // The parsers that skip spaces come first.
        assert_eq!(extents(&spaced)[..16], extents(text)[..16]);
        assert_eq!(metadata(&spaced), metadata(text));
        if !text.starts_with('!') {
            assert_eq!(parse_pcre(&spaced), parse_pcre(text));
        }
    }
}

#[test]
fn leading_white_space_of_arrays_is_ignored() {
    for text in TEXTS {
        let spaced = format!("\u{a0}\u{2003}\u{b}{}", text);
        assert_eq!(extent(parse_array(&spaced)), extent(parse_array(text)));
        assert_eq!(scan_array(&spaced), scan_array(text));
    }
}

#[test]
fn remainder_is_an_end_of_the_input() {
    for text in TEXTS {
        for (accepted, rest) in extents(text) {
            if accepted {
                assert!(text.ends_with(&rest));
            } else {
                assert!(text.contains(&rest));
            }
        }
    }
}

#[test]
fn run_is_maximal() {
    assert_eq!(parse_token("  ab,c"), Ok((",c", "ab")));
    assert_eq!(take_until_whitespace("  ab,c d"), Ok((" d", "ab,c")));
    assert_eq!(option_name("  ab,c d:e"), Ok((":e", "ab,c d")));
}

#[test]
fn marks_are_read_back() {
    assert_eq!(parse_tag("tag")("tag tag"), Ok((" tag", "tag")));
    assert_eq!(options_separator(";;"), Ok((";", ';')));
    assert_eq!(options_separator("::"), Ok((":", ':')));
    assert_eq!(parse_direction("->->"), Ok(("->", Direction::Single)));
    assert_eq!(parse_direction("<><>"), Ok(("<>", Direction::Both)));
}

#[test]
fn option_values_are_read_back() {
    for value in ["", "a", "a b ", r"a\;b", r#""a\;b", 10"#, "\u{e9}"] {
        let written = format!("{};rest;", value);
        assert_eq!(parse_option_value(&written), Ok(("rest;", value)));
    }
}

fn quote(t: &str, marks: bool) -> String {
    let mut quoted = String::from("\"");
    for c in t.chars() {
        if c == '"' || c == '\\' || (marks && (c == ';' || c == ':')) {
            quoted.push('\\');
        }
        quoted.push(c);
    }
    quoted.push('"');
    quoted
}

#[test]
fn quoted_strings_are_read_back() {
    for text in TEXTS {
        for marks in [false, true] {
            let written = format!("{};", quote(text, marks));
            assert_eq!(parse_quoted_string(&written), Ok((";", text.to_string())));
            let (rest, content) = parse_content(&written).unwrap();
            assert_eq!((rest, content.pattern.as_str(), content.negated), (";", text, false));
            let negated = format!("!{}", written);
            let (rest, content) = parse_content(&negated).unwrap();
            assert_eq!((rest, content.pattern.as_str(), content.negated), (";", text, true));
        }
    }
}

#[test]
fn each_mark_may_be_escaped_or_not() {
    for written in [r#""a;b:c;""#, r#""a\;b:c;""#, r#""a;b\:c;""#, r#""a\;b:c\;""#, r#""a\;b\:c\;""#] {
        let input = format!("{} x", written);
        assert_eq!(parse_quoted_string(&input), Ok((" x", "a;b:c;".to_string())));
    }
}

#[test]
fn lists_are_read_back() {
    let values = ["created_at 2020_01_01", "", "x", "tag \u{e9}"];
    let written = format!("{};rest", values.join(","));
    let (rest, read) = metadata(&written).unwrap();
    assert_eq!(rest, ";rest");
    assert_eq!(read, values);

    let flow = parse_flow("to_server,established,to_server").unwrap().1;
    assert_eq!(flow, Flow { to_server: true, established: true, ..Flow::default() });
    assert_eq!(flow, parse_flow("established,to_server").unwrap().1);
}

#[test]
fn options_are_read_back() {
    let (rest, reference) = parse_reference("cve,2021-44228").unwrap();
    assert_eq!(
        (rest, reference.scheme.as_str(), reference.reference.as_str()),
        ("", "cve", "2021-44228")
    );

    let (rest, flowbits) = parse_flowbits("toggle,a|b").unwrap();
    assert_eq!((rest, flowbits.command), ("", FlowbitCommand::Toggle));
    assert_eq!(flowbits.names, ["a", "b"]);
    let (rest, flowbits) = parse_flowbits("noalert; x").unwrap();
    assert_eq!((rest, flowbits.command), ("; x", FlowbitCommand::NoAlert));
    assert!(flowbits.names.is_empty());

    let (rest, pcre) = parse_pcre("!\"/a\"/b/Ri\";").unwrap();
    assert_eq!((rest, pcre.negate), (";", true));
    assert_eq!((pcre.pattern.as_str(), pcre.modifiers.as_str()), ("a\"/b", "Ri"));
    let (rest, pcre) = parse_pcre("\"/a/R,x y,z\";").unwrap();
    assert_eq!((rest, pcre.negate), (";", false));
    assert_eq!(pcre.vars, ["x y", "z"]);

    let (rest, isdataat) = parse_isdataat("!len,rawbytes,relative").unwrap();
    assert_eq!((rest, isdataat.negate), ("", true));
    assert_eq!(isdataat.position, IsDataAtPosition::Identifier("len".to_string()));
    assert!(isdataat.relative && isdataat.rawbytes);
}

#[test]
fn split_and_join_are_inverse() {
    let (_, values) = metadata("a,b,,c").unwrap();
    assert_eq!(values.join(","), "a,b,,c");
    let (_, flowbits) = parse_flowbits("set,a||b").unwrap();
    assert_eq!(flowbits.names.join("|"), "a||b");
}

#[test]
fn array_that_is_not_closed_is_unterminated() {
    let error = ParseError::from(parse_array("[a]b").and(parse_array("[a,")).unwrap_err());
    assert_eq!(error, ParseError { kind: ErrorKind::UnterminatedArray, input: "[a," });
}

/// White space is every character with the Unicode property `White_Space`.
#[test]
fn white_space_is_trimmed() {
    for c in ('\u{0}'..=char::MAX).filter(|c| *c != ',' && *c != ';') {
        let white = matches!(c, '\u{9}'..='\u{d}' | ' ' | '\u{85}' | '\u{a0}' | '\u{1680}'
            | '\u{2000}'..='\u{200a}' | '\u{2028}' | '\u{2029}' | '\u{202f}' | '\u{205f}'
            | '\u{3000}');
        let written = format!("{}x{}", c, c);
        let (_, values) = metadata(&written).unwrap();
        assert_eq!(values.len(), 1);
        assert_eq!(values[0] == "x", white);
        assert_eq!(values[0] == written, !white);
    }
}
