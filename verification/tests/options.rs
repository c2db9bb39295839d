//! The values of options.

use suricata_rule_parser::{
    metadata, parse_content, parse_flow, parse_flowbits, parse_isdataat, parse_pcre,
    parse_quoted_string, parse_reference, Content, ErrorKind, Flow, FlowbitCommand, Flowbits,
    IResult, IsDataAt, IsDataAtPosition, NomErrorKind, ParseError, Pcre, Reference, Rejection,
};

fn rejected<T>(kind: ErrorKind, input: &str) -> IResult<&str, T, ParseError<&str>> {
    Err(Rejection::Error(ParseError { kind, input }))
}

fn owned(list: &[&str]) -> Vec<String> {
    list.iter().map(|s| s.to_string()).collect()
}

#[test]
fn quoted_string_must_be_quoted() {
    let kind = ErrorKind::Nom(NomErrorKind::Tag);
    assert_eq!(parse_quoted_string("abc\""), rejected(kind.clone(), "abc\""));
    assert_eq!(parse_quoted_string(" \"abc\""), rejected(kind.clone(), " \"abc\""));
    assert_eq!(parse_quoted_string("\"abc"), rejected(kind.clone(), ""));
    assert_eq!(parse_quoted_string(""), rejected(kind, ""));
}

#[test]
fn quoted_string_with_unknown_escape_is_rejected() {
    let kind = ErrorKind::Nom(NomErrorKind::Tag);
    assert_eq!(parse_quoted_string(r#""a\nb""#), rejected(kind.clone(), r#"a\nb""#));
    assert_eq!(parse_quoted_string(r#""a\"#), rejected(kind, r#"a\"#));
}

#[test]
fn quoted_string_removes_each_escape() {
    assert_eq!(
        parse_quoted_string("\"\\\"\\\\\\;\\:\u{e9}\""),
        Ok(("", "\"\\;:\u{e9}".to_string()))
    );
    assert_eq!(parse_quoted_string(r#""a\\" b"#), Ok((" b", r"a\".to_string())));
}

#[test]
fn content_may_stand_behind_spaces() {
    assert_eq!(
        parse_content(" \t!\"a\";"),
        Ok((";", Content { pattern: "a".to_string(), negated: true }))
    );
    assert_eq!(parse_content("! \"a\""), rejected(ErrorKind::Nom(NomErrorKind::Tag), " \"a\""));
    assert_eq!(parse_content("!!\"a\""), rejected(ErrorKind::Nom(NomErrorKind::Tag), "!\"a\""));
}

#[test]
fn metadata_is_split_at_commas() {
    assert_eq!(
        metadata(" created_at 2010_07_30 , \u{a0}updated_at 2019\t;rest"),
        Ok((";rest", owned(&["created_at 2010_07_30", "updated_at 2019"])))
    );
    assert_eq!(metadata("a,,b,"), Ok(("", owned(&["a", "", "b", ""]))));
    assert_eq!(metadata(""), Ok(("", owned(&[""]))));
    assert_eq!(metadata("; a"), Ok(("; a", owned(&[""]))));
}

#[test]
fn flow_sets_each_keyword() {
    let none = Flow::default();
    let expected = [
        ("not_established", Flow { not_established: true, ..none }),
        ("established", Flow { established: true, ..none }),
        ("from_client", Flow { from_client: true, ..none }),
        ("from_server", Flow { from_server: true, ..none }),
        ("no_frag", Flow { no_frag: true, ..none }),
        ("no_stream", Flow { no_stream: true, ..none }),
        ("only_frag", Flow { only_frag: true, ..none }),
        ("only_stream", Flow { only_stream: true, ..none }),
        ("stateless", Flow { stateless: true, ..none }),
        ("to_client", Flow { to_client: true, ..none }),
        ("to_server", Flow { to_server: true, ..none }),
    ];
    for (text, flow) in expected {
        assert_eq!(parse_flow(text), Ok(("", flow)));
    }
    assert_eq!(
        parse_flow(" established , to_server\u{a0};x"),
        Ok((";x", Flow { established: true, to_server: true, ..none }))
    );
}

#[test]
fn flow_rejects_other_keywords() {
    let kind = ErrorKind::Other("unexpected flow option");
    assert_eq!(parse_flow("established, to_serve , x"), rejected(kind.clone(), "to_serve "));
    assert_eq!(parse_flow(""), rejected(kind.clone(), ""));
    assert_eq!(parse_flow("Established"), rejected(kind, "Established"));
}

#[test]
fn pcre_without_quote_or_slash_is_rejected() {
    let tag = ErrorKind::Nom(NomErrorKind::Tag);
    assert_eq!(parse_pcre("/a/"), rejected(tag.clone(), "/a/"));
    assert_eq!(parse_pcre(" ! \"/a/\""), rejected(tag.clone(), "! \"/a/\""));
    assert_eq!(parse_pcre("\"a/\""), rejected(tag.clone(), "a/\""));
    assert_eq!(
        parse_pcre("\"/a\""),
        rejected(ErrorKind::Other("pcre: no terminating /"), "a\"")
    );
    assert_eq!(
        parse_pcre("\"/a/+\""),
        rejected(ErrorKind::Nom(NomErrorKind::AlphaNumeric), "+\"")
    );
    assert_eq!(parse_pcre("\"/a/i\u{661}\""), rejected(tag.clone(), "\u{661}\""));
    assert_eq!(parse_pcre("\"/a/i"), rejected(tag.clone(), ""));
    assert_eq!(parse_pcre("\"/a/i, x"), rejected(tag, ", x"));
}

#[test]
fn pcre_ends_at_the_last_slash() {
    assert_eq!(
        parse_pcre("\"/a/b\u{e9}/c/ \" ;"),
        Ok((
            " ;",
            Pcre {
                negate: false,
                pattern: "a/b\u{e9}/c".to_string(),
                modifiers: String::new(),
                vars: vec![],
            }
        ))
    );
}

#[test]
fn pcre_captures_are_trimmed() {
    assert_eq!(
        parse_pcre("!  \"/a/Ri , flow:x ,pkt:y\" ;"),
        Ok((
            " ;",
            Pcre {
                negate: true,
                pattern: "a".to_string(),
                modifiers: "Ri".to_string(),
                vars: owned(&["flow:x", "pkt:y"]),
            }
        ))
    );
    assert_eq!(
        parse_pcre("\"/a/R,\""),
        Ok((
            "",
            Pcre {
                negate: false,
                pattern: "a".to_string(),
                modifiers: "R".to_string(),
                vars: owned(&[""]),
            }
        ))
    );
}

#[test]
fn isdataat_reads_position_and_flags() {
    assert_eq!(
        parse_isdataat(" !10, relative ,rawbytes"),
        Ok((
            "",
            IsDataAt {
                negate: true,
                position: IsDataAtPosition::Position(10),
                relative: true,
                rawbytes: true,
            }
        ))
    );
    assert_eq!(
        parse_isdataat("0x1F"),
        Ok((
            "",
            IsDataAt {
                negate: false,
                position: IsDataAtPosition::Position(31),
                relative: false,
                rawbytes: false,
            }
        ))
    );
    assert_eq!(
        parse_isdataat("! size,,relative"),
        Ok((
            "",
            IsDataAt {
                negate: true,
                position: IsDataAtPosition::Identifier("size".to_string()),
                relative: true,
                rawbytes: false,
            }
        ))
    );
    assert_eq!(
        parse_isdataat("-5").unwrap().1.position,
        IsDataAtPosition::Identifier("-5".to_string())
    );
}

#[test]
fn isdataat_rejects_other_flags() {
    let kind = ErrorKind::Other("invalid option");
    assert_eq!(parse_isdataat("10, relativ , x"), rejected(kind.clone(), "relativ"));
    assert_eq!(parse_isdataat("10 20"), rejected(kind.clone(), "20"));
    assert_eq!(parse_isdataat("10;"), rejected(kind, ";"));
    assert_eq!(parse_isdataat("!,x"), rejected(ErrorKind::Nom(NomErrorKind::IsNot), ",x"));
}

#[test]
fn flowbits_reads_each_command() {
    let expected = [
        ("set", FlowbitCommand::SetBit),
        ("unset", FlowbitCommand::Unset),
        ("toggle", FlowbitCommand::Toggle),
        ("isset", FlowbitCommand::IsSet),
        ("isnotset", FlowbitCommand::IsNotSet),
    ];
    for (text, command) in expected {
        let input = format!(" {}, a | b.c", text);
        assert_eq!(
            parse_flowbits(&input),
            Ok(("", Flowbits { command, names: owned(&["a", "b.c"]) }))
        );
        assert_eq!(parse_flowbits(text), rejected(ErrorKind::Other("argument required"), ""));
    }
    assert_eq!(
        parse_flowbits("noalert ;"),
        Ok((" ;", Flowbits { command: FlowbitCommand::NoAlert, names: vec![] }))
    );
}

#[test]
fn flowbits_rejects_what_it_does_not_know() {
    assert_eq!(
        parse_flowbits("sett,a"),
        rejected(ErrorKind::Other("invalid flowbits command"), "sett")
    );
    assert_eq!(
        parse_flowbits("noalert,a"),
        rejected(ErrorKind::Other("noalert does not take arguments"), "")
    );
    assert_eq!(parse_flowbits("set ,a"), rejected(ErrorKind::Other("argument required"), " ,a"));
    assert_eq!(
        parse_flowbits("set\u{e9},a"),
        rejected(ErrorKind::Other("argument required"), "\u{e9},a")
    );
    assert_eq!(parse_flowbits(" ,a"), rejected(ErrorKind::Nom(NomErrorKind::AlphaNumeric), ",a"));
}

#[test]
fn reference_is_split_at_the_first_comma() {
    assert_eq!(
        parse_reference("url, example.com/a,b "),
        Ok((
            "",
            Reference { scheme: "url".to_string(), reference: "example.com/a,b ".to_string() }
        ))
    );
    assert_eq!(
        parse_reference(",\u{a0}x"),
        Ok(("", Reference { scheme: String::new(), reference: "\u{a0}x".to_string() }))
    );
    assert_eq!(parse_reference("cve"), rejected(ErrorKind::Nom(NomErrorKind::TakeUntil), "cve"));
}
