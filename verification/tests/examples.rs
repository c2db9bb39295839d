//! The parsers on examples from rules.

use suricata_rule_parser::{
    parse_array, parse_content, parse_direction, parse_option_value, parse_pcre,
    parse_quoted_string, scan_array, take_until_whitespace, ArrayElement, Content, Direction,
    ErrorKind, ParseError, Pcre, Rejection,
};

#[test]
fn test_take_until_whitespace() {
    assert_eq!(take_until_whitespace("foo").unwrap(), ("", "foo"));
    assert_eq!(take_until_whitespace("foo bar").unwrap(), (" bar", "foo"));
    assert_eq!(
        take_until_whitespace("   foo bar").unwrap(),
        (" bar", "foo")
    );
    assert_eq!(
        take_until_whitespace("foo\t bar").unwrap(),
        ("\t bar", "foo")
    );
    assert_eq!(
        take_until_whitespace("foo\r bar").unwrap(),
        ("\r bar", "foo")
    );
    assert_eq!(
        take_until_whitespace("foo\n bar").unwrap(),
        ("\n bar", "foo")
    );
}

#[test]
fn test_parse_array() {
    let input = "[a]xxx";
    let (rem, array) = parse_array(input).unwrap();
    assert_eq!(rem, "xxx");
    assert_eq!(array, vec![ArrayElement::String("a".to_string())]);

    let input = "[a,bbb]xxx";
    let (rem, array) = parse_array(input).unwrap();
    assert_eq!(rem, "xxx");
    assert_eq!(
        array,
        vec![
            ArrayElement::String("a".to_string()),
            ArrayElement::String("bbb".to_string())
        ]
    );

    let input = "[a,[bbb,ccc,[xxx]],ddd,[eee,fff]]aaa";
    let (rem, array) = parse_array(input).unwrap();
    assert_eq!(rem, "aaa");
    assert_eq!(
        array,
        vec![
            ArrayElement::String("a".to_string()),
            ArrayElement::Array(vec![
                ArrayElement::String("bbb".to_string()),
                ArrayElement::String("ccc".to_string()),
                ArrayElement::Array(vec![ArrayElement::String("xxx".to_string())]),
            ]),
            ArrayElement::String("ddd".to_string()),
            ArrayElement::Array(vec![
                ArrayElement::String("eee".to_string()),
                ArrayElement::String("fff".to_string()),
            ]),
        ]
    );

    let input = "ff02::fb";
    let (_rem, array) = parse_array(input).unwrap();
    assert_eq!(array, vec![ArrayElement::String("ff02::fb".to_string())]);

    assert!(parse_array("[a").is_err());

    assert_eq!(
        parse_array("[asdf,asdf").unwrap_err(),
        Rejection::Error(ParseError {
            kind: ErrorKind::UnterminatedArray,
            input: "[asdf,asdf"
        })
    );
    assert_eq!(
        parse_array("[[asdf,asdf]").unwrap_err(),
        Rejection::Error(ParseError {
            kind: ErrorKind::UnterminatedArray,
            input: "[[asdf,asdf]"
        })
    );
}

#[test]
fn test_scan_array() {
    let input = "[a]xxx";
    let (rem, array) = scan_array(input).unwrap();
    assert_eq!(rem, "xxx");
    assert_eq!(array, "[a]");

    let input = "[a,bbb]xxx";
    let (rem, array) = parse_array(input).unwrap();
    assert_eq!(rem, "xxx");
    assert_eq!(
        array,
        vec![
            ArrayElement::String("a".to_string()),
            ArrayElement::String("bbb".to_string())
        ]
    );

    let input = "[a,bbb]xxx";
    let (rem, array) = scan_array(input).unwrap();
    assert_eq!(rem, "xxx");
    assert_eq!(array, "[a,bbb]");

    let input = "[a,[bbb,ccc,[xxx]],ddd,[eee,fff]]aaa";
    let (rem, array) = scan_array(input).unwrap();
    assert_eq!(rem, "aaa");
    assert_eq!(array, "[a,[bbb,ccc,[xxx]],ddd,[eee,fff]]");

    let input = "ff02::fb 8080";
    let (rem, array) = scan_array(input).unwrap();
    assert_eq!(rem, " 8080");
    assert_eq!(array, "ff02::fb");

    // The array scanner does not treat this as an error. Perhaps
    // it should.
    let (rem, array) = scan_array("[a").unwrap();
    assert_eq!(rem, "");
    assert_eq!(array, "[a");
}

#[test]
fn test_parse_option_value() {
    let (rem, value) = parse_option_value("value;").unwrap();
    assert_eq!(rem, "");
    assert_eq!(value, "value");

    let (rem, value) = parse_option_value("   value;").unwrap();
    assert_eq!(rem, "");
    assert_eq!(value, "value");

    let (rem, value) = parse_option_value("   value ;").unwrap();
    assert_eq!(rem, "");
    assert_eq!(value, "value ");

    let (rem, value) = parse_option_value("   value ;next option").unwrap();
    assert_eq!(rem, "next option");
    assert_eq!(value, "value ");
}

#[test]
fn test_parse_direction() {
    assert_eq!(parse_direction("->").unwrap(), ("", Direction::Single));
    assert_eq!(parse_direction("<>").unwrap(), ("", Direction::Both));
    assert!(parse_direction("-").is_err());
    assert!(parse_direction("<-").is_err());
}

#[test]
fn test_parse_quoted_string() {
    let (i, a) = parse_quoted_string(r#""""#).unwrap();
    assert_eq!(i, "");
    assert_eq!(a, "");

    let (i, a) = parse_quoted_string(r#""simple string""#).unwrap();
    assert_eq!(i, "");
    assert_eq!(a, "simple string");

    let (i, a) = parse_quoted_string(r#""with; semicolons.""#).unwrap();
    assert_eq!(i, "");
    assert_eq!(a, "with; semicolons.");

    let (i, a) = parse_quoted_string(r#""with escaped\; semicolons.""#).unwrap();
    assert_eq!(i, "");
    assert_eq!(a, "with escaped; semicolons.");

    let (i, a) =
        parse_quoted_string(r#""with escaped\; semicolons and \" inner quote""#).unwrap();
    assert_eq!(i, "");
    assert_eq!(a, "with escaped; semicolons and \" inner quote");
}

#[test]
fn test_parse_content() {
    let (i, content) = parse_content(r#""|be ef|""#).unwrap();
    assert_eq!(
        content,
        Content {
            pattern: "|be ef|".to_string(),
            negated: false,
        }
    );
    assert_eq!(i, "");

    let (i, content) = parse_content(r#"!"|be ef|""#).unwrap();
    assert_eq!(
        content,
        Content {
            pattern: "|be ef|".to_string(),
            negated: true,
        }
    );
    assert_eq!(i, "");

    // Snort 3 style...
    let (i, content) = parse_content(r#"!"|be ef|", within 5"#).unwrap();
    assert_eq!(
        content,
        Content {
            pattern: "|be ef|".to_string(),
            negated: true,
        }
    );
    assert_eq!(i, ", within 5");

    let (rem, content) = parse_content(r#""/pda_projects.php?offset=http\:""#).unwrap();
    assert_eq!(rem, "");
    assert_eq!(
        content,
        Content {
            negated: false,
            pattern: r#"/pda_projects.php?offset=http:"#.to_string(),
        }
    )
}

#[test]
fn test_parse_pcre() {
    let input0 = r#""/[0-9]{6}/""#;
    let (rem, pcre) = parse_pcre(input0).unwrap();
    assert_eq!(rem, "");
    assert_eq!(
        pcre,
        Pcre {
            negate: false,
            pattern: r#"[0-9]{6}"#.to_string(),
            modifiers: "".to_string(),
            vars: vec![],
        }
    );

    let input0 = r#""/[0-9]{6}/UR""#;
    let (rem, pcre) = parse_pcre(input0).unwrap();
    assert_eq!(rem, "");
    assert_eq!(
        pcre,
        Pcre {
            negate: false,
            pattern: r#"[0-9]{6}"#.to_string(),
            modifiers: "UR".to_string(),
            vars: vec![],
        }
    );

    let input0 = "\"/([^:/$]+)/R,flow:rce_server\"";
    let (_, pcre) = parse_pcre(input0).unwrap();
    assert_eq!(
        pcre,
        Pcre {
            negate: false,
            pattern: r#"([^:/$]+)"#.to_string(),
            modifiers: "R".to_string(),
            vars: vec!["flow:rce_server".to_string()],
        }
    );

    let input0 = "\"/([^:/$]+)/Ri, flow:rce_server\"";
    let (_, pcre) = parse_pcre(input0).unwrap();
    assert_eq!(
        pcre,
        Pcre {
            negate: false,
            pattern: r#"([^:/$]+)"#.to_string(),
            modifiers: "Ri".to_string(),
            vars: vec!["flow:rce_server".to_string()],
        }
    );

    let input0 = r#""/\/winhost(?:32|64)\.(exe|pack)$/i""#;
    let (_, pcre) = parse_pcre(input0).unwrap();
    assert_eq!(
        pcre,
        Pcre {
            negate: false,
            pattern: r#"\/winhost(?:32|64)\.(exe|pack)$"#.to_string(),
            modifiers: "i".to_string(),
            vars: vec![],
        }
    );

    let input0 = r#""/\/(?=[0-9]*?[a-z]*?[a-z0-9)(?=[a-z0-9]*[0-9][a-z]*[0-9][a-z0-9]*\.exe)(?!setup\d+\.exe)[a-z0-9]{5,15}\.exe/""#;
    let (_, _pcre) = parse_pcre(input0).unwrap();

    let input0 = r#""/passwd/main\x2Ephp\x3F[^\x0A\x0D]*backend\x3D[^\x0A\x0D\x26]*\x22/i""#;
    let (_, _pcre) = parse_pcre(input0).unwrap();

    let input0 = r#""/^(?:d(?:(?:ocu|uco)sign|ropbox)|o(?:ffice365|nedrive)|adobe|gdoc)/""#;
    let (_, _pcre) = parse_pcre(input0).unwrap();

    let input0 = r#"!"/^onedrivecl[a-z]{2}prod[a-z]{2}[0-9]{5}\./""#;
    let (_, pcre) = parse_pcre(input0).unwrap();
    assert_eq!(rem, "");
    assert!(pcre.negate);

    let input0 = r#"! "/^\w+\s+\w+:\/\/([^\/\s:#]+)[\/\s:#]\S*.+?Host:[ \t]*\1\S*\b/is""#;
    let (rem, pcre) = parse_pcre(input0).unwrap();
    assert_eq!(rem, "");
    assert_eq!(pcre.modifiers, "is");
    assert_eq!(
        pcre.pattern,
        r#"^\w+\s+\w+:\/\/([^\/\s:#]+)[\/\s:#]\S*.+?Host:[ \t]*\1\S*\b"#
    );
}
