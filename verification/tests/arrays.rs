//! Address and port arrays.

use suricata_rule_parser::{
    check_token_and_add, parse_array, scan_array, ArrayElement, ErrorKind, IResult, NomErrorKind,
    ParseError, Rejection,
};

fn rejected<T>(kind: ErrorKind, input: &str) -> IResult<&str, T, ParseError<&str>> {
    Err(Rejection::Error(ParseError { kind, input }))
}

fn text(s: &str) -> ArrayElement {
    ArrayElement::String(s.to_string())
}

fn not(e: ArrayElement) -> ArrayElement {
    ArrayElement::Not(Box::new(e))
}

#[test]
fn array_with_exclusions() {
    let (rest, list) = parse_array("[10.0.0.0/8,!10.1.0.1, ![a , !b],c] any").unwrap();
    assert_eq!(rest, " any");
    assert_eq!(
        list,
        vec![
            text("10.0.0.0/8"),
            not(text("10.1.0.1")),
            not(ArrayElement::Array(vec![text("a"), not(text("b"))])),
            text("c"),
        ]
    );
}

#[test]
fn excluded_array_is_one_element() {
    assert_eq!(
        parse_array("  ![a,b]x"),
        Ok(("x", vec![not(ArrayElement::Array(vec![text("a"), text("b")]))]))
    );
    assert_eq!(parse_array("!a b"), Ok((" b", vec![not(text("a"))])));
    assert_eq!(parse_array("! a"), Ok(("", vec![not(text("a"))])));
}

#[test]
fn elements_may_be_empty_or_missing() {
    assert_eq!(parse_array("[]x"), Ok(("x", vec![])));
    assert_eq!(parse_array("[,,]"), Ok(("", vec![])));
    assert_eq!(parse_array("[[]]"), Ok(("", vec![ArrayElement::Array(vec![])])));
    // A `!` that no element follows is taken by the next element on its level.
    assert_eq!(parse_array("[!,a,b]"), Ok(("", vec![not(text("a")), text("b")])));
    assert_eq!(parse_array("[a!b]"), Ok(("", vec![text("a!b")])));
    assert_eq!(parse_array("[!!a,b]"), Ok(("", vec![not(text("a")), not(text("b"))])));
}

#[test]
fn text_in_front_of_an_inner_array_goes_on_inside_it() {
    assert_eq!(
        parse_array("[a[b],c]"),
        Ok(("", vec![ArrayElement::Array(vec![text("ab")]), text("c")]))
    );
}

#[test]
fn elements_are_trimmed_at_the_end() {
    assert_eq!(
        parse_array("[ a \u{a0},\tb c\n,\nd]"),
        Ok(("", vec![text("a"), text("b c"), text("\nd")]))
    );
}

#[test]
fn array_of_several_byte_characters() {
    assert_eq!(
        parse_array("\u{2003}[\u{e9},\u{1f600}]\u{4e2d}"),
        Ok(("\u{4e2d}", vec![text("\u{e9}"), text("\u{1f600}")]))
    );
    assert_eq!(scan_array("\u{2003}[\u{e9},\u{1f600}]\u{4e2d}"), Ok(("\u{4e2d}", "[\u{e9},\u{1f600}]")));
}

#[test]
fn open_array_is_unterminated() {
    assert_eq!(parse_array(" [a,[b]"), rejected(ErrorKind::UnterminatedArray, "[a,[b]"));
    assert_eq!(parse_array("![a"), rejected(ErrorKind::UnterminatedArray, "[a"));
    assert_eq!(scan_array(" [a,[b] c"), Ok(("", "[a,[b] c")));
}

#[test]
fn scalar_is_rejected_where_there_is_none() {
    let kind = ErrorKind::Nom(NomErrorKind::IsNot);
    assert_eq!(parse_array(" "), rejected(kind.clone(), ""));
    assert_eq!(parse_array("!"), rejected(kind.clone(), ""));
    assert_eq!(scan_array("\t\n"), rejected(kind, ""));
    // The scanner takes an exclusion mark for text.
    assert_eq!(scan_array("![a, b]"), Ok((" b]", "![a,")));
}

#[test]
fn token_is_added_to_the_innermost_array() {
    let mut marks: Vec<usize> = vec![1, 2];
    let mut token = "a \u{a0}".to_string();
    let mut stack = vec![vec![text("x")], vec![]];
    assert_eq!(check_token_and_add("in", 2, &mut marks, &mut token, &mut stack), Ok(((), ())));
    assert_eq!(marks, vec![1]);
    assert_eq!(token, "");
    assert_eq!(stack, vec![vec![text("x")], vec![not(text("a"))]]);

    let mut token = "b".to_string();
    assert_eq!(check_token_and_add("in", 2, &mut marks, &mut token, &mut stack), Ok(((), ())));
    assert_eq!(marks, vec![1]);
    assert_eq!(stack, vec![vec![text("x")], vec![not(text("a")), text("b")]]);
}

#[test]
fn token_that_no_array_takes_is_rejected() {
    let mut marks: Vec<usize> = vec![0];
    let mut token = "a".to_string();
    let mut stack: Vec<Vec<ArrayElement>> = vec![];
    assert_eq!(
        check_token_and_add("in", 0, &mut marks, &mut token, &mut stack),
        Err(Rejection::Error(ParseError { kind: ErrorKind::UnterminatedArray, input: "in" }))
    );
    assert_eq!((marks.len(), token.as_str(), stack.len()), (1, "a", 0));

    let mut token = String::new();
    assert_eq!(check_token_and_add("in", 0, &mut marks, &mut token, &mut stack), Ok(((), ())));
    assert_eq!((marks.len(), stack.len()), (1, 0));
}

#[test]
fn clone_of_an_element() {
    let (_, list) = parse_array("[a,![b,[c]],!d]").unwrap();
    assert_eq!(list.clone(), list);
    assert_eq!(ArrayElement::not_string("a".to_string()), not(text("a")));
    assert_eq!(ArrayElement::not_array(list.clone()), not(ArrayElement::Array(list)));
}

/// The texts of up to `len` characters of `alphabet`.
fn all_texts(alphabet: &[char], len: usize) -> Vec<String> {
    let mut all = vec![String::new()];
    let mut start = 0;
    for _ in 0..len {
        let end = all.len();
        for i in start..end {
            for c in alphabet {
                let mut longer = all[i].clone();
                longer.push(*c);
                all.push(longer);
            }
        }
        start = end;
    }
    all
}

fn count(s: &str, c: char) -> usize {
    s.chars().filter(|x| *x == c).count()
}

/// On every short array the parser and the scanner agree, an array is accepted if and only
/// if its brackets close, and its elements depend only on the scanned text.
#[test]
fn parser_and_scanner_agree_on_short_arrays() {
    for tail in all_texts(&['[', ']', ',', '!', ' ', 'a'], 5) {
        let input = format!("[{}", tail);
        let closes = (1..=input.len())
            .find(|n| count(&input[..*n], '[') == count(&input[..*n], ']'));
        match closes {
            Some(n) => {
                let (rest, _) = parse_array(&input).unwrap();
                assert_eq!(rest, &input[n..]);
                assert_eq!(scan_array(&input), Ok((rest, &input[..n])));
                let (_, list) = parse_array(&input).unwrap();
                assert_eq!(parse_array(&input[..n]), Ok(("", list)));
                assert!(parse_array(&format!("!{}", input)).is_ok());
            }
            None => {
                assert_eq!(
                    parse_array(&input),
                    rejected(ErrorKind::UnterminatedArray, input.as_str())
                );
                assert_eq!(scan_array(&input), Ok(("", input.as_str())));
                assert!(parse_array(&format!("!{}", input)).is_err());
            }
        }
    }
}

/// On single words the parser and the scanner agree, and a `!` excludes what follows it.
#[test]
fn single_words_and_exclusions() {
    for word in ["a", "10.0.0.1", "$HOME_NET", "a,b]", "\u{e9}"] {
        let input = format!(" {} x", word);
        assert_eq!(scan_array(&input), Ok((" x", word)));
        assert_eq!(parse_array(&input), Ok((" x", vec![text(word)])));
        let excluded = format!(" !{} x", word);
        assert_eq!(parse_array(&excluded), Ok((" x", vec![not(text(word))])));
        let array = format!(" ![{}] x", word);
        let inner = format!("[{}] x", word);
        let (rest, list) = parse_array(&inner).unwrap();
        assert_eq!(parse_array(&array), Ok((rest, vec![not(ArrayElement::Array(list))])));
    }
}

fn render(e: &ArrayElement) -> String {
    match e {
        ArrayElement::String(s) => s.clone(),
        ArrayElement::Not(inner) => format!("!{}", render(inner)),
        ArrayElement::Array(list) => {
            let parts: Vec<String> = list.iter().map(render).collect();
            format!("[{}]", parts.join(","))
        }
    }
}

/// Elements of nested arrays, written out, are read back.
#[test]
fn nested_arrays_read_back() {
    let mut level = vec![text("a"), text("b c"), not(text("d!"))];
    for _ in 0..4 {
        let list = ArrayElement::Array(level.clone());
        let written = format!("{} rest", render(&list));
        assert_eq!(parse_array(&written), Ok((" rest", level.clone())));
        let negated = format!("!{} rest", render(&list));
        assert_eq!(parse_array(&negated), Ok((" rest", vec![not(list.clone())])));
        level = vec![text("x"), list.clone(), not(list), ArrayElement::Array(vec![]), text("y")];
    }
}

/// White space in front of an array, and at the end of an element, is every character with
/// the Unicode property `White_Space`.
#[test]
fn white_space_around_arrays() {
    for c in (0..=0x3100u32).chain(0xfe00..=0xffff).filter_map(char::from_u32) {
        let white = matches!(c, '\u{9}'..='\u{d}' | ' ' | '\u{85}' | '\u{a0}' | '\u{1680}'
            | '\u{2000}'..='\u{200a}' | '\u{2028}' | '\u{2029}' | '\u{202f}' | '\u{205f}'
            | '\u{3000}');
        if c != '!' && c != '[' {
            let led = format!("{}[x]", c);
            assert_eq!(parse_array(&led) == Ok(("", vec![text("x")])), white);
        }
        if c != ',' && c != ']' && c != '[' {
            let ended = format!("[x{}]", c);
            assert_eq!(parse_array(&ended) == Ok(("", vec![text("x")])), white);
        }
    }
}
