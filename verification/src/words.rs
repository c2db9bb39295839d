//! The parsers of single words, separators and marks.

use vstd::prelude::*;

use crate::error::{
    accept, leaf_outcome, outcome, reject, ErrorKind, IResult, LeafError, NomErrorKind, ParseError,
    Parsed, Rejection,
};
use crate::leaf::{is_not, lemma_prefix_one, lemma_prefix_two, one_of, outside, skip_spaces, tag};
use crate::text::{
    head_is, is_space, lemma_run_len, lemma_run_len_unique, run_len, skip_space, space,
};
use crate::types::Direction;

verus! {

/// `" \t\r\n"` ends a word.
pub open spec fn is_word(c: char) -> bool {
    !is_space(c)
}

/// `is_word` as a predicate.
pub open spec fn word() -> spec_fn(char) -> bool {
    |c: char| is_word(c)
}

/// The characters that end a token.
pub open spec fn ends_token(c: char) -> bool {
    c == '\n' || c == '\r' || c == '\t' || c == ',' || c == ';' || c == ':' || c == ' '
}

/// Every character but those that end a token, as a predicate.
pub open spec fn token() -> spec_fn(char) -> bool {
    |c: char| !ends_token(c)
}

/// Every character but those that end the name of an option, as a predicate.
pub open spec fn name() -> spec_fn(char) -> bool {
    |c: char| c != ';' && c != ':'
}

/// The longest nonempty run of characters that satisfy `p`, after any spaces.
pub open spec fn spec_run(p: spec_fn(char) -> bool, input: Seq<char>) -> Parsed<Seq<char>> {
    let s = skip_space(input);
    let n = run_len(s, p) as int;
    if n == 0 {
        reject(ErrorKind::Nom(NomErrorKind::IsNot), s)
    } else {
        Ok((s.skip(n), s.take(n)))
    }
}

/// What `take_until_whitespace` returns.
pub open spec fn spec_take_until_whitespace(input: Seq<char>) -> Parsed<Seq<char>> {
    spec_run(word(), input)
}

/// What `parse_token` returns.
pub open spec fn spec_parse_token(input: Seq<char>) -> Parsed<Seq<char>> {
    spec_run(token(), input)
}

/// What `option_name` returns.
pub open spec fn spec_option_name(input: Seq<char>) -> Parsed<Seq<char>> {
    spec_run(name(), input)
}

/// What `parse_tag(sep)` returns.
pub open spec fn spec_parse_tag(sep: Seq<char>, input: Seq<char>) -> Parsed<Seq<char>> {
    let s = skip_space(input);
    if sep.is_prefix_of(s) {
        Ok((s.skip(sep.len() as int), sep))
    } else {
        reject(ErrorKind::Nom(NomErrorKind::Tag), s)
    }
}

/// What `options_separator` returns.
pub open spec fn spec_options_separator(input: Seq<char>) -> Parsed<char> {
    let s = skip_space(input);
    if head_is(s, ';') || head_is(s, ':') {
        Ok((s.skip(1), s[0]))
    } else {
        reject(ErrorKind::Nom(NomErrorKind::OneOf), s)
    }
}

/// What `parse_direction` returns.
pub open spec fn spec_parse_direction(input: Seq<char>) -> Parsed<Direction> {
    if head_is(input, '-') && head_is(input.skip(1), '>') {
        Ok((input.skip(2), Direction::Single))
    } else if head_is(input, '<') && head_is(input.skip(1), '>') {
        Ok((input.skip(2), Direction::Both))
    } else {
        reject(ErrorKind::Invalid, input)
    }
}

/// What `end_of_options` returns.
pub open spec fn spec_end_of_options(input: Seq<char>) -> Result<
    (Seq<char>, Seq<char>),
    Rejection<LeafError<Seq<char>>>,
> {
    let s = skip_space(input);
    if head_is(s, ')') {
        Ok((s.skip(1), seq![')']))
    } else {
        Err(Rejection::Error(LeafError { input: s, code: NomErrorKind::Tag }))
    }
}

/// The longest nonempty run of characters outside `stop`, after any spaces.
fn parse_run<'a>(stop: &str, input: &'a str) -> (r: IResult<&'a str, &'a str, ParseError<&'a str>>)
    ensures
        outcome(r) == spec_run(outside(stop@), input@),
{
    let s: &'a str = skip_spaces(input);
    match is_not(stop, s) {
        Some(found) => Ok(found),
        None => Err(Rejection::Error(ParseError::from_error_kind(s, NomErrorKind::IsNot))),
    }
}

/// A token is its own token.
pub proof fn lemma_token_again(input: Seq<char>)
    ensures
        spec_parse_token(input) matches Ok((rest, found)) ==> spec_parse_token(found) == accept(
            seq![],
            found,
        ),
{
    let s = skip_space(input);
    let n = run_len(s, token());
    lemma_run_len(s, token());
    if n > 0 {
        let found = s.take(n as int);
        assert forall|k: int| 0 <= k < found.len() implies token()(#[trigger] found[k]) by {
            assert(found[k] == s[k]);
        }
        lemma_run_len_unique(found, token(), n);
        lemma_run_len_unique(found, space(), 0);
        assert(found.skip(0) =~= found);
        assert(found.skip(n as int) =~= Seq::<char>::empty());
        assert(found.take(n as int) =~= found);
    }
}

/// Get the next sequence of characters up until the next whitespace, ignoring
/// any leading whitespace.
pub fn take_until_whitespace<'a>(input: &'a str) -> (r: IResult<
    &'a str,
    &'a str,
    ParseError<&'a str>,
>)
    ensures
        outcome(r) == spec_take_until_whitespace(input@),
{
    proof {
        reveal_strlit(" \t\r\n");
        let list = " \t\r\n"@;
        assert forall|c: char| #[trigger] list.contains(c) == is_space(c) by {
            assert(list[0] == ' ' && list[1] == '\t' && list[2] == '\r' && list[3] == '\n');
        }
        assert(outside(list) =~= word());
    }
    parse_run(" \t\r\n", input)
}

/// Parse the next token ignoring leading whitespace.
///
/// A token is the next sequence of chars until a terminating character.
pub fn parse_token<'a>(input: &'a str) -> (r: IResult<&'a str, &'a str, ParseError<&'a str>>)
    ensures
        outcome(r) == spec_parse_token(input@),
{
    proof {
        reveal_strlit("\n\r\t,;: ");
        let list = "\n\r\t,;: "@;
        assert forall|c: char| #[trigger] list.contains(c) == ends_token(c) by {
            assert(list[0] == '\n' && list[1] == '\r' && list[2] == '\t' && list[3] == ',');
            assert(list[4] == ';' && list[5] == ':' && list[6] == ' ');
        }
        assert(outside(list) =~= token());
    }
    parse_run("\n\r\t,;: ", input)
}

/// Parse the name of an option: everything up to the next `;` or `:`.
pub fn option_name<'a>(input: &'a str) -> (r: IResult<&'a str, &'a str, ParseError<&'a str>>)
    ensures
        outcome(r) == spec_option_name(input@),
{
    proof {
        reveal_strlit(";:");
        let list = ";:"@;
        assert forall|c: char| #[trigger] list.contains(c) == (c == ';' || c == ':') by {
            assert(list[0] == ';' && list[1] == ':');
        }
        assert(outside(list) =~= name());
    }
    parse_run(";:", input)
}

/// The text `sep` at the start of `input`, after any spaces.
pub(crate) fn parse_tag_in<'a>(sep: &str, input: &'a str) -> (r: IResult<
    &'a str,
    &'a str,
    ParseError<&'a str>,
>)
    ensures
        outcome(r) == spec_parse_tag(sep@, input@),
{
    let s: &'a str = skip_spaces(input);
    match tag(sep, s) {
        Some(found) => Ok(found),
        None => Err(Rejection::Error(ParseError::from_error_kind(s, NomErrorKind::Tag))),
    }
}

/// Parse a tag ignoring any leading whitespace.
///
/// Useful for parsing an expected separator or keyword.
pub fn parse_tag<'s>(sep: &'s str) -> (parser: impl Fn(&str) -> IResult<
    &str,
    &str,
    ParseError<&str>,
> + 's)
    ensures
        forall|input: &str| call_requires(parser, (input,)),
        forall|input: &str, r: IResult<&str, &str, ParseError<&str>>|
            call_ensures(parser, (input,), r) ==> outcome(r) == spec_parse_tag(sep@, input@),
{
    move |input: &str| -> (r: IResult<&str, &str, ParseError<&str>>)
        ensures
            outcome(r) == spec_parse_tag(sep@, input@),
        { parse_tag_in(sep, input) }
}

/// Parse the `(` before the options of a rule.
pub fn start_of_options<'a>(input: &'a str) -> (r: IResult<&'a str, &'a str, ParseError<&'a str>>)
    ensures
        outcome(r) == spec_parse_tag(seq!['('], input@),
{
    proof {
        reveal_strlit("(");
        assert("("@ == seq!['(']);
    }
    parse_tag_in("(", input)
}

/// Parse the `)` after the options of a rule.
pub fn end_of_options<'a>(input: &'a str) -> (r: IResult<&'a str, &'a str, LeafError<&'a str>>)
    ensures
        leaf_outcome(r) == spec_end_of_options(input@),
{
    proof {
        reveal_strlit(")");
        assert(")"@ == seq![')']);
    }
    let s: &'a str = skip_spaces(input);
    proof {
        lemma_prefix_one(s@, ')');
    }
    match tag(")", s) {
        Some(found) => Ok(found),
        None => Err(Rejection::Error(LeafError { input: s, code: NomErrorKind::Tag })),
    }
}

/// Parse the mark after the name of an option: `;` or `:`.
pub fn options_separator<'a>(input: &'a str) -> (r: IResult<&'a str, char, ParseError<&'a str>>)
    ensures
        outcome(r) == spec_options_separator(input@),
{
    proof {
        reveal_strlit(";:");
        let list = ";:"@;
        assert forall|c: char| #[trigger] list.contains(c) == (c == ';' || c == ':') by {
            assert(list[0] == ';' && list[1] == ':');
        }
    }
    let s: &'a str = skip_spaces(input);
    match one_of(";:", s) {
        Some(found) => Ok(found),
        None => Err(Rejection::Error(ParseError::from_error_kind(s, NomErrorKind::OneOf))),
    }
}

/// Parse the direction of a rule.
pub fn parse_direction<'a>(input: &'a str) -> (r: IResult<&'a str, Direction, ParseError<&'a str>>)
    ensures
        outcome(r) == spec_parse_direction(input@),
{
    proof {
        reveal_strlit("->");
        reveal_strlit("<>");
        lemma_prefix_two(input@, '-', '>');
        lemma_prefix_two(input@, '<', '>');
        assert("->"@ == seq!['-', '>']);
        assert("<>"@ == seq!['<', '>']);
    }
    if let Some((rest, _)) = tag("->", input) {
        return Ok((rest, Direction::Single));
    }
    if let Some((rest, _)) = tag("<>", input) {
        return Ok((rest, Direction::Both));
    }
    Err(Rejection::Error(ParseError { kind: ErrorKind::Invalid, input }))
}

/// Parse an end quote: up to and including a quote that is only prefixed by
/// optional whitespace.
pub fn parse_end_quote<'a>(input: &'a str) -> (r: IResult<&'a str, &'a str, ParseError<&'a str>>)
    ensures
        outcome(r) == spec_parse_tag(seq!['"'], input@),
{
    proof {
        reveal_strlit("\"");
        assert("\""@ == seq!['"']);
    }
    parse_tag_in("\"", input)
}

} // verus!
