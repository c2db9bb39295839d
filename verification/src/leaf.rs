//! The leaf parsers. Each is one parser of the `nom` crate on a `&str`; it gives
//! the rest of the input and the text that matched, or `None`. `nom` reports a
//! leaf that does not match as a recoverable error at the leaf's own input.

use vstd::prelude::*;

use crate::text::{head_is, run_len, skip_space, space, until};

verus! {

/// Every character that is not in `list`, as a predicate.
pub open spec fn outside(list: Seq<char>) -> spec_fn(char) -> bool {
    |c: char| !list.contains(c)
}

/// The ASCII letters and digits.
pub open spec fn is_alphanumeric(c: char) -> bool {
    'a' <= c <= 'z' || 'A' <= c <= 'Z' || '0' <= c <= '9'
}

/// `is_alphanumeric` as a predicate.
pub open spec fn alphanumeric() -> spec_fn(char) -> bool {
    |c: char| is_alphanumeric(c)
}

/// The characters of an item of a comma separated list.
pub open spec fn is_item(c: char) -> bool {
    c != ',' && c != ';'
}

/// `is_item` as a predicate.
pub open spec fn item() -> spec_fn(char) -> bool {
    |c: char| is_item(c)
}

/// The index of the first occurrence of `t` in `s`.
pub open spec fn find_text(s: Seq<char>, t: Seq<char>) -> Option<nat>
    decreases s.len(),
{
    if t.is_prefix_of(s) {
        Some(0)
    } else if s.len() == 0 {
        None
    } else {
        match find_text(s.skip(1), t) {
            Some(n) => Some(n + 1),
            None => None,
        }
    }
}

/// A text of one character starts `s` if that is the first character of `s`.
pub proof fn lemma_prefix_one(s: Seq<char>, c: char)
    ensures
        seq![c].is_prefix_of(s) == head_is(s, c),
{
    if head_is(s, c) {
        assert(seq![c] =~= s.subrange(0, 1));
    } else if s.len() > 0 {
        assert(s.subrange(0, 1)[0] == s[0]);
        assert(seq![c][0] == c);
    }
}

/// A text of two characters starts `s` if those are the first two of `s`.
pub proof fn lemma_prefix_two(s: Seq<char>, c: char, d: char)
    ensures
        seq![c, d].is_prefix_of(s) == (head_is(s, c) && head_is(s.skip(1), d)),
{
    if head_is(s, c) && head_is(s.skip(1), d) {
        assert(seq![c, d] =~= s.subrange(0, 2));
    } else if s.len() > 1 {
        assert(s.subrange(0, 2)[0] == s[0]);
        assert(s.subrange(0, 2)[1] == s.skip(1)[0]);
        assert(seq![c, d][0] == c && seq![c, d][1] == d);
    }
}

/// A text of one character first occurs where that character does.
pub proof fn lemma_find_one(s: Seq<char>, c: char)
    ensures
        find_text(s, seq![c]) == (if until(s, c) < s.len() {
            Some(until(s, c))
        } else {
            None
        }),
    decreases s.len(),
{
    lemma_prefix_one(s, c);
    if s.len() > 0 && s[0] != c {
        lemma_find_one(s.skip(1), c);
    }
}

/// Whether `r` is `s` cut after its first `n` characters: first what follows,
/// then what precedes the cut.
pub open spec fn cut(r: (&str, &str), s: Seq<char>, n: int) -> bool {
    r.0@ == s.skip(n) && r.1@ == s.take(n)
}

/// `nom::character::complete::multispace0`: takes the spaces, tabs, carriage
/// returns and line feeds that the input starts with, and never fails.
#[verifier::external_body]
fn multispace0<'a>(input: &'a str) -> (r: Option<(&'a str, &'a str)>)
    ensures
        r is Some,
        cut(r->0, input@, run_len(input@, space()) as int),
{
    nom::character::complete::multispace0::<&str, nom::error::Error<&str>>(input).ok()
}

/// `input` without the spaces that it starts with.
pub(crate) fn skip_spaces<'a>(input: &'a str) -> (r: &'a str)
    ensures
        r@ == skip_space(input@),
{
    match multispace0(input) {
        Some((rest, _)) => rest,
        None => input,
    }
}

/// `nom::bytes::complete::is_not`: takes the characters up to the first one that
/// occurs in `stop`, or all of them, and fails if that is none.
#[verifier::external_body]
pub(crate) fn is_not<'a>(stop: &str, input: &'a str) -> (r: Option<(&'a str, &'a str)>)
    ensures
        r is Some <==> run_len(input@, outside(stop@)) > 0,
        r is Some ==> cut(r->0, input@, run_len(input@, outside(stop@)) as int),
{
    nom::bytes::complete::is_not::<&str, &str, nom::error::Error<&str>>(stop)(input).ok()
}

/// `nom::bytes::complete::tag`: takes `text` if the input starts with it, and
/// fails otherwise.
#[verifier::external_body]
pub(crate) fn tag<'a>(text: &str, input: &'a str) -> (r: Option<(&'a str, &'a str)>)
    ensures
        r is Some <==> text@.is_prefix_of(input@),
        r is Some ==> cut(r->0, input@, text@.len() as int),
{
    nom::bytes::complete::tag::<&str, &str, nom::error::Error<&str>>(text)(input).ok()
}

/// `nom::bytes::complete::take_until`: takes what precedes the first occurrence
/// of `text`, and fails if there is none.
#[verifier::external_body]
pub(crate) fn take_until<'a>(text: &str, input: &'a str) -> (r: Option<(&'a str, &'a str)>)
    ensures
        r is Some <==> find_text(input@, text@) is Some,
        r is Some ==> cut(r->0, input@, find_text(input@, text@)->0 as int),
{
    nom::bytes::complete::take_until::<&str, &str, nom::error::Error<&str>>(text)(input).ok()
}

/// Whether `c` can stand in an item of a comma separated list.
pub(crate) fn is_item_char(c: char) -> (r: bool)
    ensures
        r == is_item(c),
{
    c != ',' && c != ';'
}

/// `nom::bytes::complete::take_while` on `is_item_char`: takes the characters up
/// to the first that it rejects, or all of them, and never fails.
#[verifier::external_body]
pub(crate) fn take_while_item<'a>(input: &'a str) -> (r: Option<(&'a str, &'a str)>)
    ensures
        r is Some,
        cut(r->0, input@, run_len(input@, item()) as int),
{
    nom::bytes::complete::take_while::<_, &str, nom::error::Error<&str>>(
        |c: char| is_item_char(c),
    )(input).ok()
}

/// `nom::character::complete::alphanumeric1`: takes the ASCII letters and digits
/// that the input starts with, and fails if there are none.
#[verifier::external_body]
pub(crate) fn alphanumeric1<'a>(input: &'a str) -> (r: Option<(&'a str, &'a str)>)
    ensures
        r is Some <==> run_len(input@, alphanumeric()) > 0,
        r is Some ==> cut(r->0, input@, run_len(input@, alphanumeric()) as int),
{
    nom::character::complete::alphanumeric1::<&str, nom::error::Error<&str>>(input).ok()
}

/// `nom::character::complete::one_of`: takes the first character if it occurs in
/// `list`, and fails otherwise, as on the empty input.
#[verifier::external_body]
pub(crate) fn one_of<'a>(list: &str, input: &'a str) -> (r: Option<(&'a str, char)>)
    ensures
        r is Some <==> (input@.len() > 0 && list@.contains(input@[0])),
        r is Some ==> (r->0).0@ == input@.skip(1) && (r->0).1 == input@[0],
{
    nom::character::complete::one_of::<&str, &str, nom::error::Error<&str>>(list)(input).ok()
}

/// `nom::character::complete::none_of`: takes the first character unless it
/// occurs in `list`, and fails if it does, or if the input is empty.
#[verifier::external_body]
pub(crate) fn none_of<'a>(list: &str, input: &'a str) -> (r: Option<(&'a str, char)>)
    ensures
        r is Some <==> (input@.len() > 0 && !list@.contains(input@[0])),
        r is Some ==> (r->0).0@ == input@.skip(1) && (r->0).1 == input@[0],
{
    nom::character::complete::none_of::<&str, &str, nom::error::Error<&str>>(list)(input).ok()
}

} // verus!
