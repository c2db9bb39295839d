//! Numbers, and names that stand for one.

use vstd::prelude::*;

use crate::error::{outcome_with, reject, ErrorKind, IResult, ParseError, Parsed, Rejection};
use crate::integer::{bounded_value, Integer};
use crate::leaf::{lemma_prefix_two, tag};
use crate::text::head_is;
use crate::types::{NumberOrReference, NumberOrReferenceView};
use crate::words::{parse_token, spec_parse_token};

verus! {

/// The integer between `min` and `max` that `token` writes: in base sixteen behind
/// `0x` or `0X`, and in base ten otherwise.
pub open spec fn token_value(token: Seq<char>, min: int, max: int) -> Option<int> {
    if head_is(token, '0') && (head_is(token.skip(1), 'x') || head_is(token.skip(1), 'X')) {
        bounded_value(token.skip(2), 16, min, max)
    } else {
        bounded_value(token, 10, min, max)
    }
}

/// What `parse_number` returns for a type whose values lie between `min` and `max`.
pub open spec fn spec_parse_number(input: Seq<char>, min: int, max: int) -> Parsed<int> {
    match spec_parse_token(input) {
        Ok((rest, token)) => match token_value(token, min, max) {
            Some(n) => Ok((rest, n)),
            None => reject(ErrorKind::BadNumber, token),
        },
        Err(e) => Err(e),
    }
}

/// What `parse_number_or_reference` returns for a type whose values lie between
/// `min` and `max`.
pub open spec fn spec_parse_number_or_reference(input: Seq<char>, min: int, max: int) -> Parsed<
    NumberOrReferenceView,
> {
    match spec_parse_token(input) {
        Ok((rest, token)) => Ok(
            (
                rest,
                match token_value(token, min, max) {
                    Some(n) => NumberOrReferenceView::Number(n),
                    None => NumberOrReferenceView::Name(token),
                },
            ),
        ),
        Err(e) => Err(e),
    }
}

/// The model of a `NumberOrReference`.
pub open spec fn number_or_reference<T: Integer>(n: NumberOrReference<T>) -> NumberOrReferenceView {
    match n {
        NumberOrReference::Number(n) => NumberOrReferenceView::Number(n.int_value()),
        NumberOrReference::Name(name) => NumberOrReferenceView::Name(name@),
    }
}

/// The base in which `token` writes a number, and its digits: base sixteen behind `0x` or
/// `0X`, and base ten otherwise.
pub fn number_digits<'a>(token: &'a str) -> (r: (u32, &'a str))
    ensures
        r.0 == 16 || r.0 == 10,
        r.0 == 16 <==> head_is(token@, '0') && (head_is(token@.skip(1), 'x') || head_is(
            token@.skip(1),
            'X',
        )),
        r.1@ == (if r.0 == 16 {
            token@.skip(2)
        } else {
            token@
        }),
{
    proof {
        reveal_strlit("0x");
        reveal_strlit("0X");
        lemma_prefix_two(token@, '0', 'x');
        lemma_prefix_two(token@, '0', 'X');
        assert("0x"@ == seq!['0', 'x']);
        assert("0X"@ == seq!['0', 'X']);
    }
    if let Some((digits, _)) = tag("0x", token) {
        return (16, digits);
    }
    if let Some((digits, _)) = tag("0X", token) {
        return (16, digits);
    }
    (10, token)
}

/// The result of parsing a number, where `token` is the token that was found, `rest` what
/// remains behind it, and `number` its value if it has one.
pub fn number_result<'a, T>(rest: &'a str, token: &'a str, number: Option<T>) -> (r: IResult<
    &'a str,
    T,
    ParseError<&'a str>,
>)
    ensures
        r == (match number {
            Some(n) => Ok((rest, n)),
            None => Err(
                Rejection::Error(ParseError { kind: ErrorKind::BadNumber, input: token }),
            ),
        }),
{
    match number {
        Some(n) => Ok((rest, n)),
        None => Err(
            Rejection::Error(ParseError { kind: ErrorKind::BadNumber, input: token }),
        ),
    }
}

/// The number that `token` writes, if it has a value, and the name `token` otherwise.
pub fn number_or_name<T>(token: &str, number: Option<T>) -> (r: NumberOrReference<T>)
    ensures
        match number {
            Some(n) => r == NumberOrReference::Number(n),
            None => r matches NumberOrReference::Name(name) && name@ == token@,
        },
{
    match number {
        Some(n) => NumberOrReference::Number(n),
        None => NumberOrReference::Name(token.to_owned()),
    }
}

/// The value of a token as a number of type T.
fn token_number<T: Integer>(token: &str) -> (r: Option<T>)
    ensures
        match r {
            Some(n) => token_value(token@, T::min_int(), T::max_int()) == Some(n.int_value()),
            None => token_value(token@, T::min_int(), T::max_int()) is None,
        },
{
    let (radix, digits) = number_digits(token);
    if radix == 16 {
        T::from_text_radix(digits, 16)
    } else {
        T::from_text(digits)
    }
}

/// Parse a number of type T.
pub fn parse_number<'a, T: Integer>(input: &'a str) -> (r: IResult<&'a str, T, ParseError<&'a str>>)
    ensures
        outcome_with(r, |n: T| n.int_value()) == spec_parse_number(
            input@,
            T::min_int(),
            T::max_int(),
        ),
{
    match parse_token(input) {
        Ok((rest, token)) => number_result(rest, token, token_number::<T>(token)),
        Err(e) => Err(e),
    }
}

/// Parse a number of type T, or the name of a variable.
pub fn parse_number_or_reference<'a, T: Integer>(input: &'a str) -> (r: IResult<
    &'a str,
    NumberOrReference<T>,
    ParseError<&'a str>,
>)
    ensures
        outcome_with(r, |n: NumberOrReference<T>| number_or_reference(n))
            == spec_parse_number_or_reference(input@, T::min_int(), T::max_int()),
{
    match parse_token(input) {
        Ok((rest, token)) => Ok((rest, number_or_name(token, token_number::<T>(token)))),
        Err(e) => Err(e),
    }
}

} // verus!
