//! The reference option: a scheme and a reference, such as `cve,2021-44228`.

use vstd::prelude::*;

use crate::error::{
    outcome, reject, ErrorKind, IResult, NomErrorKind, ParseError, Parsed, Rejection,
};
use crate::leaf::{lemma_find_one, lemma_prefix_one, skip_spaces, tag, take_until};
use crate::text::{lemma_run_len, other_than, skip_space, until};
use crate::types::{Reference, ReferenceView};

verus! {

/// What `parse_reference` returns.
pub open spec fn spec_parse_reference(input: Seq<char>) -> Parsed<ReferenceView> {
    let n = until(input, ',') as int;
    if n >= input.len() {
        reject(ErrorKind::Nom(NomErrorKind::TakeUntil), input)
    } else {
        Ok(
            (
                seq![],
                ReferenceView { scheme: input.take(n), reference: skip_space(input.skip(n + 1)) },
            ),
        )
    }
}

/// Parse the value of a reference option. All of the input behind the first comma is
/// the reference.
pub fn parse_reference<'a>(input: &'a str) -> (r: IResult<&'a str, Reference, ParseError<&'a str>>)
    ensures
        outcome(r) == spec_parse_reference(input@),
{
    proof {
        reveal_strlit(",");
        reveal_strlit("");
        assert(","@ == seq![',']);
        assert(""@ =~= Seq::<char>::empty());
        lemma_find_one(input@, ',');
        lemma_run_len(input@, other_than(','));
    }
    let (at_comma, scheme) = match take_until(",", input) {
        Some(found) => found,
        None => {
            return Err(
                Rejection::Error(ParseError::from_error_kind(input, NomErrorKind::TakeUntil)),
            );
        },
    };
    proof {
        lemma_prefix_one(at_comma@, ',');
    }
    let rest: &'a str = match tag(",", at_comma) {
        Some((rest, _)) => rest,
        None => {
            return Err(
                Rejection::Error(ParseError::from_error_kind(at_comma, NomErrorKind::Tag)),
            );
        },
    };
    assert(rest@ =~= input@.skip(until(input@, ',') as int + 1));
    let reference: &'a str = skip_spaces(rest);
    Ok(("", Reference { scheme: scheme.to_owned(), reference: reference.to_owned() }))
}

} // verus!
