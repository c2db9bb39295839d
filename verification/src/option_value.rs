//! The value of a rule option, up to the `;` that ends it.

use vstd::prelude::*;

use crate::error::{outcome, reject, ErrorKind, IResult, ParseError, Parsed, Rejection};
use crate::leaf::skip_spaces;
use crate::text::{skip_space, split_text};

verus! {

/// Whether the character of `s` at `i` is a `;` that no backslash precedes.
pub open spec fn ends_value(s: Seq<char>, i: int) -> bool {
    0 <= i < s.len() && s[i] == ';' && (i == 0 || s[i - 1] != '\\')
}

/// The first index from `i` on at which `ends_value` holds.
pub open spec fn value_end(s: Seq<char>, i: nat) -> Option<nat>
    decreases s.len() - i,
{
    if i >= s.len() {
        None
    } else if ends_value(s, i as int) {
        Some(i)
    } else {
        value_end(s, i + 1)
    }
}

/// What `parse_option_value` returns.
pub open spec fn spec_parse_option_value(input: Seq<char>) -> Parsed<Seq<char>> {
    let s = skip_space(input);
    match value_end(s, 0) {
        Some(n) => Ok((s.skip(n as int + 1), s.take(n as int))),
        None => reject(ErrorKind::UnterminatedRuleOptionValue, s),
    }
}

/// What `value_end` finds.
pub proof fn lemma_value_end(s: Seq<char>, i: nat)
    ensures
        match value_end(s, i) {
            Some(n) => i <= n < s.len() && ends_value(s, n as int) && forall|k: int|
                i <= k < n ==> !#[trigger] ends_value(s, k),
            None => forall|k: int| i <= k ==> !#[trigger] ends_value(s, k),
        },
    decreases s.len() - i,
{
    if i < s.len() && !ends_value(s, i as int) {
        lemma_value_end(s, i + 1);
    }
}

/// Parse the value for an option.
///
/// This parser expects the input to be the first character after the ':'
/// following an option name. It will return all the characters up to but not
/// including the option terminator ';', handling all escaped occurrences of the
/// option terminator.
///
/// The remaining input returned does not contain the option terminator.
pub fn parse_option_value<'a>(input: &'a str) -> (r: IResult<&'a str, &'a str, ParseError<&'a str>>)
    ensures
        outcome(r) == spec_parse_option_value(input@),
{
    // First jump over any leading whitespace.
    let input: &'a str = skip_spaces(input);
    let len: usize = input.unicode_len();
    let mut escaped: bool = false;
    let mut end: usize = 0;
    let mut terminated: bool = false;
    for c in it: input.chars()
        invariant_except_break
            it.seq() == input@,
            len == input@.len(),
            end == it.index(),
            !terminated,
            escaped == (end > 0 && input@[end - 1] == '\\'),
            value_end(input@, 0) == value_end(input@, end as nat),
        ensures
            end <= input@.len(),
            terminated ==> end > 0 && value_end(input@, 0) == Some((end - 1) as nat),
            !terminated ==> value_end(input@, 0) is None,
    {
        end = end + 1;
        if c == '\\' {
            escaped = true;
        } else if escaped {
            escaped = false;
        } else if c == ';' {
            terminated = true;
            break;
        }
    }
    if !terminated {
        Err(
            Rejection::Error(ParseError { kind: ErrorKind::UnterminatedRuleOptionValue, input }),
        )
    } else {
        let (value, _) = split_text(input, end - 1);
        let (_, rest) = split_text(input, end);
        Ok((rest, value))
    }
}

} // verus!
