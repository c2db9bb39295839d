//! The pcre option: a regular expression between slashes, its modifiers, and the
//! variables that it captures.

use vstd::prelude::*;

use crate::error::{
    outcome, reject, ErrorKind, IResult, NomErrorKind, ParseError, Parsed, Rejection,
};
use crate::leaf::{
    alphanumeric, alphanumeric1, lemma_find_one, lemma_prefix_one, skip_spaces, tag, take_until,
};
use crate::text::{
    head_is, last_index, lemma_last_index, lemma_run_len, other_than, rfind_char, run_len,
    skip_space, split_text, split_to_trimmed, split_trimmed, strings, until,
};
use crate::types::{Pcre, PcreView};
use crate::words::parse_end_quote;

verus! {

/// The variables behind the modifiers, and what follows them: a comma, and all up to
/// the next quote. None if there is no comma, or no quote behind it.
pub open spec fn capture_list(s: Seq<char>) -> (Seq<char>, Seq<Seq<char>>) {
    let v = skip_space(s);
    let n = until(v.skip(1), '"') as int;
    if head_is(v, ',') && n < v.skip(1).len() {
        (v.skip(1).skip(n), split_trimmed(v.skip(1).take(n), ','))
    } else {
        (s, seq![])
    }
}

/// What `parse_pcre` returns once it has read the pattern: `tail` is what follows the
/// slash that ends it.
pub open spec fn spec_pcre_tail(negate: bool, pattern: Seq<char>, tail: Seq<char>) -> Parsed<PcreView> {
    let n = run_len(tail, alphanumeric()) as int;
    if head_is(skip_space(tail), '"') {
        Ok(
            (
                skip_space(tail).skip(1),
                PcreView { negate, pattern, modifiers: seq![], vars: seq![] },
            ),
        )
    } else if n == 0 {
        reject(ErrorKind::Nom(NomErrorKind::AlphaNumeric), tail)
    } else {
        let (rest, vars) = capture_list(tail.skip(n));
        let end = skip_space(rest);
        if head_is(end, '"') {
            Ok((end.skip(1), PcreView { negate, pattern, modifiers: tail.take(n), vars }))
        } else {
            reject(ErrorKind::Nom(NomErrorKind::Tag), end)
        }
    }
}

/// What `parse_pcre` returns.
pub open spec fn spec_parse_pcre(input: Seq<char>) -> Parsed<PcreView> {
    let negate = head_is(input, '!');
    let s = skip_space(
        if negate {
            input.skip(1)
        } else {
            input
        },
    );
    if !head_is(s, '"') {
        reject(ErrorKind::Nom(NomErrorKind::Tag), s)
    } else if !head_is(s.skip(1), '/') {
        reject(ErrorKind::Nom(NomErrorKind::Tag), s.skip(1))
    } else {
        let body = s.skip(1).skip(1);
        match last_index(body, '/') {
            Some(n) => spec_pcre_tail(negate, body.take(n as int), body.skip(n as int + 1)),
            None => reject(ErrorKind::Other("pcre: no terminating /"), body),
        }
    }
}

/// The variables behind the modifiers, and what follows them.
fn parse_captures<'a>(input: &'a str) -> (r: (&'a str, Vec<String>))
    ensures
        (r.0@, strings(r.1@)) == capture_list(input@),
{
    proof {
        reveal_strlit(",");
        reveal_strlit("\"");
        assert(","@ == seq![',']);
        assert("\""@ == seq!['"']);
    }
    let none: Vec<String> = Vec::new();
    assert(strings(none@) =~= Seq::<Seq<char>>::empty());
    let start: &'a str = skip_spaces(input);
    proof {
        lemma_prefix_one(start@, ',');
    }
    match tag(",", start) {
        Some((list, _)) => {
            proof {
                lemma_find_one(list@, '"');
                lemma_run_len(list@, other_than('"'));
            }
            match take_until("\"", list) {
                Some((rest, vars)) => (rest, split_to_trimmed(vars, ',')),
                None => (input, none),
            }
        },
        None => (input, none),
    }
}

/// Parse the value of a pcre option.
pub fn parse_pcre<'a>(input: &'a str) -> (r: IResult<&'a str, Pcre, ParseError<&'a str>>)
    ensures
        outcome(r) == spec_parse_pcre(input@),
{
    proof {
        reveal_strlit("!");
        reveal_strlit("/");
        reveal_strlit("\"");
        assert("!"@ == seq!['!']);
        assert("/"@ == seq!['/']);
        assert("\""@ == seq!['"']);
        lemma_prefix_one(input@, '!');
    }
    let (start, negate): (&'a str, bool) = match tag("!", input) {
        Some((rest, _)) => (rest, true),
        None => (input, false),
    };
    let quote: &'a str = skip_spaces(start);
    proof {
        lemma_prefix_one(quote@, '"');
    }
    let slash: &'a str = match tag("\"", quote) {
        Some((rest, _)) => rest,
        None => {
            return Err(Rejection::Error(ParseError::from_error_kind(quote, NomErrorKind::Tag)));
        },
    };
    proof {
        lemma_prefix_one(slash@, '/');
    }
    let body: &'a str = match tag("/", slash) {
        Some((rest, _)) => rest,
        None => {
            return Err(Rejection::Error(ParseError::from_error_kind(slash, NomErrorKind::Tag)));
        },
    };
    let pattern_end: usize = match rfind_char(body, '/') {
        Some(n) => n,
        None => {
            return Err(
                Rejection::Error(
                    ParseError { kind: ErrorKind::Other("pcre: no terminating /"), input: body },
                ),
            );
        },
    };
    proof {
        lemma_last_index(body@, '/');
    }
    let (pattern, close) = split_text(body, pattern_end);
    let (_, tail) = split_text(close, 1);
    assert(tail@ =~= body@.skip(pattern_end + 1));
    proof {
        lemma_prefix_one(skip_space(tail@), '"');
    }
    // Return what we have if we're at the end of the quoted section.
    if let Ok((rest, _)) = parse_end_quote(tail) {
        let vars: Vec<String> = Vec::new();
        assert(strings(vars@) =~= Seq::<Seq<char>>::empty());
        return Ok(
            (
                rest,
                Pcre { negate, pattern: pattern.to_owned(), modifiers: String::new(), vars },
            ),
        );
    }
    // Now parse the modifiers.
    let (after, modifiers) = match alphanumeric1(tail) {
        Some(found) => found,
        None => {
            return Err(
                Rejection::Error(ParseError::from_error_kind(tail, NomErrorKind::AlphaNumeric)),
            );
        },
    };
    // There might also be some variable captures.
    let (end, vars) = parse_captures(after);
    proof {
        lemma_prefix_one(skip_space(end@), '"');
    }
    match parse_end_quote(end) {
        Ok((rest, _)) => Ok(
            (
                rest,
                Pcre { negate, pattern: pattern.to_owned(), modifiers: modifiers.to_owned(), vars },
            ),
        ),
        Err(e) => Err(e),
    }
}

} // verus!
