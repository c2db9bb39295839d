//! The isdataat option: a position and flags, such as `!10,relative`.

use vstd::prelude::*;

use crate::error::{accept, outcome, reject, ErrorKind, IResult, ParseError, Parsed, Rejection};
use crate::leaf::{lemma_prefix_one, skip_spaces, tag};
use crate::number::{parse_number, token_value};
use crate::text::{
    head_is, lemma_contains_take, same_text, skip_space, split, split_text_at, split_trimmed, texts,
};
use crate::types::{IsDataAt, IsDataAtPosition, IsDataAtPositionView, IsDataAtView};
use crate::words::{lemma_token_again, parse_token, spec_parse_token};

verus! {

/// Whether `t` can stand in the list of flags.
pub open spec fn is_isdataat_flag(t: Seq<char>) -> bool {
    t == "relative"@ || t == "rawbytes"@ || t.len() == 0
}

/// The first of `options` that is no flag.
pub open spec fn first_invalid(options: Seq<Seq<char>>) -> Option<Seq<char>>
    decreases options.len(),
{
    if options.len() == 0 {
        None
    } else if !is_isdataat_flag(options[0]) {
        Some(options[0])
    } else {
        first_invalid(options.skip(1))
    }
}

/// The position that `token` gives.
pub open spec fn position_of(token: Seq<char>) -> IsDataAtPositionView {
    match token_value(token, 0, u64::MAX as int) {
        Some(n) => IsDataAtPositionView::Position(n),
        None => IsDataAtPositionView::Identifier(token),
    }
}

/// What `parse_isdataat` returns.
pub open spec fn spec_parse_isdataat(input: Seq<char>) -> Parsed<IsDataAtView> {
    let s = skip_space(input);
    let negate = head_is(s, '!');
    match spec_parse_token(
        if negate {
            s.skip(1)
        } else {
            s
        },
    ) {
        Ok((rest, token)) => {
            let options = split_trimmed(rest, ',');
            match first_invalid(options) {
                Some(option) => reject(ErrorKind::Other("invalid option"), option),
                None => Ok(
                    (
                        seq![],
                        IsDataAtView {
                            negate,
                            position: position_of(token),
                            relative: options.contains("relative"@),
                            rawbytes: options.contains("rawbytes"@),
                        },
                    ),
                ),
            }
        },
        Err(e) => Err(e),
    }
}

/// Parse the value of an isdataat option.
pub fn parse_isdataat<'a>(input: &'a str) -> (r: IResult<&'a str, IsDataAt, ParseError<&'a str>>)
    ensures
        outcome(r) == spec_parse_isdataat(input@),
{
    proof {
        reveal_strlit("!");
        reveal_strlit("");
        assert("!"@ == seq!['!']);
        assert(""@ =~= Seq::<char>::empty());
    }
    // Look for a possible negation flag.
    let start: &'a str = skip_spaces(input);
    proof {
        lemma_prefix_one(start@, '!');
    }
    let (start, negate): (&'a str, bool) = match tag("!", start) {
        Some((rest, _)) => (rest, true),
        None => (start, false),
    };
    let ghost from = start@;
    let (rest, token) = match parse_token(start) {
        Ok(found) => found,
        Err(e) => {
            return Err(e);
        },
    };
    proof {
        lemma_token_again(start@);
    }
    let position = match parse_number::<u64>(token) {
        Ok((_, number)) => IsDataAtPosition::Position(number),
        Err(_) => IsDataAtPosition::Identifier(token.to_owned()),
    };
    assert(position@ == position_of(token@));
    let mut relative: bool = false;
    let mut rawbytes: bool = false;
    let pieces = split_text_at(rest, ',');
    let ghost options = split_trimmed(rest@, ',');
    let mut i: usize = 0;
    proof {
        assert(options.skip(0) =~= options);
        assert(options.take(0) =~= Seq::<Seq<char>>::empty());
    }
    while i < pieces.len()
        invariant
            from == (if head_is(skip_space(input@), '!') {
                skip_space(input@).skip(1)
            } else {
                skip_space(input@)
            }),
            spec_parse_token(from) == accept(rest@, token@),
            texts(pieces@) == split(rest@, ','),
            options == split_trimmed(rest@, ','),
            i <= pieces@.len(),
            first_invalid(options) == first_invalid(options.skip(i as int)),
            relative == options.take(i as int).contains("relative"@),
            rawbytes == options.take(i as int).contains("rawbytes"@),
        decreases pieces@.len() - i,
    {
        let option: &'a str = pieces[i].trim();
        proof {
            assert(split(rest@, ',')[i as int] == pieces@[i as int]@);
            assert(options[i as int] == option@);
            assert(options.skip(i as int)[0] == option@);
            assert(options.skip(i as int).skip(1) =~= options.skip(i + 1));
            lemma_contains_take(options, i as int, "relative"@);
            lemma_contains_take(options, i as int, "rawbytes"@);
        }
        let is_relative: bool = same_text(option, "relative");
        let is_rawbytes: bool = same_text(option, "rawbytes");
        if is_relative {
            relative = true;
        }
        if is_rawbytes {
            rawbytes = true;
        }
        if !is_relative && !is_rawbytes && !option.is_empty() {
            return Err(
                Rejection::Error(
                    ParseError { kind: ErrorKind::Other("invalid option"), input: option },
                ),
            );
        }
        i = i + 1;
    }
    assert(options.take(i as int) =~= options);
    Ok(("", IsDataAt { negate, position, relative, rawbytes }))
}

} // verus!
