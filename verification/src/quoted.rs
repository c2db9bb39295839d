//! Quoted strings, and the content option that holds one.

use vstd::prelude::*;

use crate::error::{
    outcome, reject, ErrorKind, IResult, NomErrorKind, ParseError, Parsed, Rejection,
};
use crate::leaf::{lemma_prefix_one, none_of, one_of, skip_spaces, tag};
use crate::text::{head_is, skip_space};
use crate::types::{Content, ContentView};

verus! {

/// The characters that a backslash escapes in a quoted string.
pub open spec fn can_escape(c: char) -> bool {
    c == '"' || c == '\\' || c == ';' || c == ':'
}

/// Reads `s` up to the first quote that is not escaped, or to its end; what
/// follows, and what was read with its escapes removed. `None` if a backslash
/// escapes no character.
pub open spec fn unescape(s: Seq<char>) -> Option<(Seq<char>, Seq<char>)>
    decreases s.len(),
{
    if s.len() == 0 || s[0] == '"' {
        Some((s, seq![]))
    } else if s[0] == '\\' {
        if s.len() > 1 && can_escape(s[1]) {
            match unescape(s.skip(2)) {
                Some((rest, text)) => Some((rest, seq![s[1]] + text)),
                None => None,
            }
        } else {
            None
        }
    } else {
        match unescape(s.skip(1)) {
            Some((rest, text)) => Some((rest, seq![s[0]] + text)),
            None => None,
        }
    }
}

/// What `parse_quoted_string` returns. A string with an escape that is none is
/// rejected where it starts.
pub open spec fn spec_parse_quoted_string(input: Seq<char>) -> Parsed<Seq<char>> {
    if !head_is(input, '"') {
        reject(ErrorKind::Nom(NomErrorKind::Tag), input)
    } else {
        let s = input.skip(1);
        match unescape(s) {
            Some((rest, text)) => if head_is(rest, '"') {
                Ok((rest.skip(1), text))
            } else {
                reject(ErrorKind::Nom(NomErrorKind::Tag), rest)
            },
            None => reject(ErrorKind::Nom(NomErrorKind::Tag), s),
        }
    }
}

/// What `parse_content` returns.
pub open spec fn spec_parse_content(input: Seq<char>) -> Parsed<ContentView> {
    let s = skip_space(input);
    let negated = head_is(s, '!');
    let quoted = if negated {
        s.skip(1)
    } else {
        s
    };
    match spec_parse_quoted_string(quoted) {
        Ok((rest, pattern)) => Ok((rest, ContentView { pattern, negated })),
        Err(e) => Err(e),
    }
}

/// `unescape`, as a function.
fn unescape_text<'a>(input: &'a str) -> (r: Option<(&'a str, String)>)
    ensures
        match r {
            Some((rest, text)) => unescape(input@) == Some((rest@, text@)),
            None => unescape(input@) is None,
        },
{
    let mut rest: &'a str = input;
    let mut text: String = String::new();
    proof {
        reveal_strlit("\\\"");
        reveal_strlit("\"\\;:");
        reveal_strlit("\\");
        let plain = "\\\""@;
        assert forall|c: char| #[trigger] plain.contains(c) == (c == '\\' || c == '"') by {
            assert(plain[0] == '\\' && plain[1] == '"');
        }
        let list = "\"\\;:"@;
        assert forall|c: char| #[trigger] list.contains(c) == can_escape(c) by {
            assert(list[0] == '"' && list[1] == '\\' && list[2] == ';' && list[3] == ':');
        }
        assert("\\"@ == seq!['\\']);
    }
    loop
        invariant
            forall|c: char| #[trigger] ("\\\""@).contains(c) == (c == '\\' || c == '"'),
            forall|c: char| #[trigger] ("\"\\;:"@).contains(c) == can_escape(c),
            "\\"@ == seq!['\\'],
            match unescape(rest@) {
                Some((end, more)) => unescape(input@) == Some((end, text@ + more)),
                None => unescape(input@) is None,
            },
        decreases rest@.len(),
    {
        let ghost start = rest@;
        let ghost read = text@;
        if let Some((next, c)) = none_of("\\\"", rest) {
            text.push(c);
            rest = next;
            proof {
                if let Some((end, more)) = unescape(next@) {
                    assert(read + (seq![c] + more) =~= text@ + more);
                }
            }
        } else {
            proof {
                lemma_prefix_one(start, '\\');
            }
            match tag("\\", rest) {
                Some((after, _)) => match one_of("\"\\;:", after) {
                    Some((next, c)) => {
                        text.push(c);
                        rest = next;
                        proof {
                            assert(next@ =~= start.skip(2));
                            if let Some((end, more)) = unescape(next@) {
                                assert(read + (seq![c] + more) =~= text@ + more);
                            }
                        }
                    },
                    None => {
                        return None;
                    },
                },
                None => {
                    assert(text@ + Seq::<char>::empty() =~= text@);
                    return Some((rest, text));
                },
            }
        }
    }
}

/// Parse a quoted string as often seen in Suricata rules.
///
/// This handles escaped quotes and semicolons (however semicolons do not need to
/// be escaped like most parsers enforce).
///
/// The input string must start with a quote and will parse up to the next
/// unescaped quote.
///
/// The return value is a String with escapes removed and no leading or trailing
/// double quotes.
pub fn parse_quoted_string<'a>(input: &'a str) -> (r: IResult<&'a str, String, ParseError<&'a str>>)
    ensures
        outcome(r) == spec_parse_quoted_string(input@),
{
    proof {
        reveal_strlit("\"");
        assert("\""@ == seq!['"']);
        lemma_prefix_one(input@, '"');
    }
    let start: &'a str = match tag("\"", input) {
        Some((rest, _)) => rest,
        None => {
            return Err(
                Rejection::Error(ParseError::from_error_kind(input, NomErrorKind::Tag)),
            );
        },
    };
    let (end, text) = match unescape_text(start) {
        Some(read) => read,
        None => (start, String::new()),
    };
    proof {
        lemma_prefix_one(end@, '"');
    }
    match tag("\"", end) {
        Some((rest, _)) => Ok((rest, text)),
        None => Err(Rejection::Error(ParseError::from_error_kind(end, NomErrorKind::Tag))),
    }
}

/// Parse the value of a content option: an optional `!` and a quoted pattern.
pub fn parse_content<'a>(input: &'a str) -> (r: IResult<&'a str, Content, ParseError<&'a str>>)
    ensures
        outcome(r) == spec_parse_content(input@),
{
    proof {
        reveal_strlit("!");
        assert("!"@ == seq!['!']);
    }
    let s: &'a str = skip_spaces(input);
    proof {
        lemma_prefix_one(s@, '!');
    }
    let (quoted, negated): (&'a str, bool) = match tag("!", s) {
        Some((rest, _)) => (rest, true),
        None => (s, false),
    };
    match parse_quoted_string(quoted) {
        Ok((rest, pattern)) => Ok((rest, Content { pattern, negated })),
        Err(e) => Err(e),
    }
}

} // verus!
