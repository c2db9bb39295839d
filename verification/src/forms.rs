//! What the parsers of words, marks, values and numbers make of every input. An input is
//! written as the pieces it is made of, and each law says what is returned for them.

use vstd::prelude::*;

use crate::error::{accept, reject, ErrorKind, LeafError, NomErrorKind, Rejection};
use crate::integer::bounded_value;
use crate::laws::lemma_run_len_prefix;
use crate::number::{spec_parse_number, spec_parse_number_or_reference};
use crate::option_value::{ends_value, lemma_value_end, spec_parse_option_value, value_end};
use crate::quoted::{spec_parse_content, spec_parse_quoted_string, unescape};
use crate::reading_back::is_escape_of;
use crate::text::{
    is_white, lemma_run_len_unique, skip_space, space, trimmed, trimmed_end, trimmed_start, white,
};
use crate::types::{ContentView, Direction, NumberOrReferenceView};
use crate::words::{
    name, spec_end_of_options, spec_option_name, spec_options_separator, spec_parse_direction,
    spec_parse_tag, spec_parse_token, spec_run, spec_take_until_whitespace, token, word,
};

verus! {

/// Space, tab, carriage return and line feed.
pub open spec fn is_blank(c: char) -> bool {
    c == ' ' || c == '\t' || c == '\r' || c == '\n'
}

/// Whether `s` is made of blanks.
pub open spec fn are_blank(s: Seq<char>) -> bool {
    forall|k: int| 0 <= k < s.len() ==> is_blank(#[trigger] s[k])
}

/// Whether `s` starts with a blank.
pub open spec fn starts_blank(s: Seq<char>) -> bool {
    s.len() > 0 && is_blank(s[0])
}

/// Whether `s` is what follows some blanks at the start of `input`.
pub open spec fn is_behind_blanks(s: Seq<char>, input: Seq<char>) -> bool {
    &&& s.len() <= input.len()
    &&& are_blank(input.take(input.len() - s.len()))
    &&& s == input.skip(input.len() - s.len())
}

/// Whether `s` starts with `c`.
pub open spec fn starts_with(s: Seq<char>, c: char) -> bool {
    s.len() > 0 && s[0] == c
}

/// The blanks in front of a text are skipped.
pub proof fn lemma_blanks_skipped(w: Seq<char>, s: Seq<char>)
    requires
        are_blank(w),
        !starts_blank(s),
    ensures
        skip_space(w + s) == s,
{
    assert forall|k: int| 0 <= k < w.len() implies space()(#[trigger] w[k]) by {
        assert(is_blank(w[k]));
    }
    lemma_run_len_prefix(w, s, space());
    lemma_run_len_unique(s, space(), 0);
    assert((w + s).skip(w.len() as int) =~= s);
}

/// A text that starts with no blank is not shortened.
pub proof fn lemma_nothing_skipped(s: Seq<char>)
    requires
        !starts_blank(s),
    ensures
        skip_space(s) == s,
{
    lemma_blanks_skipped(Seq::empty(), s);
    assert(Seq::<char>::empty() + s =~= s);
}

proof fn lemma_run(p: spec_fn(char) -> bool, w: Seq<char>, t: Seq<char>, rest: Seq<char>)
    requires
        are_blank(w),
        t.len() > 0,
        !is_blank(t[0]),
        forall|k: int| 0 <= k < t.len() ==> p(#[trigger] t[k]),
        rest.len() > 0 ==> !p(rest[0]),
    ensures
        spec_run(p, w + t + rest) == accept(rest, t),
{
    let s = t + rest;
    assert(s[0] == t[0]);
    assert(w + t + rest =~= w + s);
    lemma_blanks_skipped(w, s);
    lemma_run_len_prefix(t, rest, p);
    lemma_run_len_unique(rest, p, 0);
    assert(s.skip(t.len() as int) =~= rest);
    assert(s.take(t.len() as int) =~= t);
}

proof fn lemma_no_run(p: spec_fn(char) -> bool, w: Seq<char>, rest: Seq<char>)
    requires
        are_blank(w),
        !starts_blank(rest),
        rest.len() > 0 ==> !p(rest[0]),
    ensures
        spec_run(p, w + rest) == reject::<Seq<char>>(ErrorKind::Nom(NomErrorKind::IsNot), rest),
{
    lemma_blanks_skipped(w, rest);
    lemma_run_len_unique(rest, p, 0);
}

/// A word is the longest run without blanks behind any blanks: it is found wherever there
/// is one, and nothing else is.
pub proof fn law_word_forms(w: Seq<char>, t: Seq<char>, rest: Seq<char>)
    requires
        are_blank(w),
        t.len() > 0,
        forall|k: int| 0 <= k < t.len() ==> !is_blank(#[trigger] t[k]),
        rest.len() > 0 ==> is_blank(rest[0]),
    ensures
        spec_take_until_whitespace(w + t + rest) == accept(rest, t),
        spec_take_until_whitespace(w) == reject::<Seq<char>>(
            ErrorKind::Nom(NomErrorKind::IsNot),
            Seq::empty(),
        ),
{
    assert forall|k: int| 0 <= k < t.len() implies word()(#[trigger] t[k]) by {
        assert(!is_blank(t[k]));
    }
    assert(!is_blank(t[0]));
    lemma_run(word(), w, t, rest);
    lemma_no_run(word(), w, Seq::empty());
    assert(w + Seq::<char>::empty() =~= w);
}

/// The characters that end a token: the blanks, comma, semicolon and colon.
pub open spec fn is_token_end(c: char) -> bool {
    is_blank(c) || c == ',' || c == ';' || c == ':'
}

/// Whether `t` is a token as a whole.
pub open spec fn is_token(t: Seq<char>) -> bool {
    t.len() > 0 && forall|k: int| 0 <= k < t.len() ==> !is_token_end(#[trigger] t[k])
}

/// A token is the longest run without blanks, commas, semicolons and colons behind any
/// blanks.
pub proof fn law_token_forms(w: Seq<char>, t: Seq<char>, rest: Seq<char>)
    requires
        are_blank(w),
        is_token(t),
        rest.len() > 0 ==> is_token_end(rest[0]),
    ensures
        spec_parse_token(w + t + rest) == accept(rest, t),
        !starts_blank(rest) ==> spec_parse_token(w + rest) == reject::<Seq<char>>(
            ErrorKind::Nom(NomErrorKind::IsNot),
            rest,
        ),
{
    assert forall|k: int| 0 <= k < t.len() implies token()(#[trigger] t[k]) by {
        assert(!is_token_end(t[k]));
    }
    assert(!is_token_end(t[0]));
    lemma_run(token(), w, t, rest);
    if !starts_blank(rest) {
        lemma_no_run(token(), w, rest);
    }
}

/// The name of an option is the longest run without semicolons and colons behind any
/// blanks.
pub proof fn law_name_forms(w: Seq<char>, t: Seq<char>, rest: Seq<char>)
    requires
        are_blank(w),
        t.len() > 0,
        !is_blank(t[0]),
        !t.contains(';') && !t.contains(':'),
        rest.len() > 0 ==> rest[0] == ';' || rest[0] == ':',
    ensures
        spec_option_name(w + t + rest) == accept(rest, t),
        spec_option_name(w + rest) == reject::<Seq<char>>(
            ErrorKind::Nom(NomErrorKind::IsNot),
            rest,
        ),
{
    assert forall|k: int| 0 <= k < t.len() implies name()(#[trigger] t[k]) by {
        assert(t.contains(t[k]));
    }
    lemma_run(name(), w, t, rest);
    lemma_no_run(name(), w, rest);
}

/// A tag is found behind any blanks if and only if it stands there; otherwise the error is
/// behind the blanks.
pub proof fn law_tag_forms(w: Seq<char>, sep: Seq<char>, s: Seq<char>)
    requires
        are_blank(w),
        !starts_blank(s),
    ensures
        spec_parse_tag(sep, w + s) == (if sep.len() <= s.len() && s.take(sep.len() as int) == sep {
            accept(s.skip(sep.len() as int), sep)
        } else {
            reject(ErrorKind::Nom(NomErrorKind::Tag), s)
        }),
{
    lemma_blanks_skipped(w, s);
    if sep.len() <= s.len() {
        assert(s.take(sep.len() as int) =~= s.subrange(0, sep.len() as int));
    }
}

/// The mark behind the name of an option is a semicolon or a colon, and the options end
/// with a parenthesis, each behind any blanks.
pub proof fn law_mark_forms(w: Seq<char>, s: Seq<char>)
    requires
        are_blank(w),
        !starts_blank(s),
    ensures
        spec_options_separator(w + s) == (if s.len() > 0 && (s[0] == ';' || s[0] == ':') {
            accept(s.skip(1), s[0])
        } else {
            reject(ErrorKind::Nom(NomErrorKind::OneOf), s)
        }),
        spec_end_of_options(w + s) == (if s.len() > 0 && s[0] == ')' {
            Ok((s.skip(1), seq![')']))
        } else {
            Err(Rejection::Error(LeafError { input: s, code: NomErrorKind::Tag }))
        }),
{
    lemma_blanks_skipped(w, s);
}

/// A direction is one of two arrows at the very start.
pub proof fn law_direction_forms(input: Seq<char>)
    ensures
        spec_parse_direction(input) == (if input.len() > 1 && input[1] == '>' && input[0] == '-' {
            accept(input.skip(2), Direction::Single)
        } else if input.len() > 1 && input[1] == '>' && input[0] == '<' {
            accept(input.skip(2), Direction::Both)
        } else {
            reject(ErrorKind::Invalid, input)
        }),
{
    if input.len() > 0 && input.skip(1).len() > 0 {
        assert(input.skip(1)[0] == input[1]);
    }
}

/// Whether each semicolon of `s` has a backslash directly in front of it.
pub open spec fn semicolons_are_escaped(s: Seq<char>) -> bool {
    forall|k: int| 0 <= k < s.len() && #[trigger] s[k] == ';' ==> k > 0 && s[k - 1] == '\\'
}

/// A value in which each semicolon has a backslash in front of it, and that neither starts
/// with a blank nor ends with a backslash, is returned whole from in front of a semicolon.
/// A text in which each semicolon has a backslash in front of it is no value.
pub proof fn law_option_value_forms(w: Seq<char>, value: Seq<char>, rest: Seq<char>)
    requires
        are_blank(w),
        !starts_blank(value),
        semicolons_are_escaped(value),
    ensures
        !(value.len() > 0 && value.last() == '\\') ==> spec_parse_option_value(
            w + value + seq![';'] + rest,
        ) == accept(rest, value),
        spec_parse_option_value(w + value) == reject::<Seq<char>>(
            ErrorKind::UnterminatedRuleOptionValue,
            value,
        ),
{
    lemma_blanks_skipped(w, value);
    lemma_value_end(value, 0);
    if let Some(n) = value_end(value, 0) {
        assert(value[n as int] == ';');
    }
    if !(value.len() > 0 && value.last() == '\\') {
        let s = value + seq![';'] + rest;
        assert(w + value + seq![';'] + rest =~= w + s);
        if value.len() > 0 {
            assert(s[0] == value[0]);
        }
        lemma_blanks_skipped(w, s);
        lemma_value_end(s, 0);
        let n = value.len() as int;
        assert(s[n] == ';');
        if n > 0 {
            assert(s[n - 1] == value[n - 1]);
        }
        assert(ends_value(s, n));
        if let Some(m) = value_end(s, 0) {
            if m < n {
                assert(s[m as int] == value[m as int]);
                assert(value[m as int] == ';');
                assert(s[m - 1] == value[m - 1]);
            }
        }
        assert(s.skip(n + 1) =~= rest);
        assert(s.take(n) =~= value);
    }
}

/// Whatever an option's value is: each semicolon in it has a backslash in front of it, it
/// neither starts with a blank nor ends with a backslash, and the semicolon behind it and
/// what remains make up the input behind its leading blanks. If there is no value, each
/// semicolon of the input behind its leading blanks has a backslash in front of it.
pub proof fn law_option_value_result(input: Seq<char>)
    ensures
        match spec_parse_option_value(input) {
            Ok((rest, value)) => {
                &&& semicolons_are_escaped(value)
                &&& !starts_blank(value)
                &&& !(value.len() > 0 && value.last() == '\\')
                &&& is_behind_blanks(value + seq![';'] + rest, input)
            },
            Err(Rejection::Error(e)) => {
                &&& e.kind == ErrorKind::UnterminatedRuleOptionValue
                &&& semicolons_are_escaped(e.input)
                &&& !starts_blank(e.input)
                &&& is_behind_blanks(e.input, input)
            },
            Err(Rejection::Failure(_)) => false,
        },
{
    let w = lemma_split_blanks(input);
    let s = input.skip(w.len() as int);
    lemma_blanks_skipped(w, s);
    assert(input.take(w.len() as int) =~= w);
    lemma_value_end(s, 0);
    match value_end(s, 0) {
        Some(n) => {
            let value = s.take(n as int);
            let rest = s.skip(n as int + 1);
            assert forall|k: int| 0 <= k < value.len() && #[trigger] value[k] == ';' implies k > 0
                && value[k - 1] == '\\' by {
                assert(!ends_value(s, k));
            }
            assert(ends_value(s, n as int));
            if n > 0 {
                assert(value[0] == s[0]);
            }
            assert(value + seq![';'] + rest =~= s);
        },
        None => {
            assert forall|k: int| 0 <= k < s.len() && #[trigger] s[k] == ';' implies k > 0 && s[k - 1]
                == '\\' by {
                assert(!ends_value(s, k));
            }
        },
    }
}

/// The blanks that a text starts with.
pub proof fn lemma_split_blanks(s: Seq<char>) -> (w: Seq<char>)
    ensures
        are_blank(w),
        w.len() <= s.len(),
        s == w + s.skip(w.len() as int),
        !starts_blank(s.skip(w.len() as int)),
    decreases s.len(),
{
    if starts_blank(s) {
        let v = lemma_split_blanks(s.skip(1));
        let w = seq![s[0]] + v;
        assert(s.skip(1).skip(v.len() as int) =~= s.skip(w.len() as int));
        assert forall|k: int| 0 <= k < s.len() implies #[trigger] s[k] == (w + s.skip(w.len() as int))[k] by {
            if k > 0 {
                assert(s[k] == s.skip(1)[k - 1]);
                assert(s.skip(1)[k - 1] == (v + s.skip(1).skip(v.len() as int))[k - 1]);
            }
        }
        assert(s =~= w + s.skip(w.len() as int));
        w
    } else {
        assert(s.skip(0) =~= s);
        assert(s =~= Seq::<char>::empty() + s);
        Seq::empty()
    }
}

/// Whether a backslash in front of `c` escapes it.
pub open spec fn is_escapable(c: char) -> bool {
    c == '"' || c == '\\' || c == ';' || c == ':'
}

proof fn lemma_unescape_tail(e: Seq<char>, t: Seq<char>, tail: Seq<char>)
    requires
        is_escape_of(e, t),
    ensures
        match unescape(tail) {
            Some((rest, more)) => unescape(e + tail) == Some((rest, t + more)),
            None => unescape(e + tail) is None,
        },
    decreases t.len(),
{
    let all = e + tail;
    if t.len() == 0 {
        assert(all =~= tail);
        if let Some((_, more)) = unescape(tail) {
            assert(t + more =~= more);
        }
    } else {
        let c = t[0];
        if c != '"' && c != '\\' && e.len() > 0 && e[0] == c {
            lemma_unescape_tail(e.skip(1), t.skip(1), tail);
            assert(all[0] == c);
            assert(all.skip(1) =~= e.skip(1) + tail);
        } else {
            lemma_unescape_tail(e.skip(2), t.skip(1), tail);
            assert(all[0] == '\\' && all[1] == c);
            assert(all.skip(2) =~= e.skip(2) + tail);
        }
        if let Some((_, more)) = unescape(tail) {
            assert(seq![c] + (t.skip(1) + more) =~= t + more);
        }
    }
}

/// A quoted string ends at its first quote that is not escaped. It is rejected if it does
/// not start with a quote, at the end of the input if no quote ends it, and behind its
/// first quote if a backslash in it stands in front of anything but a quote, a backslash,
/// a semicolon or a colon.
pub proof fn law_quoted_string_forms(e: Seq<char>, t: Seq<char>, tail: Seq<char>)
    requires
        is_escape_of(e, t),
    ensures
        starts_with(tail, '"') ==> spec_parse_quoted_string(seq!['"'] + e + tail) == accept(
            tail.skip(1),
            t,
        ),
        tail.len() == 0 ==> spec_parse_quoted_string(seq!['"'] + e + tail) == reject::<Seq<char>>(
            ErrorKind::Nom(NomErrorKind::Tag),
            Seq::empty(),
        ),
        starts_with(tail, '\\') && !(tail.len() > 1 && is_escapable(tail[1]))
            ==> spec_parse_quoted_string(seq!['"'] + e + tail) == reject::<Seq<char>>(
            ErrorKind::Nom(NomErrorKind::Tag),
            e + tail,
        ),
        !starts_with(tail, '"') ==> spec_parse_quoted_string(tail) == reject::<Seq<char>>(
            ErrorKind::Nom(NomErrorKind::Tag),
            tail,
        ),
{
    let all = seq!['"'] + e + tail;
    assert(all.skip(1) =~= e + tail);
    lemma_unescape_tail(e, t, tail);
    assert(t + Seq::<char>::empty() =~= t);
    if e.len() == 0 && tail.len() == 0 {
        assert(e + tail =~= tail);
    }
    assert(tail.len() == 0 ==> tail =~= Seq::<char>::empty());
}

/// A content is a quoted string behind any blanks, and negated if and only if a `!` stands
/// between them.
pub proof fn law_content_forms(w: Seq<char>, quoted: Seq<char>)
    requires
        are_blank(w),
    ensures
        spec_parse_content(w + seq!['!'] + quoted) == (match spec_parse_quoted_string(quoted) {
            Ok((rest, pattern)) => accept(rest, ContentView { pattern, negated: true }),
            Err(e) => Err(e),
        }),
        !starts_blank(quoted) && !starts_with(quoted, '!') ==> spec_parse_content(w + quoted) == (
        match spec_parse_quoted_string(quoted) {
            Ok((rest, pattern)) => accept(rest, ContentView { pattern, negated: false }),
            Err(e) => Err(e),
        }),
{
    let s = seq!['!'] + quoted;
    assert(w + seq!['!'] + quoted =~= w + s);
    assert(s.skip(1) =~= quoted);
    lemma_blanks_skipped(w, s);
    if !starts_blank(quoted) {
        lemma_blanks_skipped(w, quoted);
    }
}

/// A number is a token as a whole: its digits have base sixteen behind `0x` or `0X` and
/// base ten otherwise, and its value must lie between `min` and `max`. A token that is no
/// number is named by the error, and is a name where a name will do.
pub proof fn law_number_forms(w: Seq<char>, t: Seq<char>, rest: Seq<char>, min: int, max: int)
    requires
        are_blank(w),
        is_token(t),
        rest.len() > 0 ==> is_token_end(rest[0]),
    ensures
        ({
            let value = if t.len() > 1 && t[0] == '0' && (t[1] == 'x' || t[1] == 'X') {
                bounded_value(t.skip(2), 16, min, max)
            } else {
                bounded_value(t, 10, min, max)
            };
            match value {
                Some(n) => {
                    &&& spec_parse_number(w + t + rest, min, max) == accept(rest, n)
                    &&& spec_parse_number_or_reference(w + t + rest, min, max) == accept(
                        rest,
                        NumberOrReferenceView::Number(n),
                    )
                },
                None => {
                    &&& spec_parse_number(w + t + rest, min, max) == reject::<int>(
                        ErrorKind::BadNumber,
                        t,
                    )
                    &&& spec_parse_number_or_reference(w + t + rest, min, max) == accept(
                        rest,
                        NumberOrReferenceView::Name(t),
                    )
                },
            }
        }),
        !starts_blank(rest) ==> {
            &&& spec_parse_number(w + rest, min, max) == reject::<int>(
                ErrorKind::Nom(NomErrorKind::IsNot),
                rest,
            )
            &&& spec_parse_number_or_reference(w + rest, min, max) == reject::<
                NumberOrReferenceView,
            >(ErrorKind::Nom(NomErrorKind::IsNot), rest)
        },
{
    law_token_forms(w, t, rest);
    if t.len() > 1 {
        assert(t.skip(1)[0] == t[1]);
    }
}

proof fn lemma_trimmed_end(t: Seq<char>, b: Seq<char>)
    requires
        t.len() > 0 ==> !is_white(t.last()),
        forall|k: int| 0 <= k < b.len() ==> is_white(#[trigger] b[k]),
    ensures
        trimmed_end(t + b) == t,
    decreases b.len(),
{
    if b.len() == 0 {
        assert(t + b =~= t);
    } else {
        assert(is_white(b[b.len() - 1]));
        assert((t + b).drop_last() =~= t + b.drop_last());
        lemma_trimmed_end(t, b.drop_last());
    }
}

/// Trimming takes away the white space at the ends, and nothing else.
pub proof fn law_trimmed_forms(a: Seq<char>, t: Seq<char>, b: Seq<char>)
    requires
        forall|k: int| 0 <= k < a.len() ==> is_white(#[trigger] a[k]),
        forall|k: int| 0 <= k < b.len() ==> is_white(#[trigger] b[k]),
        t.len() > 0 ==> !is_white(t[0]) && !is_white(t.last()),
    ensures
        trimmed(a + t + b) == t,
        t.len() > 0 ==> trimmed_start(a + t + b) == t + b,
        t.len() > 0 ==> trimmed_end(a + t + b) == a + t,
{
    if t.len() > 0 {
        assert forall|k: int| 0 <= k < a.len() implies white()(#[trigger] a[k]) by {
            assert(is_white(a[k]));
        }
        let s = t + b;
        assert(s[0] == t[0]);
        assert(a + t + b =~= a + s);
        lemma_run_len_prefix(a, s, white());
        lemma_run_len_unique(s, white(), 0);
        assert((a + s).skip(a.len() as int) =~= s);
        lemma_trimmed_end(t, b);
        assert((a + t).last() == t.last());
        lemma_trimmed_end(a + t, b);
    } else {
        let s = a + t + b;
        assert forall|k: int| 0 <= k < s.len() implies white()(#[trigger] s[k]) by {
            if k < a.len() {
                assert(is_white(a[k]));
            } else {
                assert(is_white(b[k - a.len()]));
            }
        }
        lemma_run_len_unique(s, white(), s.len());
        assert(s.skip(s.len() as int) =~= t);
        lemma_trimmed_end(t, Seq::empty());
        assert(t + Seq::<char>::empty() =~= t);
    }
}

} // verus!
