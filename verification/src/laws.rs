//! What holds of all parsers: what they ignore and what they leave.

use vstd::prelude::*;

use crate::array::{closing_end, spec_parse_array, spec_scan_array, ArrayState};
use crate::array_laws::lemma_read_extent;
use crate::error::{accept, LeafError, Parsed, Rejection};
use crate::flowbits::spec_parse_flowbits;
use crate::isdataat::spec_parse_isdataat;
use crate::leaf::alphanumeric;
use crate::list::{after_list, list_items, list_text, spec_metadata, spec_parse_flow};
use crate::number::{spec_parse_number, spec_parse_number_or_reference};
use crate::option_value::{lemma_value_end, spec_parse_option_value, value_end};
use crate::pcre::{capture_list, spec_parse_pcre};
use crate::quoted::{spec_parse_content, spec_parse_quoted_string, unescape};
use crate::reference::spec_parse_reference;
use crate::text::{
    head_is, is_space, is_white, last_index, lemma_last_index, lemma_run_len, lemma_run_len_unique,
    other_than, run_len, skip_space, space, split, trimmed_start, until, white,
};
use crate::types::Direction;
use crate::words::{
    name, spec_end_of_options, spec_option_name, spec_options_separator, spec_parse_direction,
    spec_parse_tag, spec_parse_token, spec_run, spec_take_until_whitespace, token, word,
};

verus! {

/// A run in front of a text that continues it.
pub proof fn lemma_run_len_prefix(w: Seq<char>, s: Seq<char>, p: spec_fn(char) -> bool)
    requires
        forall|k: int| 0 <= k < w.len() ==> p(#[trigger] w[k]),
    ensures
        run_len(w + s, p) == w.len() + run_len(s, p),
{
    lemma_run_len(s, p);
    let n = run_len(s, p);
    assert forall|k: int| 0 <= k < w.len() + n implies p(#[trigger] (w + s)[k]) by {
        if k >= w.len() {
            assert((w + s)[k] == s[k - w.len()]);
        } else {
            assert((w + s)[k] == w[k]);
        }
    }
    lemma_run_len_unique(w + s, p, w.len() + n);
}

/// Spaces in front of a text are skipped.
pub proof fn lemma_skip_space_prefix(w: Seq<char>, s: Seq<char>)
    requires
        forall|k: int| 0 <= k < w.len() ==> is_space(#[trigger] w[k]),
    ensures
        skip_space(w + s) == skip_space(s),
{
    assert forall|k: int| 0 <= k < w.len() implies space()(#[trigger] w[k]) by {
        assert(is_space(w[k]));
    }
    lemma_run_len_prefix(w, s, space());
    lemma_run_len(s, space());
    assert((w + s).skip((w.len() + run_len(s, space())) as int) =~= s.skip(
        run_len(s, space()) as int,
    ));
}

/// Spaces in front of a list belong to its first piece.
proof fn lemma_split_prefix(w: Seq<char>, s: Seq<char>, c: char)
    requires
        !is_space(c),
        forall|k: int| 0 <= k < w.len() ==> is_space(#[trigger] w[k]),
    ensures
        until(w + s, c) == w.len() + until(s, c),
        split(s, c).len() > 0,
        split(w + s, c) == seq![w + split(s, c)[0]] + split(s, c).skip(1),
{
    assert forall|k: int| 0 <= k < w.len() implies other_than(c)(#[trigger] w[k]) by {
        assert(is_space(w[k]));
    }
    lemma_run_len_prefix(w, s, other_than(c));
    lemma_run_len(s, other_than(c));
    let n = until(s, c) as int;
    if n >= s.len() {
        assert(split(s, c).skip(1) =~= Seq::<Seq<char>>::empty());
        assert(split(w + s, c) =~= seq![w + s]);
    } else {
        assert((w + s).take(w.len() + n) =~= w + s.take(n));
        assert((w + s).skip(w.len() + n + 1) =~= s.skip(n + 1));
        assert(split(s, c).skip(1) =~= split(s.skip(n + 1), c));
    }
}

/// Spaces in front of a list make no difference to its items.
proof fn lemma_list_prefix(w: Seq<char>, s: Seq<char>)
    requires
        forall|k: int| 0 <= k < w.len() ==> is_space(#[trigger] w[k]),
    ensures
        list_items(w + s) == list_items(s),
        after_list(w + s) == after_list(s),
{
    lemma_split_prefix(w, s, ';');
    lemma_run_len(s, other_than(';'));
    let n = until(s, ';') as int;
    let text = list_text(s);
    assert((w + s).skip(w.len() + n) =~= s.skip(n));
    assert(list_text(w + s) =~= w + text);
    lemma_split_prefix(w, text, ',');
    lemma_skip_space_prefix(w, split(text, ',')[0]);
    assert forall|k: int| 0 <= k < list_items(s).len() implies #[trigger] list_items(w + s)[k]
        == list_items(s)[k] by {
        if k > 0 {
            assert(split(w + text, ',')[k] == split(text, ',').skip(1)[k - 1]);
        }
    }
    assert(list_items(w + s) =~= list_items(s));
}

/// Spaces, tabs and line ends in front of a word, a token, a name, a tag, a mark, an
/// option's value, a number, a list, or a content, flow, isdataat or flowbits option make
/// no difference, nor do they in front of a regular expression without a `!`.
pub proof fn law_leading_space_is_ignored(
    w: Seq<char>,
    s: Seq<char>,
    sep: Seq<char>,
    min: int,
    max: int,
)
    requires
        forall|k: int| 0 <= k < w.len() ==> is_space(#[trigger] w[k]),
    ensures
        spec_take_until_whitespace(w + s) == spec_take_until_whitespace(s),
        spec_parse_token(w + s) == spec_parse_token(s),
        spec_option_name(w + s) == spec_option_name(s),
        spec_parse_tag(sep, w + s) == spec_parse_tag(sep, s),
        spec_options_separator(w + s) == spec_options_separator(s),
        spec_end_of_options(w + s) == spec_end_of_options(s),
        spec_parse_option_value(w + s) == spec_parse_option_value(s),
        spec_parse_number(w + s, min, max) == spec_parse_number(s, min, max),
        spec_parse_number_or_reference(w + s, min, max) == spec_parse_number_or_reference(
            s,
            min,
            max,
        ),
        spec_parse_content(w + s) == spec_parse_content(s),
        spec_parse_isdataat(w + s) == spec_parse_isdataat(s),
        spec_parse_flowbits(w + s) == spec_parse_flowbits(s),
        spec_metadata(w + s) == spec_metadata(s),
        spec_parse_flow(w + s) == spec_parse_flow(s),
        !head_is(s, '!') ==> spec_parse_pcre(w + s) == spec_parse_pcre(s),
{
    lemma_skip_space_prefix(w, s);
    lemma_list_prefix(w, s);
    if w.len() == 0 {
        assert(w + s =~= s);
    } else {
        assert((w + s)[0] == w[0]);
    }
}

/// White space in front of an array or a scalar makes no difference.
pub proof fn law_leading_white_space_is_ignored(w: Seq<char>, s: Seq<char>)
    requires
        forall|k: int| 0 <= k < w.len() ==> is_white(#[trigger] w[k]),
    ensures
        spec_parse_array(w + s) == spec_parse_array(s),
        spec_scan_array(w + s) == spec_scan_array(s),
{
    assert forall|k: int| 0 <= k < w.len() implies white()(#[trigger] w[k]) by {
        assert(is_white(w[k]));
    }
    lemma_run_len_prefix(w, s, white());
    lemma_run_len(s, white());
    assert((w + s).skip((w.len() + run_len(s, white())) as int) =~= s.skip(
        run_len(s, white()) as int,
    ));
}

/// What a word, a token or a name is: the spaces in front of it, itself and what
/// follows it are the input; it is not empty; all of its characters satisfy `p`; and
/// it ends at the end of the input or at a character that does not. It is rejected if
/// and only if nothing but spaces stands in front of the end of the input or of such a
/// character.
pub proof fn law_run_is_maximal(p: spec_fn(char) -> bool, input: Seq<char>)
    ensures
        match spec_run(p, input) {
            Ok((rest, found)) => {
                &&& found.len() > 0
                &&& found + rest == skip_space(input)
                &&& forall|k: int| 0 <= k < found.len() ==> p(#[trigger] found[k])
                &&& rest.len() > 0 ==> !p(rest[0])
            },
            Err(e) => {
                &&& skip_space(input).len() > 0 ==> !p(skip_space(input)[0])
            },
        },
{
    let s = skip_space(input);
    lemma_run_len(s, p);
    let n = run_len(s, p) as int;
    assert(s.take(n) + s.skip(n) =~= s);
    assert forall|k: int| 0 <= k < n implies p(#[trigger] s.take(n)[k]) by {
        assert(s.take(n)[k] == s[k]);
    }
}

/// A word, a token or a name that starts with no space, all of whose characters satisfy
/// `p`, is read back from in front of the end of the input or of a character that does
/// not satisfy `p`.
pub proof fn law_run_reads_back(p: spec_fn(char) -> bool, t: Seq<char>, rest: Seq<char>)
    requires
        t.len() > 0,
        !is_space(t[0]),
        forall|k: int| 0 <= k < t.len() ==> p(#[trigger] t[k]),
        rest.len() > 0 ==> !p(rest[0]),
    ensures
        spec_run(p, t + rest) == accept(rest, t),
{
    let all = t + rest;
    lemma_run_len_prefix(t, rest, p);
    lemma_run_len_unique(rest, p, 0);
    assert(all[0] == t[0]);
    lemma_run_len_unique(all, space(), 0);
    assert(all.skip(0) =~= all);
    assert(all.skip(t.len() as int) =~= rest);
    assert(all.take(t.len() as int) =~= t);
}

/// A tag that starts with no space, a mark and a direction are read back from in front of
/// any text.
pub proof fn law_marks_read_back(sep: Seq<char>, rest: Seq<char>)
    ensures
        sep.len() > 0 && !is_space(sep[0]) ==> spec_parse_tag(sep, sep + rest) == accept(rest, sep),
        spec_options_separator(seq![';'] + rest) == accept(rest, ';'),
        spec_options_separator(seq![':'] + rest) == accept(rest, ':'),
        spec_end_of_options(seq![')'] + rest) == Ok::<_, Rejection<LeafError<Seq<char>>>>(
            (rest, seq![')']),
        ),
        spec_parse_direction(seq!['-', '>'] + rest) == accept(rest, Direction::Single),
        spec_parse_direction(seq!['<', '>'] + rest) == accept(rest, Direction::Both),
{
    if sep.len() > 0 && !is_space(sep[0]) {
        let all = sep + rest;
        assert(all[0] == sep[0]);
        lemma_run_len_unique(all, space(), 0);
        assert(all.skip(0) =~= all);
        assert(all.subrange(0, sep.len() as int) =~= sep);
        assert(all.skip(sep.len() as int) =~= rest);
    }
    lemma_mark(';', rest);
    lemma_mark(':', rest);
    lemma_mark(')', rest);
    assert((seq!['-', '>'] + rest).skip(2) =~= rest);
    assert((seq!['-', '>'] + rest).skip(1)[0] == '>');
    assert((seq!['<', '>'] + rest).skip(2) =~= rest);
    assert((seq!['<', '>'] + rest).skip(1)[0] == '>');
}

/// A character that is no space is not skipped.
proof fn lemma_mark(c: char, rest: Seq<char>)
    requires
        !is_space(c),
    ensures
        skip_space(seq![c] + rest) == seq![c] + rest,
        (seq![c] + rest).skip(1) == rest,
{
    let all = seq![c] + rest;
    lemma_run_len_unique(all, space(), 0);
    assert(all.skip(0) =~= all);
    assert(all.skip(1) =~= rest);
}

/// Whether a parser that returned `r` on `input` left an end of `input`.
pub open spec fn leaves_suffix<T>(r: Parsed<T>, input: Seq<char>) -> bool {
    r matches Ok((rest, _)) ==> rest.is_suffix_of(input)
}

/// Cutting characters off the front leaves a suffix, however often it is done.
proof fn lemma_skip_is_suffix(s: Seq<char>, t: Seq<char>, n: int)
    requires
        t.is_suffix_of(s),
        0 <= n <= t.len(),
    ensures
        t.skip(n).is_suffix_of(s),
{
    assert(t.skip(n) =~= s.subrange(s.len() - (t.len() - n), s.len() as int));
}

proof fn lemma_skip_space_is_suffix(s: Seq<char>, t: Seq<char>)
    requires
        t.is_suffix_of(s),
    ensures
        skip_space(t).is_suffix_of(s),
{
    lemma_run_len(t, space());
    lemma_skip_is_suffix(s, t, run_len(t, space()) as int);
}

proof fn lemma_self_is_suffix(s: Seq<char>)
    ensures
        s.is_suffix_of(s),
        Seq::<char>::empty().is_suffix_of(s),
{
    assert(s =~= s.subrange(0, s.len() as int));
    assert(Seq::<char>::empty() =~= s.subrange(s.len() as int, s.len() as int));
}

proof fn lemma_run_leaves_suffix(p: spec_fn(char) -> bool, s: Seq<char>, t: Seq<char>)
    requires
        t.is_suffix_of(s),
    ensures
        leaves_suffix(spec_run(p, t), s),
{
    lemma_skip_space_is_suffix(s, t);
    lemma_run_len(skip_space(t), p);
    lemma_skip_is_suffix(s, skip_space(t), run_len(skip_space(t), p) as int);
}

proof fn lemma_unescape_leaves_suffix(s: Seq<char>, t: Seq<char>)
    requires
        t.is_suffix_of(s),
    ensures
        unescape(t) matches Some((rest, _)) ==> rest.is_suffix_of(s),
    decreases t.len(),
{
    if t.len() > 0 && t[0] != '"' {
        if t[0] == '\\' {
            if t.len() > 1 {
                lemma_skip_is_suffix(s, t, 2);
                lemma_unescape_leaves_suffix(s, t.skip(2));
            }
        } else {
            lemma_skip_is_suffix(s, t, 1);
            lemma_unescape_leaves_suffix(s, t.skip(1));
        }
    }
}

proof fn lemma_quoted_leaves_suffix(s: Seq<char>, t: Seq<char>)
    requires
        t.is_suffix_of(s),
    ensures
        leaves_suffix(spec_parse_quoted_string(t), s),
{
    if head_is(t, '"') {
        lemma_skip_is_suffix(s, t, 1);
        lemma_unescape_leaves_suffix(s, t.skip(1));
        if let Some((rest, _)) = unescape(t.skip(1)) {
            if head_is(rest, '"') {
                lemma_skip_is_suffix(s, rest, 1);
            }
        }
    }
}

proof fn lemma_array_leaves_suffix(input: Seq<char>)
    ensures
        leaves_suffix(spec_parse_array(input), input),
        leaves_suffix(spec_scan_array(input), input),
{
    lemma_self_is_suffix(input);
    lemma_run_len(input, white());
    lemma_skip_is_suffix(input, input, run_len(input, white()) as int);
    let s = trimmed_start(input);
    let body = if head_is(s, '!') {
        s.skip(1)
    } else {
        s
    };
    if head_is(s, '!') {
        lemma_skip_is_suffix(input, s, 1);
    }
    if head_is(body, '[') {
        lemma_read_extent(ArrayState::start(), body);
        if let Some(n) = closing_end(body, 0) {
            lemma_skip_is_suffix(input, body, n as int);
        }
    } else {
        lemma_run_leaves_suffix(word(), input, body);
    }
    lemma_run_leaves_suffix(word(), input, s);
    if head_is(s, '[') {
        lemma_read_extent(ArrayState::start(), s);
        if let Some(n) = closing_end(s, 0) {
            lemma_skip_is_suffix(input, s, n as int);
        }
    }
}

proof fn lemma_pcre_leaves_suffix(input: Seq<char>)
    ensures
        leaves_suffix(spec_parse_pcre(input), input),
{
    lemma_self_is_suffix(input);
    let start = if head_is(input, '!') {
        input.skip(1)
    } else {
        input
    };
    if head_is(input, '!') {
        lemma_skip_is_suffix(input, input, 1);
    }
    lemma_skip_space_is_suffix(input, start);
    let s = skip_space(start);
    if head_is(s, '"') && head_is(s.skip(1), '/') {
        lemma_skip_is_suffix(input, s, 1);
        lemma_skip_is_suffix(input, s.skip(1), 1);
        let body = s.skip(1).skip(1);
        lemma_last_index(body, '/');
        if let Some(i) = last_index(body, '/') {
            let tail = body.skip(i as int + 1);
            lemma_skip_is_suffix(input, body, i as int + 1);
            lemma_skip_space_is_suffix(input, tail);
            if head_is(skip_space(tail), '"') {
                lemma_skip_is_suffix(input, skip_space(tail), 1);
            }
            lemma_run_len(tail, alphanumeric());
            let n = run_len(tail, alphanumeric()) as int;
            lemma_skip_is_suffix(input, tail, n);
            let after = tail.skip(n);
            lemma_skip_space_is_suffix(input, after);
            let v = skip_space(after);
            if head_is(v, ',') {
                lemma_skip_is_suffix(input, v, 1);
                lemma_run_len(v.skip(1), other_than('"'));
                lemma_skip_is_suffix(input, v.skip(1), until(v.skip(1), '"') as int);
            }
            let rest = capture_list(after).0;
            lemma_skip_space_is_suffix(input, rest);
            if head_is(skip_space(rest), '"') {
                lemma_skip_is_suffix(input, skip_space(rest), 1);
            }
        }
    }
}

/// Whatever a parser accepts, what it leaves is an end of its input.
pub proof fn law_remainder_is_suffix(input: Seq<char>, sep: Seq<char>, min: int, max: int)
    ensures
        leaves_suffix(spec_take_until_whitespace(input), input),
        leaves_suffix(spec_parse_tag(sep, input), input),
        leaves_suffix(spec_parse_token(input), input),
        leaves_suffix(spec_parse_quoted_string(input), input),
        leaves_suffix(spec_parse_array(input), input),
        leaves_suffix(spec_scan_array(input), input),
        leaves_suffix(spec_parse_option_value(input), input),
        spec_end_of_options(input) matches Ok((rest, _)) ==> rest.is_suffix_of(input),
        leaves_suffix(spec_option_name(input), input),
        leaves_suffix(spec_options_separator(input), input),
        leaves_suffix(spec_parse_direction(input), input),
        leaves_suffix(spec_parse_number(input, min, max), input),
        leaves_suffix(spec_parse_number_or_reference(input, min, max), input),
        leaves_suffix(spec_metadata(input), input),
        leaves_suffix(spec_parse_content(input), input),
        leaves_suffix(spec_parse_flow(input), input),
        leaves_suffix(spec_parse_pcre(input), input),
        leaves_suffix(spec_parse_isdataat(input), input),
        leaves_suffix(spec_parse_flowbits(input), input),
        leaves_suffix(spec_parse_reference(input), input),
{
    lemma_self_is_suffix(input);
    lemma_run_leaves_suffix(word(), input, input);
    lemma_run_leaves_suffix(token(), input, input);
    lemma_run_leaves_suffix(name(), input, input);
    lemma_skip_space_is_suffix(input, input);
    let s = skip_space(input);
    if sep.is_prefix_of(s) {
        lemma_skip_is_suffix(input, s, sep.len() as int);
    }
    if s.len() > 0 {
        lemma_skip_is_suffix(input, s, 1);
        lemma_quoted_leaves_suffix(input, s.skip(1));
    }
    lemma_quoted_leaves_suffix(input, input);
    lemma_quoted_leaves_suffix(input, s);
    lemma_array_leaves_suffix(input);
    lemma_pcre_leaves_suffix(input);
    lemma_value_end(s, 0);
    if let Some(n) = value_end(s, 0) {
        lemma_skip_is_suffix(input, s, n as int + 1);
    }
    if input.len() >= 2 {
        lemma_skip_is_suffix(input, input, 2);
    }
    lemma_run_len(input, other_than(';'));
    lemma_skip_is_suffix(input, input, until(input, ';') as int);
    lemma_run_len(s, alphanumeric());
    lemma_skip_is_suffix(input, s, run_len(s, alphanumeric()) as int);
}

} // verus!
