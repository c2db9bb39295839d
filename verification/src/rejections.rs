//! What holds of every rejection: another parser may be tried, and the error says where
//! in the input it arose.

use vstd::prelude::*;

use crate::array::{spec_parse_array, spec_scan_array};
use crate::error::{Parsed, Rejection};
use crate::flowbits::spec_parse_flowbits;
use crate::isdataat::{first_invalid, spec_parse_isdataat};
use crate::leaf::alphanumeric;
use crate::list::{first_unexpected, list_items, list_text, spec_metadata, spec_parse_flow};
use crate::number::{spec_parse_number, spec_parse_number_or_reference};
use crate::option_value::spec_parse_option_value;
use crate::pcre::{capture_list, spec_parse_pcre};
use crate::quoted::{spec_parse_content, spec_parse_quoted_string, unescape};
use crate::reference::spec_parse_reference;
use crate::text::{
    head_is, last_index, lemma_last_index, lemma_run_len, other_than, run_len, skip_space, space,
    split, split_trimmed, trimmed_end, trimmed_start, until, white,
};
use crate::words::{
    name, spec_end_of_options, spec_option_name, spec_options_separator, spec_parse_direction,
    spec_parse_tag, spec_parse_token, spec_run, spec_take_until_whitespace, token, word,
};

verus! {

/// Whether `r` leaves room for another parser to be tried.
pub open spec fn is_recoverable<T>(r: Parsed<T>) -> bool {
    r matches Err(e) ==> e is Error
}

/// No parser rules out that another one is tried on the same input.
pub proof fn law_rejections_are_recoverable(input: Seq<char>, sep: Seq<char>, min: int, max: int)
    ensures
        is_recoverable(spec_take_until_whitespace(input)),
        is_recoverable(spec_parse_tag(sep, input)),
        is_recoverable(spec_parse_token(input)),
        is_recoverable(spec_parse_quoted_string(input)),
        is_recoverable(spec_parse_array(input)),
        is_recoverable(spec_scan_array(input)),
        is_recoverable(spec_parse_option_value(input)),
        spec_end_of_options(input) matches Err(e) ==> e is Error,
        is_recoverable(spec_option_name(input)),
        is_recoverable(spec_options_separator(input)),
        is_recoverable(spec_parse_direction(input)),
        is_recoverable(spec_parse_number(input, min, max)),
        is_recoverable(spec_parse_number_or_reference(input, min, max)),
        spec_metadata(input) is Ok,
        is_recoverable(spec_parse_content(input)),
        is_recoverable(spec_parse_flow(input)),
        is_recoverable(spec_parse_pcre(input)),
        is_recoverable(spec_parse_isdataat(input)),
        is_recoverable(spec_parse_flowbits(input)),
        is_recoverable(spec_parse_reference(input)),
{
}

/// Whether `t` is a piece of `s`.
#[verifier::opaque]
pub open spec fn is_part_of(t: Seq<char>, s: Seq<char>) -> bool {
    exists|i: int, j: int| 0 <= i <= j <= s.len() && t == #[trigger] s.subrange(i, j)
}

/// Whether the error of a rejection of `input` names a piece of `input`.
pub open spec fn points_into<T>(r: Parsed<T>, input: Seq<char>) -> bool {
    match r {
        Ok(_) => true,
        Err(Rejection::Error(e)) => is_part_of(e.input, input),
        Err(Rejection::Failure(e)) => is_part_of(e.input, input),
    }
}

proof fn lemma_part_self(s: Seq<char>)
    ensures
        is_part_of(s, s),
{
    reveal(is_part_of);
    assert(s =~= s.subrange(0, s.len() as int));
}

/// A piece of a piece is a piece.
proof fn lemma_part_of_part(s: Seq<char>, t: Seq<char>, i: int, j: int)
    requires
        is_part_of(t, s),
        0 <= i <= j <= t.len(),
    ensures
        is_part_of(t.subrange(i, j), s),
{
    reveal(is_part_of);
    let (a, b) = choose|a: int, b: int| 0 <= a <= b <= s.len() && t == #[trigger] s.subrange(a, b);
    assert(t.subrange(i, j) =~= s.subrange(a + i, a + j));
}

proof fn lemma_part_cut(s: Seq<char>, t: Seq<char>, n: int)
    requires
        is_part_of(t, s),
        0 <= n <= t.len(),
    ensures
        is_part_of(t.skip(n), s),
        is_part_of(t.take(n), s),
{
    lemma_part_of_part(s, t, n, t.len() as int);
    lemma_part_of_part(s, t, 0, n);
    assert(t.skip(n) =~= t.subrange(n, t.len() as int));
    assert(t.take(n) =~= t.subrange(0, n));
}

proof fn lemma_part_skip_space(s: Seq<char>, t: Seq<char>)
    requires
        is_part_of(t, s),
    ensures
        is_part_of(skip_space(t), s),
{
    lemma_run_len(t, space());
    lemma_part_cut(s, t, run_len(t, space()) as int);
}

proof fn lemma_part_trimmed_start(s: Seq<char>, t: Seq<char>)
    requires
        is_part_of(t, s),
    ensures
        is_part_of(trimmed_start(t), s),
{
    lemma_run_len(t, white());
    lemma_part_cut(s, t, run_len(t, white()) as int);
}

proof fn lemma_part_trimmed_end(s: Seq<char>, t: Seq<char>)
    requires
        is_part_of(t, s),
    ensures
        is_part_of(trimmed_end(t), s),
    decreases t.len(),
{
    if t.len() > 0 {
        lemma_part_of_part(s, t, 0, t.len() - 1);
        assert(t.drop_last() =~= t.subrange(0, t.len() - 1));
        lemma_part_trimmed_end(s, t.drop_last());
    }
}

proof fn lemma_part_split(s: Seq<char>, t: Seq<char>, c: char, k: int)
    requires
        is_part_of(t, s),
        0 <= k < split(t, c).len(),
    ensures
        is_part_of(split(t, c)[k], s),
    decreases t.len(),
{
    lemma_run_len(t, other_than(c));
    let n = until(t, c) as int;
    if n < t.len() {
        lemma_part_cut(s, t, n);
        lemma_part_cut(s, t, n + 1);
        if k > 0 {
            lemma_part_split(s, t.skip(n + 1), c, k - 1);
        }
    }
}

proof fn lemma_run_points(p: spec_fn(char) -> bool, s: Seq<char>, t: Seq<char>)
    requires
        is_part_of(t, s),
    ensures
        points_into(spec_run(p, t), s),
        spec_run(p, t) matches Ok((rest, found)) ==> is_part_of(rest, s) && is_part_of(found, s),
{
    lemma_part_skip_space(s, t);
    lemma_run_len(skip_space(t), p);
    lemma_part_cut(s, skip_space(t), run_len(skip_space(t), p) as int);
}

proof fn lemma_unescape_points(s: Seq<char>, t: Seq<char>)
    requires
        is_part_of(t, s),
    ensures
        unescape(t) matches Some((rest, _)) ==> is_part_of(rest, s),
    decreases t.len(),
{
    if t.len() > 0 && t[0] != '"' {
        if t[0] == '\\' {
            if t.len() > 1 {
                lemma_part_cut(s, t, 2);
                lemma_unescape_points(s, t.skip(2));
            }
        } else {
            lemma_part_cut(s, t, 1);
            lemma_unescape_points(s, t.skip(1));
        }
    }
}

proof fn lemma_quoted_points(s: Seq<char>, t: Seq<char>)
    requires
        is_part_of(t, s),
    ensures
        points_into(spec_parse_quoted_string(t), s),
{
    if head_is(t, '"') {
        lemma_part_cut(s, t, 1);
        lemma_unescape_points(s, t.skip(1));
    }
}

proof fn lemma_array_points(input: Seq<char>)
    ensures
        points_into(spec_parse_array(input), input),
        points_into(spec_scan_array(input), input),
{
    lemma_part_self(input);
    lemma_part_trimmed_start(input, input);
    let s = trimmed_start(input);
    if head_is(s, '!') {
        lemma_part_cut(input, s, 1);
        lemma_run_points(word(), input, s.skip(1));
    }
    lemma_run_points(word(), input, s);
}

proof fn lemma_flow_points(input: Seq<char>, items: Seq<Seq<char>>)
    requires
        forall|k: int| 0 <= k < items.len() ==> is_part_of(#[trigger] items[k], input),
    ensures
        first_unexpected(items) matches Some(item) ==> is_part_of(item, input),
    decreases items.len(),
{
    if items.len() > 0 {
        let others = items.skip(1);
        assert forall|k: int| 0 <= k < others.len() implies is_part_of(#[trigger] others[k], input) by {
            assert(others[k] == items[k + 1]);
        }
        lemma_flow_points(input, others);
        assert(is_part_of(items[0], input));
    }
}

proof fn lemma_isdataat_options_point(input: Seq<char>, options: Seq<Seq<char>>)
    requires
        forall|k: int| 0 <= k < options.len() ==> is_part_of(#[trigger] options[k], input),
    ensures
        first_invalid(options) matches Some(option) ==> is_part_of(option, input),
    decreases options.len(),
{
    if options.len() > 0 {
        let others = options.skip(1);
        assert forall|k: int| 0 <= k < others.len() implies is_part_of(#[trigger] others[k], input) by {
            assert(others[k] == options[k + 1]);
        }
        lemma_isdataat_options_point(input, others);
        assert(is_part_of(options[0], input));
    }
}

proof fn lemma_isdataat_points(input: Seq<char>)
    ensures
        points_into(spec_parse_isdataat(input), input),
{
    lemma_part_self(input);
    lemma_part_skip_space(input, input);
    let s = skip_space(input);
    let start = if head_is(s, '!') {
        s.skip(1)
    } else {
        s
    };
    if head_is(s, '!') {
        lemma_part_cut(input, s, 1);
    }
    lemma_run_points(token(), input, start);
    if let Ok((rest, _)) = spec_parse_token(start) {
        let options = split_trimmed(rest, ',');
        assert forall|k: int| 0 <= k < options.len() implies is_part_of(#[trigger] options[k], input) by {
            lemma_part_split(input, rest, ',', k);
            lemma_part_trimmed_start(input, split(rest, ',')[k]);
            lemma_part_trimmed_end(input, trimmed_start(split(rest, ',')[k]));
        }
        lemma_isdataat_options_point(input, options);
    }
}

proof fn lemma_pcre_points(input: Seq<char>)
    ensures
        points_into(spec_parse_pcre(input), input),
{
    lemma_part_self(input);
    let start = if head_is(input, '!') {
        input.skip(1)
    } else {
        input
    };
    if head_is(input, '!') {
        lemma_part_cut(input, input, 1);
    }
    lemma_part_skip_space(input, start);
    let s = skip_space(start);
    if head_is(s, '"') {
        lemma_part_cut(input, s, 1);
        if head_is(s.skip(1), '/') {
            lemma_part_cut(input, s.skip(1), 1);
            let body = s.skip(1).skip(1);
            lemma_last_index(body, '/');
            if let Some(i) = last_index(body, '/') {
                let tail = body.skip(i as int + 1);
                lemma_part_cut(input, body, i as int + 1);
                lemma_run_len(tail, alphanumeric());
                let n = run_len(tail, alphanumeric()) as int;
                lemma_part_cut(input, tail, n);
                let after = tail.skip(n);
                lemma_part_skip_space(input, after);
                let v = skip_space(after);
                if head_is(v, ',') {
                    lemma_part_cut(input, v, 1);
                    lemma_run_len(v.skip(1), other_than('"'));
                    lemma_part_cut(input, v.skip(1), until(v.skip(1), '"') as int);
                }
                lemma_part_skip_space(input, capture_list(after).0);
            }
        }
    }
}

/// Wherever a parser rejects its input, its error names a piece of that input.
pub proof fn law_rejections_point_into_the_input(
    input: Seq<char>,
    sep: Seq<char>,
    min: int,
    max: int,
)
    ensures
        points_into(spec_take_until_whitespace(input), input),
        points_into(spec_parse_tag(sep, input), input),
        points_into(spec_parse_token(input), input),
        points_into(spec_parse_quoted_string(input), input),
        points_into(spec_parse_array(input), input),
        points_into(spec_scan_array(input), input),
        points_into(spec_parse_option_value(input), input),
        spec_end_of_options(input) matches Err(Rejection::Error(e)) ==> is_part_of(e.input, input),
        points_into(spec_option_name(input), input),
        points_into(spec_options_separator(input), input),
        points_into(spec_parse_direction(input), input),
        points_into(spec_parse_number(input, min, max), input),
        points_into(spec_parse_number_or_reference(input, min, max), input),
        points_into(spec_parse_content(input), input),
        points_into(spec_parse_flow(input), input),
        points_into(spec_parse_pcre(input), input),
        points_into(spec_parse_isdataat(input), input),
        points_into(spec_parse_flowbits(input), input),
        points_into(spec_parse_reference(input), input),
{
    lemma_part_self(input);
    lemma_run_points(word(), input, input);
    lemma_run_points(token(), input, input);
    lemma_run_points(name(), input, input);
    lemma_part_skip_space(input, input);
    let s = skip_space(input);
    lemma_quoted_points(input, input);
    lemma_quoted_points(input, s);
    if s.len() > 0 {
        lemma_part_cut(input, s, 1);
        lemma_quoted_points(input, s.skip(1));
    }
    lemma_array_points(input);
    lemma_pcre_points(input);
    lemma_isdataat_points(input);
    lemma_run_len(s, alphanumeric());
    lemma_part_cut(input, s, run_len(s, alphanumeric()) as int);
    lemma_part_cut(input, s, s.len() as int);
    assert(s.skip(s.len() as int) =~= Seq::<char>::empty());
    lemma_run_len(input, other_than(';'));
    lemma_part_cut(input, input, until(input, ';') as int);
    let items = list_items(input);
    assert forall|k: int| 0 <= k < items.len() implies is_part_of(#[trigger] items[k], input) by {
        lemma_part_split(input, list_text(input), ',', k);
        lemma_part_skip_space(input, split(list_text(input), ',')[k]);
    }
    lemma_flow_points(input, items);
}

} // verus!
