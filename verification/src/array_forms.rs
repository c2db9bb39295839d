//! What the array parser and the scanner make of every input: arrays with any white space
//! in them, stray commas and exclamation marks included, and single words.

use vstd::prelude::*;

use crate::array::{
    closing_end, negate_if_marked, push_innermost, spec_parse_array, spec_scan_array, take_mark,
    ArrayState,
};
use crate::array_laws::{
    extend, is_plain_char, is_separated, is_settled, lemma_closing_end, lemma_end_token_first,
    lemma_read_char, lemma_read_extent, lemma_read_text, occurrences,
};
use crate::error::{accept, reject, ErrorKind, NomErrorKind, Parsed};
use crate::forms::{are_blank, is_blank, law_word_forms, starts_with};
use crate::laws::lemma_run_len_prefix;
use crate::text::{is_white, lemma_run_len_unique, trimmed_end, trimmed_start, white};
use crate::types::Element;

verus! {

/// Whether `s` is made of white space.
pub open spec fn are_white(s: Seq<char>) -> bool {
    forall|k: int| 0 <= k < s.len() ==> is_white(#[trigger] s[k])
}

/// Whether `s` is made of spaces and tabs.
pub open spec fn are_spaces(s: Seq<char>) -> bool {
    forall|k: int| 0 <= k < s.len() ==> #[trigger] s[k] == ' ' || s[k] == '\t'
}

/// Whether `t` can be the text of an element, white space at its end included: it is not
/// empty, holds neither brackets nor commas, and starts with no space, tab or `!`.
pub open spec fn is_text(t: Seq<char>) -> bool {
    &&& t.len() > 0
    &&& t[0] != ' ' && t[0] != '\t' && t[0] != '!'
    &&& !t.contains('[') && !t.contains(']') && !t.contains(',')
}

/// `e`, excluded if `excluded`.
pub open spec fn exclude_if(excluded: bool, e: Element) -> Element {
    if excluded {
        Element::Not(Box::new(e))
    } else {
        e
    }
}

/// An element of an array with the white space around it.
pub enum Spaced {
    /// A text: spaces and tabs in front of its `!`, whether it has one, spaces and tabs
    /// behind that, the text, and white space behind it.
    Text {
        lead: Seq<char>,
        excluded: bool,
        gap: Seq<char>,
        text: Seq<char>,
        tail: Seq<char>,
    },
    /// An array: as for a text, with its elements in place of the text, or with the spaces
    /// and tabs between its brackets if it has none, and spaces and tabs behind it.
    List {
        lead: Seq<char>,
        excluded: bool,
        gap: Seq<char>,
        list: Seq<Spaced>,
        end: Seq<char>,
        tail: Seq<char>,
    },
}

/// The `!` of an excluded element.
pub open spec fn mark_text(excluded: bool) -> Seq<char> {
    if excluded {
        seq!['!']
    } else {
        seq![]
    }
}

/// An element with the white space around it, as it is written.
pub open spec fn written(e: Spaced) -> Seq<char>
    decreases e,
{
    match e {
        Spaced::Text { lead, excluded, gap, text, tail } => lead + (mark_text(excluded) + (gap + (text
            + tail))),
        Spaced::List { lead, excluded, gap, list, end, tail } => lead + (mark_text(excluded) + (gap + (
        seq!['['] + (written_list(list) + (end + (seq![']'] + tail)))))),
    }
}

/// Elements with the white space around them, as they are written, with commas between
/// them.
pub open spec fn written_list(list: Seq<Spaced>) -> Seq<char>
    decreases list,
{
    if list.len() == 0 {
        seq![]
    } else if list.len() == 1 {
        written(list[0])
    } else {
        written(list[0]) + (seq![','] + written_list(list.skip(1)))
    }
}

/// The element without the white space around it.
pub open spec fn meant(e: Spaced) -> Element
    decreases e,
{
    match e {
        Spaced::Text { lead, excluded, gap, text, tail } => exclude_if(excluded, Element::Text(text)),
        Spaced::List { lead, excluded, gap, list, end, tail } => exclude_if(
            excluded,
            Element::List(meant_list(list)),
        ),
    }
}

/// The elements without the white space around them.
pub open spec fn meant_list(list: Seq<Spaced>) -> Seq<Element>
    decreases list,
{
    if list.len() == 0 {
        seq![]
    } else {
        seq![meant(list[0])] + meant_list(list.skip(1))
    }
}

/// Whether the white space of an element is where its form allows it, and its text is one
/// with no white space at its end.
pub open spec fn is_spaced(e: Spaced) -> bool
    decreases e,
{
    match e {
        Spaced::Text { lead, excluded, gap, text, tail } => {
            &&& are_spaces(lead) && are_spaces(gap) && are_white(tail)
            &&& is_text(text) && !is_white(text.last())
        },
        Spaced::List { lead, excluded, gap, list, end, tail } => {
            &&& are_spaces(lead) && are_spaces(gap) && are_spaces(end) && are_spaces(tail)
            &&& list.len() > 0 ==> end.len() == 0
            &&& are_spaced(list)
        },
    }
}

/// Whether all elements are in form.
pub open spec fn are_spaced(list: Seq<Spaced>) -> bool
    decreases list,
{
    list.len() > 0 ==> is_spaced(list[0]) && are_spaced(list.skip(1))
}

/// Spaces and tabs between elements are skipped.
proof fn lemma_read_spaces(st: ArrayState, b: Seq<char>, rest: Seq<char>)
    requires
        are_spaces(b),
        st.token.len() == 0,
    ensures
        st.read(b + rest) == st.read(rest),
    decreases b.len(),
{
    if b.len() == 0 {
        assert(b + rest =~= rest);
    } else {
        assert(b[0] == ' ' || b[0] == '\t');
        let more = b.skip(1);
        assert forall|k: int| 0 <= k < more.len() implies #[trigger] more[k] == ' ' || more[k]
            == '\t' by {
            assert(b[k + 1] == ' ' || b[k + 1] == '\t');
        }
        lemma_read_char(st, b[0], more + rest);
        assert(seq![b[0]] + (more + rest) =~= b + rest);
        lemma_read_spaces(st, more, rest);
    }
}

/// White space at the end of a text makes no difference to what trimming leaves.
proof fn lemma_trimmed_end_white(t: Seq<char>, w: Seq<char>)
    requires
        are_white(w),
    ensures
        trimmed_end(t + w) == trimmed_end(t),
    decreases w.len(),
{
    if w.len() == 0 {
        assert(t + w =~= t);
    } else {
        assert(is_white(w[w.len() - 1]));
        assert((t + w).drop_last() =~= t + w.drop_last());
        lemma_trimmed_end_white(t, w.drop_last());
    }
}

proof fn lemma_text_chars(t: Seq<char>)
    requires
        is_text(t),
    ensures
        forall|k: int| 0 <= k < t.len() ==> is_plain_char(#[trigger] t[k]),
{
    assert forall|k: int| 0 <= k < t.len() implies is_plain_char(#[trigger] t[k]) by {
        assert(t.contains(t[k]));
    }
}

/// A text in front of a comma or a bracket is read as one element, trimmed at its end.
proof fn lemma_read_raw(st: ArrayState, t: Seq<char>, tail: Seq<char>)
    requires
        is_text(t),
        st.depth() >= 1,
        st.token.len() == 0,
        is_separated(tail),
    ensures
        st.read(t + tail) == (ArrayState { token: t, ..st }).end_token().read(tail),
{
    lemma_text_chars(t);
    lemma_read_text(st, t, tail);
    assert(st.token + t =~= t);
    lemma_end_token_first(ArrayState { token: t, ..st }, tail);
}

/// `st` with a `!` if `excluded`.
spec fn marked(st: ArrayState, excluded: bool) -> ArrayState {
    if excluded {
        ArrayState { marks: st.marks.push(st.depth()), ..st }
    } else {
        st
    }
}

/// Reading up to the text or the bracket of an element.
proof fn lemma_read_lead(st: ArrayState, lead: Seq<char>, excluded: bool, gap: Seq<char>, rest: Seq<char>)
    requires
        st.depth() >= 1,
        st.token.len() == 0,
        are_spaces(lead),
        are_spaces(gap),
    ensures
        st.read(lead + (mark_text(excluded) + (gap + rest))) == marked(st, excluded).read(rest),
{
    lemma_read_spaces(st, lead, mark_text(excluded) + (gap + rest));
    if excluded {
        lemma_read_char(st, '!', gap + rest);
    } else {
        assert(mark_text(excluded) + (gap + rest) =~= gap + rest);
    }
    lemma_read_spaces(marked(st, excluded), gap, rest);
}

proof fn lemma_read_spaced(st: ArrayState, e: Spaced, tail: Seq<char>)
    requires
        is_spaced(e),
        is_settled(st),
        is_separated(tail),
    ensures
        st.read(written(e) + tail) == extend(st, seq![meant(e)]).read(tail),
    decreases e, 1int,
{
    assert(st.token =~= Seq::<char>::empty());
    let added = extend(st, seq![meant(e)]);
    assert(st.open.last() + seq![meant(e)] =~= st.open.last().push(meant(e)));
    assert(added.open =~= push_innermost(st.open, meant(e)));
    match e {
        Spaced::Text { lead, excluded, gap, text, tail: white_tail } => {
            let raw = text + white_tail;
            assert(written(e) + tail =~= lead + (mark_text(excluded) + (gap + (raw + tail))));
            lemma_read_lead(st, lead, excluded, gap, raw + tail);
            let at = marked(st, excluded);
            assert forall|k: int| 0 <= k < raw.len() implies is_plain_char(#[trigger] raw[k]) by {
                lemma_text_chars(text);
                if k < text.len() {
                    assert(is_plain_char(text[k]));
                } else {
                    assert(is_white(white_tail[k - text.len()]));
                }
            }
            lemma_read_text(at, raw, tail);
            assert(at.token + raw =~= raw);
            let full = ArrayState { token: raw, ..at };
            lemma_end_token_first(full, tail);
            lemma_trimmed_end_white(text, white_tail);
            assert(excluded ==> at.marks.drop_last() =~= st.marks);
            assert(full.end_token() =~= added);
        },
        Spaced::List { lead, excluded, gap, list, end, tail: blank_tail } => {
            let inner = written_list(list) + (end + (seq![']'] + (blank_tail + tail)));
            assert(written(e) + tail =~= lead + (mark_text(excluded) + (gap + (seq!['['] + inner))));
            lemma_read_lead(st, lead, excluded, gap, seq!['['] + inner);
            let at = marked(st, excluded);
            lemma_read_char(at, '[', inner);
            let inside = ArrayState { open: at.open.push(seq![]), ..at };
            let close = seq![']'] + (blank_tail + tail);
            lemma_read_spaced_list(inside, list, end, close);
            let full = extend(inside, meant_list(list));
            assert(full.end_token() == full);
            lemma_read_char(full, ']', blank_tail + tail);
            assert(full.open.drop_last() =~= at.open);
            assert(full.open.last() =~= meant_list(list));
            assert(excluded ==> at.marks.drop_last() =~= st.marks);
            assert(full.close() =~= added);
            lemma_read_spaces(added, blank_tail, tail);
        },
    }
}

proof fn lemma_read_spaced_list(st: ArrayState, list: Seq<Spaced>, end: Seq<char>, tail: Seq<char>)
    requires
        are_spaced(list),
        are_spaces(end),
        list.len() > 0 ==> end.len() == 0,
        is_settled(st),
        starts_with(tail, ']'),
    ensures
        st.read(written_list(list) + (end + tail)) == extend(st, meant_list(list)).read(tail),
    decreases list, 0int,
{
    if list.len() == 0 {
        assert(written_list(list) + (end + tail) =~= end + tail);
        lemma_read_spaces(st, end, tail);
        assert(extend(st, meant_list(list)).open =~= st.open) by {
            assert(st.open.last() + meant_list(list) =~= st.open.last());
        }
    } else if list.len() == 1 {
        assert(end + tail =~= tail);
        lemma_read_spaced(st, list[0], tail);
        assert(list.skip(1) =~= Seq::<Spaced>::empty());
        assert(meant_list(list.skip(1)) =~= Seq::<Element>::empty());
        assert(meant_list(list) =~= seq![meant(list[0])]);
    } else {
        let first = list[0];
        let others = list.skip(1);
        let more = written_list(others) + (end + tail);
        assert(written_list(list) + (end + tail) =~= written(first) + (seq![','] + more));
        lemma_read_spaced(st, first, seq![','] + more);
        let next = extend(st, seq![meant(first)]);
        lemma_read_char(next, ',', more);
        assert(next.step(',') == next);
        lemma_read_spaced_list(next, others, end, tail);
        assert(extend(next, meant_list(others)) =~= extend(st, meant_list(list))) by {
            assert(next.open.last() + meant_list(others) =~= st.open.last() + meant_list(list));
            assert(next.open.drop_last() =~= st.open.drop_last());
        }
    }
}

/// A text that starts with a bracket is parsed by reading it.
proof fn lemma_parse_bracket(s: Seq<char>)
    requires
        starts_with(s, '['),
    ensures
        spec_parse_array(s) == (match ArrayState::start().read(s) {
            Some((rest, list)) => accept(rest, list),
            None => reject(ErrorKind::UnterminatedArray, s),
        }),
        trimmed_start(s) == s,
{
    lemma_run_len_unique(s, white(), 0);
    assert(s.skip(0) =~= s);
}

/// White space around the elements of an array makes no difference: with any spaces and
/// tabs in front of each element and behind its `!`, any white space behind a text, and
/// any spaces and tabs behind an array, the elements are those that are meant, excluded
/// ones and those of nested arrays included.
pub proof fn law_white_space_around_elements_is_ignored(
    list: Seq<Spaced>,
    end: Seq<char>,
    rest: Seq<char>,
)
    requires
        are_spaced(list),
        are_spaces(end),
        list.len() > 0 ==> end.len() == 0,
    ensures
        spec_parse_array(seq!['['] + (written_list(list) + (end + (seq![']'] + rest)))) == accept(
            rest,
            meant_list(list),
        ),
{
    let close = seq![']'] + rest;
    let inner = written_list(list) + (end + close);
    let start = ArrayState::start();
    lemma_read_char(start, '[', inner);
    let inside = start.step('[');
    lemma_read_spaced_list(inside, list, end, close);
    let full = extend(inside, meant_list(list));
    assert(full.open[0] =~= meant_list(list));
    assert(close.skip(1) =~= rest);
    lemma_parse_bracket(seq!['['] + inner);
}

/// Whether `p` is the start of an array that is not closed in it.
pub open spec fn is_open(p: Seq<char>) -> bool {
    &&& starts_with(p, '[')
    &&& forall|k: int|
        0 < k <= p.len() ==> #[trigger] occurrences(p.take(k), '[') > occurrences(p.take(k), ']')
}

/// Whether `p` ends between elements: behind a comma or a closing bracket, or behind an
/// opening bracket, a space, a tab or a `!` in front of which this holds.
pub open spec fn is_between(p: Seq<char>) -> bool
    decreases p.len(),
{
    p.len() > 0 && {
        let c = p.last();
        ||| c == ',' || c == ']'
        ||| (c == '[' || c == ' ' || c == '\t' || c == '!') && (p.len() == 1 || is_between(
            p.drop_last(),
        ))
    }
}

/// The state behind `p`.
spec fn state_behind(p: Seq<char>) -> ArrayState
    decreases p.len(),
{
    if p.len() == 0 {
        ArrayState::start()
    } else {
        state_behind(p.drop_last()).step(p.last())
    }
}

proof fn lemma_open(p: Seq<char>, q: Seq<char>)
    requires
        is_open(p),
    ensures
        ArrayState::start().read(p + q) == state_behind(p).read(q),
        state_behind(p).depth() == occurrences(p, '[') - occurrences(p, ']'),
        state_behind(p).depth() >= 1,
        is_between(p) ==> state_behind(p).token.len() == 0,
    decreases p.len(),
{
    let before = p.drop_last();
    let c = p.last();
    let whole = p.take(p.len() as int);
    assert(whole =~= p);
    assert(occurrences(whole, '[') > occurrences(whole, ']'));
    if p.len() == 1 {
        assert(before =~= Seq::<char>::empty());
        assert(p + q =~= seq!['['] + q);
        lemma_read_char(ArrayState::start(), '[', q);
        assert(state_behind(before) == ArrayState::start());
        assert(occurrences(before, '[') == 0 && occurrences(before, ']') == 0);
    } else {
        assert(before[0] == p[0]);
        assert forall|k: int| 0 < k <= before.len() implies #[trigger] occurrences(before.take(k), '[')
            > occurrences(before.take(k), ']') by {
            assert(before.take(k) =~= p.take(k));
        }
        lemma_open(before, seq![c] + q);
        assert(before + (seq![c] + q) =~= p + q);
        let st = state_behind(before);
        if c == ']' {
            assert(occurrences(p, ']') == occurrences(before, ']') + 1);
            assert(occurrences(p, '[') == occurrences(before, '['));
            assert(st.depth() >= 2);
        }
        lemma_read_char(st, c, q);
        assert(state_behind(p) == st.step(c));
    }
}

/// Whether two results accept with the same remainder and the same elements, or both
/// reject.
pub open spec fn same_elements(a: Parsed<Seq<Element>>, b: Parsed<Seq<Element>>) -> bool {
    match (a, b) {
        (Ok(x), Ok(y)) => x == y,
        (Err(_), Err(_)) => true,
        _ => false,
    }
}

/// A space, a tab or a comma between elements makes no difference.
pub proof fn law_separators_are_ignored_between_elements(p: Seq<char>, c: char, q: Seq<char>)
    requires
        is_open(p),
        is_between(p),
        c == ' ' || c == '\t' || c == ',',
    ensures
        same_elements(spec_parse_array(p + (seq![c] + q)), spec_parse_array(p + q)),
{
    lemma_open(p, seq![c] + q);
    lemma_open(p, q);
    let st = state_behind(p);
    lemma_read_char(st, c, q);
    assert(st.step(c) == st);
    lemma_parse_bracket(p + (seq![c] + q));
    lemma_parse_bracket(p + q);
}

/// White space behind a text makes no difference in front of a comma or a bracket, nor does
/// a comma between a text and a closing bracket.
pub proof fn law_white_space_behind_a_text_is_ignored(
    p: Seq<char>,
    t: Seq<char>,
    w: Seq<char>,
    q: Seq<char>,
)
    requires
        is_open(p),
        is_between(p),
        is_text(t),
        are_white(w),
        starts_with(q, ',') || starts_with(q, ']'),
    ensures
        same_elements(spec_parse_array(p + (t + (w + q))), spec_parse_array(p + (t + q))),
        starts_with(q, ']') ==> same_elements(
            spec_parse_array(p + (t + (seq![','] + q))),
            spec_parse_array(p + (t + q)),
        ),
{
    lemma_open(p, t + (w + q));
    lemma_open(p, t + q);
    lemma_open(p, t + (seq![','] + q));
    let st = state_behind(p);
    let raw = t + w;
    assert(t + (w + q) =~= raw + q);
    lemma_text_chars(t);
    assert forall|k: int| 0 <= k < raw.len() implies is_plain_char(#[trigger] raw[k]) by {
        if k < t.len() {
            assert(is_plain_char(t[k]));
        } else {
            assert(is_white(w[k - t.len()]));
        }
    }
    lemma_read_text(st, raw, q);
    assert(st.token + raw =~= raw);
    lemma_end_token_first(ArrayState { token: raw, ..st }, q);
    lemma_read_raw(st, t, q);
    lemma_trimmed_end_white(t, w);
    let ended = (ArrayState { token: t, ..st }).end_token();
    assert((ArrayState { token: raw, ..st }).end_token() == ended);
    lemma_read_raw(st, t, seq![','] + q);
    lemma_read_char(ended, ',', q);
    assert(ended.step(',') == ended);
    lemma_parse_bracket(p + (t + (w + q)));
    lemma_parse_bracket(p + (t + q));
    lemma_parse_bracket(p + (t + (seq![','] + q)));
}

/// A text in front of an opening bracket is read as if it stood behind it.
pub proof fn law_text_moves_into_the_array_behind_it(p: Seq<char>, t: Seq<char>, q: Seq<char>)
    requires
        is_open(p),
        is_between(p),
        is_text(t),
    ensures
        same_elements(
            spec_parse_array(p + (t + (seq!['['] + q))),
            spec_parse_array(p + (seq!['['] + (t + q))),
        ),
{
    lemma_open(p, t + (seq!['['] + q));
    lemma_open(p, seq!['['] + (t + q));
    let st = state_behind(p);
    lemma_text_chars(t);
    lemma_read_text(st, t, seq!['['] + q);
    assert(st.token + t =~= t);
    lemma_read_char(ArrayState { token: t, ..st }, '[', q);
    lemma_read_char(st, '[', t + q);
    lemma_read_text(st.step('['), t, q);
    lemma_parse_bracket(p + (t + (seq!['['] + q)));
    lemma_parse_bracket(p + (seq!['['] + (t + q)));
}

/// What stands in an array, one after the other.
pub enum Item {
    /// A `!`.
    Mark,
    /// A text, white space at its end included.
    Text(Seq<char>),
    /// An array.
    List(Seq<Item>),
}

/// The items as they are written, with a comma behind each text.
pub open spec fn items_text(items: Seq<Item>) -> Seq<char>
    decreases items,
{
    if items.len() == 0 {
        seq![]
    } else {
        let rest = items_text(items.skip(1));
        match items[0] {
            Item::Mark => seq!['!'] + rest,
            Item::Text(t) => t + (seq![','] + rest),
            Item::List(inner) => seq!['['] + (items_text(inner) + (seq![']'] + rest)),
        }
    }
}

/// Whether each text of the items is one.
pub open spec fn are_items(items: Seq<Item>) -> bool
    decreases items,
{
    items.len() > 0 ==> {
        &&& are_items(items.skip(1))
        &&& match items[0] {
            Item::Mark => true,
            Item::Text(t) => is_text(t),
            Item::List(inner) => are_items(inner),
        }
    }
}

/// The elements that the items of an array on level `depth` stand for, and the levels of
/// the marks that are left, where those of `marks` are left from what precedes them. A
/// text or an array takes the last mark that is left if that stands on the same level,
/// and is then excluded.
pub open spec fn items_elements(items: Seq<Item>, depth: nat, marks: Seq<nat>) -> (
    Seq<Element>,
    Seq<nat>,
)
    decreases items,
{
    if items.len() == 0 {
        (seq![], marks)
    } else {
        match items[0] {
            Item::Mark => items_elements(items.skip(1), depth, marks.push(depth)),
            Item::Text(t) => {
                let taken = marks.len() > 0 && marks.last() == depth;
                let (others, left) = items_elements(
                    items.skip(1),
                    depth,
                    if taken {
                        marks.drop_last()
                    } else {
                        marks
                    },
                );
                (seq![exclude_if(taken, Element::Text(trimmed_end(t)))] + others, left)
            },
            Item::List(inner) => {
                let (list, inside) = items_elements(inner, depth + 1, marks);
                let taken = inside.len() > 0 && inside.last() == depth;
                let (others, left) = items_elements(
                    items.skip(1),
                    depth,
                    if taken {
                        inside.drop_last()
                    } else {
                        inside
                    },
                );
                (seq![exclude_if(taken, Element::List(list))] + others, left)
            },
        }
    }
}

proof fn lemma_read_items(st: ArrayState, items: Seq<Item>, tail: Seq<char>)
    requires
        are_items(items),
        st.depth() >= 1,
        st.token.len() == 0,
        starts_with(tail, ']'),
    ensures
        ({
            let (list, left) = items_elements(items, st.depth(), st.marks);
            st.read(items_text(items) + tail) == extend(ArrayState { marks: left, ..st }, list).read(
                tail,
            )
        }),
    decreases items,
{
    assert(st.token =~= Seq::<char>::empty());
    if items.len() == 0 {
        assert(items_text(items) + tail =~= tail);
        assert(st.open.last() + Seq::<Element>::empty() =~= st.open.last());
        assert(extend(st, Seq::<Element>::empty()).open =~= st.open);
    } else {
        let others = items.skip(1);
        let more = items_text(others) + tail;
        match items[0] {
            Item::Mark => {
                assert(items_text(items) + tail =~= seq!['!'] + more);
                lemma_read_char(st, '!', more);
                lemma_read_items(st.step('!'), others, tail);
            },
            Item::Text(t) => {
                assert(items_text(items) + tail =~= t + (seq![','] + more));
                lemma_read_raw(st, t, seq![','] + more);
                let next = (ArrayState { token: t, ..st }).end_token();
                lemma_read_char(next, ',', more);
                assert(next.step(',') == next);
                lemma_read_items(next, others, tail);
                let taken = st.marks.len() > 0 && st.marks.last() == st.depth();
                let e = exclude_if(taken, Element::Text(trimmed_end(t)));
                assert(next.open =~= push_innermost(st.open, e));
                lemma_extend_again(st, next, e, items_elements(others, next.depth(), next.marks).0);
            },
            Item::List(inner) => {
                let close = seq![']'] + more;
                assert(items_text(items) + tail =~= seq!['['] + (items_text(inner) + close));
                lemma_read_char(st, '[', items_text(inner) + close);
                let inside = st.step('[');
                lemma_read_items(inside, inner, close);
                let (list, left) = items_elements(inner, inside.depth(), inside.marks);
                let full = extend(ArrayState { marks: left, ..inside }, list);
                assert(full.end_token() == full);
                lemma_read_char(full, ']', more);
                let next = full.close();
                let taken = left.len() > 0 && left.last() == st.depth();
                let e = exclude_if(taken, Element::List(list));
                assert(full.open.drop_last() =~= st.open);
                assert(full.open.last() =~= list);
                assert(next.open =~= push_innermost(st.open, e));
                lemma_read_items(next, others, tail);
                lemma_extend_again(st, next, e, items_elements(others, next.depth(), next.marks).0);
            },
        }
    }
}

proof fn lemma_extend_again(st: ArrayState, next: ArrayState, e: Element, others: Seq<Element>)
    requires
        st.depth() >= 1,
        next.open == push_innermost(st.open, e),
    ensures
        extend(next, others).open == extend(st, seq![e] + others).open,
        next.depth() == st.depth(),
{
    assert(next.open.last() + others =~= st.open.last() + (seq![e] + others));
    assert(next.open.drop_last() =~= st.open.drop_last());
}

/// The elements of an array of any items, stray marks included. Together with what makes no
/// difference between elements and behind a text, and with texts that move into the array
/// behind them, this gives the elements of every array that is closed.
pub proof fn law_array_of_items(items: Seq<Item>, rest: Seq<char>)
    requires
        are_items(items),
    ensures
        spec_parse_array(seq!['['] + (items_text(items) + (seq![']'] + rest))) == accept(
            rest,
            items_elements(items, 1, seq![]).0,
        ),
{
    let close = seq![']'] + rest;
    let inner = items_text(items) + close;
    let start = ArrayState::start();
    lemma_read_char(start, '[', inner);
    let inside = start.step('[');
    lemma_read_items(inside, items, close);
    let (list, left) = items_elements(items, 1, seq![]);
    let full = extend(ArrayState { marks: left, ..inside }, list);
    assert(full.open[0] =~= list);
    assert(close.skip(1) =~= rest);
    lemma_parse_bracket(seq!['['] + inner);
}

/// An element takes the last mark if that stands on its level, and no other.
pub proof fn law_element_takes_the_last_mark(
    marks: Seq<nat>,
    depth: nat,
    e: Element,
    open: Seq<Seq<Element>>,
    list: Seq<Element>,
)
    ensures
        negate_if_marked(marks.push(depth), depth, e) == Element::Not(Box::new(e)),
        take_mark(marks.push(depth), depth) == marks,
        marks.len() == 0 || marks.last() != depth ==> negate_if_marked(marks, depth, e) == e
            && take_mark(marks, depth) == marks,
        push_innermost(open.push(list), e) == open.push(list.push(e)),
{
    assert(marks.push(depth).drop_last() =~= marks);
    assert(open.push(list).drop_last() =~= open);
}

proof fn lemma_white_skipped(w: Seq<char>, s: Seq<char>)
    requires
        are_white(w),
        s.len() > 0 ==> !is_white(s[0]),
    ensures
        trimmed_start(w + s) == s,
{
    assert forall|k: int| 0 <= k < w.len() implies white()(#[trigger] w[k]) by {
        assert(is_white(w[k]));
    }
    lemma_run_len_prefix(w, s, white());
    lemma_run_len_unique(s, white(), 0);
    assert((w + s).skip(w.len() as int) =~= s);
}

/// Whether `t` is a word as a whole.
pub open spec fn is_word_text(t: Seq<char>) -> bool {
    t.len() > 0 && forall|k: int| 0 <= k < t.len() ==> !is_blank(#[trigger] t[k])
}

/// A single word in place of an array is all up to the next blank. Behind a `!` it is
/// excluded, and then may start with anything, though with a bracket only behind blanks.
/// The scanner takes the `!` for a part of the word.
pub proof fn law_single_word_forms(w: Seq<char>, b: Seq<char>, t: Seq<char>, rest: Seq<char>)
    requires
        are_white(w),
        are_blank(b),
        is_word_text(t),
        rest.len() > 0 ==> is_blank(rest[0]),
    ensures
        t[0] != '[' && !is_white(t[0]) ==> spec_scan_array(w + (t + rest)) == accept(rest, t),
        t[0] != '[' && t[0] != '!' && !is_white(t[0]) ==> spec_parse_array(w + (t + rest)) == accept(
            rest,
            seq![Element::Text(t)],
        ),
        b.len() > 0 || t[0] != '[' ==> spec_parse_array(w + (seq!['!'] + (b + (t + rest)))) == accept(
            rest,
            seq![Element::Not(Box::new(Element::Text(t)))],
        ),
        spec_scan_array(w) == reject::<Seq<char>>(
            ErrorKind::Nom(NomErrorKind::IsNot),
            Seq::empty(),
        ),
        spec_parse_array(w) == reject::<Seq<Element>>(
            ErrorKind::Nom(NomErrorKind::IsNot),
            Seq::empty(),
        ),
        spec_parse_array(w + (seq!['!'] + b)) == reject::<Seq<Element>>(
            ErrorKind::Nom(NomErrorKind::IsNot),
            Seq::empty(),
        ),
{
    let empty = Seq::<char>::empty();
    let s = t + rest;
    assert(s[0] == t[0]);
    assert(!is_blank(t[0]));
    law_word_forms(empty, t, rest);
    assert(empty + t + rest =~= s);
    law_word_forms(b, t, rest);
    assert(b + t + rest =~= b + s);
    if !is_white(t[0]) {
        lemma_white_skipped(w, s);
    }
    let marked = seq!['!'] + (b + s);
    lemma_white_skipped(w, marked);
    assert(marked.skip(1) =~= b + s);
    if b.len() > 0 {
        assert((b + s)[0] == b[0]);
        assert(is_blank(b[0]));
    } else {
        assert(b + s =~= s);
    }
    lemma_white_skipped(w, empty);
    assert(w + empty =~= w);
    let bare = seq!['!'] + b;
    lemma_white_skipped(w, bare);
    assert(bare.skip(1) =~= b);
    if b.len() > 0 {
        assert(is_blank(b[0]));
    }
}

/// Whether `text` is an array with as many closing as opening brackets, of which no shorter
/// start has as many.
pub open spec fn is_balanced(text: Seq<char>) -> bool {
    &&& starts_with(text, '[')
    &&& occurrences(text, '[') == occurrences(text, ']')
    &&& forall|k: int|
        0 < k < text.len() ==> #[trigger] occurrences(text.take(k), '[') > occurrences(
            text.take(k),
            ']',
        )
}

/// The scanner takes a balanced array behind white space, and all of one that is not
/// closed. The parser rejects one that is not closed, behind the white space and the `!`.
pub proof fn law_scanned_array_forms(w: Seq<char>, text: Seq<char>, rest: Seq<char>)
    requires
        are_white(w),
    ensures
        is_balanced(text) ==> spec_scan_array(w + (text + rest)) == accept(rest, text),
        is_open(text) ==> {
            &&& spec_scan_array(w + text) == accept(Seq::<char>::empty(), text)
            &&& spec_parse_array(w + text) == reject::<Seq<Element>>(
                ErrorKind::UnterminatedArray,
                text,
            )
            &&& spec_parse_array(w + (seq!['!'] + text)) == reject::<Seq<Element>>(
                ErrorKind::UnterminatedArray,
                text,
            )
        },
{
    if is_balanced(text) {
        let s = text + rest;
        lemma_white_skipped(w, s);
        lemma_closing_end(s, 0);
        let m = text.len() as int;
        assert(s.take(m) =~= text);
        assert forall|k: int| 0 < k < m implies #[trigger] s.take(k) == text.take(k) by {
            assert(s.take(k) =~= text.take(k));
        }
        assert(occurrences(s.take(m), '[') == occurrences(s.take(m), ']'));
        match closing_end(s, 0) {
            Some(n) => {
                if n < m {
                    assert(occurrences(text.take(n as int), '[') > occurrences(text.take(n as int), ']'));
                }
                assert(n == m);
                assert(s.skip(m) =~= rest);
            },
            None => {},
        }
    }
    if is_open(text) {
        lemma_white_skipped(w, text);
        lemma_closing_end(text, 0);
        if let Some(n) = closing_end(text, 0) {
            assert(occurrences(text.take(n as int), '[') > occurrences(text.take(n as int), ']'));
        }
        lemma_read_extent(ArrayState::start(), text);
        let marked = seq!['!'] + text;
        lemma_white_skipped(w, marked);
        assert(marked.skip(1) =~= text);
    }
}

/// The elements of an array behind white space are those of the array, and behind a `!` it
/// is excluded as a whole.
pub proof fn law_array_behind_white_space(w: Seq<char>, s: Seq<char>)
    requires
        are_white(w),
        starts_with(s, '['),
    ensures
        spec_parse_array(w + s) == spec_parse_array(s),
        spec_parse_array(w + (seq!['!'] + s)) == (match spec_parse_array(s) {
            Ok((rest, list)) => accept(rest, seq![Element::Not(Box::new(Element::List(list)))]),
            Err(e) => Err(e),
        }),
{
    lemma_white_skipped(w, s);
    lemma_parse_bracket(s);
    let marked = seq!['!'] + s;
    lemma_white_skipped(w, marked);
    assert(marked.skip(1) =~= s);
}

} // verus!
