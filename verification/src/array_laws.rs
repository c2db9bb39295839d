//! What holds of every array: when one is accepted, how the scanner and the parser
//! agree, and that an array that is written out is read back.

use vstd::prelude::*;

use crate::array::{closing_end, push_innermost, spec_parse_array, spec_scan_array, ArrayState};
use crate::error::{accept, reject, ErrorKind};
use crate::text::{head_is, is_white, lemma_run_len_unique, trimmed_end, trimmed_start, white};
use crate::types::Element;

verus! {

/// How often `c` occurs in `s`.
pub open spec fn occurrences(s: Seq<char>, c: char) -> nat
    decreases s.len(),
{
    if s.len() == 0 {
        0
    } else {
        occurrences(s.drop_last(), c) + (if s.last() == c {
            1nat
        } else {
            0
        })
    }
}

/// Reading goes as far as the bracket that closes the outermost array, and fails
/// if there is none.
pub proof fn lemma_read_extent(st: ArrayState, s: Seq<char>)
    requires
        st.depth() >= 1 || head_is(s, '['),
    ensures
        match closing_end(s, st.depth()) {
            Some(n) => st.read(s) is Some && (st.read(s)->0).0 == s.skip(n as int) && 1 <= n <= s.len(),
            None => st.read(s) is None,
        },
    decreases s.len(),
{
    if s.len() > 0 && !(s[0] == ']' && st.depth() == 1) {
        let next = st.step(s[0]);
        lemma_read_extent(next, s.skip(1));
        if let Some(n) = closing_end(s.skip(1), next.depth()) {
            assert(s.skip(1).skip(n as int) =~= s.skip(n as int + 1));
        }
    }
}

/// An array is rejected only if it is not closed, and is then unterminated. Where the
/// parser accepts one, the scanner takes exactly the text that the parser consumed.
/// The scanner takes all of an array that is not closed.
pub proof fn law_parser_and_scanner_agree(input: Seq<char>)
    requires
        head_is(trimmed_start(input), '['),
    ensures
        match spec_parse_array(input) {
            Ok((rest, list)) => spec_scan_array(input) matches Ok((scan_rest, text)) && scan_rest
                == rest && text + rest == trimmed_start(input),
            Err(e) => {
                &&& spec_parse_array(input) == reject::<Seq<Element>>(
                    ErrorKind::UnterminatedArray,
                    trimmed_start(input),
                )
                &&& spec_scan_array(input) == accept(Seq::<char>::empty(), trimmed_start(input))
            },
        },
{
    let s = trimmed_start(input);
    lemma_read_extent(ArrayState::start(), s);
    match closing_end(s, 0) {
        Some(n) => {
            let text = s.take(n as int);
            assert(text + s.skip(n as int) =~= s);
        },
        None => {},
    }
}

/// Reading does not depend on what follows the bracket that closes the outermost array.
proof fn lemma_read_to_the_end(st: ArrayState, s: Seq<char>, n: nat)
    requires
        st.depth() >= 1 || head_is(s, '['),
        closing_end(s, st.depth()) == Some(n),
        n <= s.len(),
    ensures
        st.read(s) is Some,
        st.read(s.take(n as int)) == Some((Seq::<char>::empty(), (st.read(s)->0).1)),
    decreases s.len(),
{
    let text = s.take(n as int);
    if s[0] == ']' && st.depth() == 1 {
        assert(text.skip(1) =~= Seq::<char>::empty());
    } else {
        assert(text.skip(1) =~= s.skip(1).take(n - 1));
        lemma_read_to_the_end(st.step(s[0]), s.skip(1), (n - 1) as nat);
    }
}

/// The elements of an array depend only on the text that the scanner takes: that text
/// alone is read as the same elements, with nothing left.
pub proof fn law_elements_depend_on_the_scanned_text(input: Seq<char>)
    requires
        head_is(trimmed_start(input), '['),
    ensures
        spec_parse_array(input) matches Ok((_, list)) ==> (spec_scan_array(input) matches Ok((_, text))
            && spec_parse_array(text) == accept(Seq::<char>::empty(), list)),
{
    let s = trimmed_start(input);
    lemma_read_extent(ArrayState::start(), s);
    if let Some(n) = closing_end(s, 0) {
        let text = s.take(n as int);
        lemma_read_to_the_end(ArrayState::start(), s, n);
        assert(text[0] == '[');
        lemma_run_len_unique(text, white(), 0);
        assert(text.skip(0) =~= text);
    }
}

/// On a single word that is neither an array nor excluded, the parser and the scanner
/// agree: the parser returns the text that the scanner takes as the only element.
pub proof fn law_parser_and_scanner_agree_on_words(input: Seq<char>)
    requires
        !head_is(trimmed_start(input), '['),
        !head_is(trimmed_start(input), '!'),
    ensures
        spec_parse_array(input) == (match spec_scan_array(input) {
            Ok((rest, text)) => accept(rest, seq![Element::Text(text)]),
            Err(e) => Err(e),
        }),
{
}

/// What stands behind a `!` is read as it is without, and then excluded: an array as a
/// whole, and a single word.
pub proof fn law_exclamation_mark_excludes(input: Seq<char>)
    requires
        head_is(trimmed_start(input), '!'),
        !head_is(trimmed_start(input).skip(1), '!'),
        trimmed_start(input).len() > 1 ==> !is_white(trimmed_start(input)[1]),
    ensures
        spec_parse_array(input) == (match spec_parse_array(trimmed_start(input).skip(1)) {
            Ok((rest, list)) => accept(
                rest,
                if head_is(trimmed_start(input).skip(1), '[') {
                    seq![Element::Not(Box::new(Element::List(list)))]
                } else {
                    seq![Element::Not(Box::new(list[0]))]
                },
            ),
            Err(e) => Err(e),
        }),
{
    let body = trimmed_start(input).skip(1);
    if body.len() > 0 {
        assert(body[0] == trimmed_start(input)[1]);
    }
    lemma_run_len_unique(body, white(), 0);
    assert(body.skip(0) =~= body);
}

/// One more character in front.
proof fn lemma_occurrences_front(x: char, s: Seq<char>, c: char)
    ensures
        occurrences(seq![x] + s, c) == occurrences(s, c) + (if x == c {
            1nat
        } else {
            0
        }),
    decreases s.len(),
{
    let all = seq![x] + s;
    if s.len() == 0 {
        assert(all.drop_last() =~= Seq::<char>::empty());
        assert(occurrences(all.drop_last(), c) == 0);
    } else {
        assert(all.drop_last() =~= seq![x] + s.drop_last());
        lemma_occurrences_front(x, s.drop_last(), c);
    }
}

/// `closing_end` finds the first place at which as many arrays are closed as were
/// opened, counting `depth` that were open before.
pub proof fn lemma_closing_end(s: Seq<char>, depth: nat)
    requires
        depth >= 1 || head_is(s, '['),
    ensures
        match closing_end(s, depth) {
            Some(n) => {
                &&& 1 <= n <= s.len()
                &&& depth + occurrences(s.take(n as int), '[') == occurrences(s.take(n as int), ']')
                &&& forall|k: int|
                    0 < k < n ==> depth + #[trigger] occurrences(s.take(k), '[') > occurrences(
                        s.take(k),
                        ']',
                    )
            },
            None => forall|k: int|
                0 < k <= s.len() ==> depth + #[trigger] occurrences(s.take(k), '[') > occurrences(
                    s.take(k),
                    ']',
                ),
        },
    decreases s.len(),
{
    if s.len() > 0 {
        let t = s.skip(1);
        assert forall|k: int| 0 < k <= s.len() implies #[trigger] s.take(k) == seq![s[0]] + t.take(k - 1) by {
            assert(s.take(k) =~= seq![s[0]] + t.take(k - 1));
        }
        assert forall|k: int, c: char| 0 < k <= s.len() implies #[trigger] occurrences(s.take(k), c)
            == occurrences(t.take(k - 1), c) + (if s[0] == c {
            1nat
        } else {
            0
        }) by {
            lemma_occurrences_front(s[0], t.take(k - 1), c);
        }
        assert(t.take(0) =~= Seq::<char>::empty());
        assert(occurrences(t.take(0), '[') == 0 && occurrences(t.take(0), ']') == 0);
        if !(s[0] == ']' && depth <= 1) {
            let inner = if s[0] == '[' {
                depth + 1
            } else if s[0] == ']' {
                (depth - 1) as nat
            } else {
                depth
            };
            lemma_closing_end(t, inner);
            assert forall|k: int| 0 < k <= s.len() implies depth + occurrences(s.take(k), '[')
                - occurrences(s.take(k), ']') == inner + #[trigger] occurrences(t.take(k - 1), '[')
                - occurrences(t.take(k - 1), ']') by {}
            match closing_end(t, inner) {
                Some(m) => {
                    assert forall|k: int| 0 < k < m + 1 implies depth + #[trigger] occurrences(
                        s.take(k),
                        '[',
                    ) > occurrences(s.take(k), ']') by {
                        let j = k - 1;
                        assert(inner + occurrences(t.take(j), '[') > occurrences(t.take(j), ']'));
                    }
                    assert(t.take(m as int) == t.take((m + 1) as int - 1));
                },
                None => {
                    assert forall|k: int| 0 < k <= s.len() implies depth + #[trigger] occurrences(
                        s.take(k),
                        '[',
                    ) > occurrences(s.take(k), ']') by {
                        let j = k - 1;
                        assert(inner + occurrences(t.take(j), '[') > occurrences(t.take(j), ']'));
                    }
                },
            }
        }
    }
}

/// The text that the scanner takes of an array that is closed holds as many closing as
/// opening brackets, and no shorter start of it does.
pub proof fn law_scanner_takes_the_balanced_prefix(input: Seq<char>)
    requires
        head_is(trimmed_start(input), '['),
        spec_parse_array(input) is Ok,
    ensures
        spec_scan_array(input) matches Ok((_, text)) && {
            &&& occurrences(text, '[') == occurrences(text, ']')
            &&& forall|k: int|
                0 < k < text.len() ==> #[trigger] occurrences(text.take(k), '[') > occurrences(
                    text.take(k),
                    ']',
                )
        },
{
    let s = trimmed_start(input);
    lemma_read_extent(ArrayState::start(), s);
    lemma_closing_end(s, 0);
    if let Some(n) = closing_end(s, 0) {
        let text = s.take(n as int);
        assert forall|k: int| 0 < k < text.len() implies #[trigger] text.take(k) == s.take(k) by {
            assert(text.take(k) =~= s.take(k));
        }
    }
}

/// An array is accepted if and only if some part of the input from its first bracket on
/// holds as many closing as opening brackets.
pub proof fn law_array_is_accepted_when_it_closes(input: Seq<char>)
    requires
        head_is(trimmed_start(input), '['),
    ensures
        spec_parse_array(input) is Ok <==> exists|k: int|
            0 < k <= trimmed_start(input).len() && #[trigger] occurrences(
                trimmed_start(input).take(k),
                '[',
            ) == occurrences(trimmed_start(input).take(k), ']'),
{
    let s = trimmed_start(input);
    lemma_read_extent(ArrayState::start(), s);
    lemma_closing_end(s, 0);
}

/// The same holds of an array behind a `!`, from its first bracket on.
pub proof fn law_excluded_array_is_accepted_when_it_closes(input: Seq<char>)
    requires
        head_is(trimmed_start(input), '!'),
        head_is(trimmed_start(input).skip(1), '['),
    ensures
        spec_parse_array(input) is Ok <==> exists|k: int|
            0 < k <= trimmed_start(input).skip(1).len() && #[trigger] occurrences(
                trimmed_start(input).skip(1).take(k),
                '[',
            ) == occurrences(trimmed_start(input).skip(1).take(k), ']'),
{
    let body = trimmed_start(input).skip(1);
    assert(body[0] == trimmed_start(input)[1]);
    lemma_run_len_unique(body, white(), 0);
    assert(body.skip(0) =~= body);
    law_exclamation_mark_excludes(input);
    law_array_is_accepted_when_it_closes(body);
}

/// An element as it is written in a rule.
pub open spec fn render(e: Element) -> Seq<char>
    decreases e,
{
    match e {
        Element::Text(t) => t,
        Element::List(list) => seq!['['] + render_list(list) + seq![']'],
        Element::Not(inner) => seq!['!'] + render(*inner),
    }
}

/// The elements of an array as they are written in a rule, with commas between them.
pub open spec fn render_list(list: Seq<Element>) -> Seq<char>
    decreases list,
{
    if list.len() == 0 {
        seq![]
    } else if list.len() == 1 {
        render(list[0])
    } else {
        render(list[0]) + seq![','] + render_list(list.skip(1))
    }
}

/// Whether `c` is neither a bracket nor a comma.
pub open spec fn is_plain_char(c: char) -> bool {
    c != '[' && c != ']' && c != ','
}

/// A text that can be told from what surrounds it: not empty, without brackets and
/// commas, with no space, tab or `!` in front and no white space at its end.
pub open spec fn is_plain_text(t: Seq<char>) -> bool {
    &&& t.len() > 0
    &&& t[0] != ' ' && t[0] != '\t' && t[0] != '!'
    &&& trimmed_end(t) == t
    &&& forall|k: int| 0 <= k < t.len() ==> is_plain_char(#[trigger] t[k])
}

/// An element of plain texts that is negated at most once on each level.
pub open spec fn is_plain(e: Element) -> bool
    decreases e,
{
    match e {
        Element::Text(t) => is_plain_text(t),
        Element::List(list) => are_plain(list),
        Element::Not(inner) => !(*inner is Not) && is_plain(*inner),
    }
}

/// Elements that are all plain.
pub open spec fn are_plain(list: Seq<Element>) -> bool
    decreases list,
{
    list.len() > 0 ==> is_plain(list[0]) && are_plain(list.skip(1))
}

/// `st` with `list` at the end of its innermost array.
pub open spec fn extend(st: ArrayState, list: Seq<Element>) -> ArrayState {
    ArrayState { open: st.open.drop_last().push(st.open.last() + list), ..st }
}

/// Nothing pending: no text, and no `!` on this level or deeper.
pub open spec fn is_settled(st: ArrayState) -> bool {
    &&& st.depth() >= 1
    &&& st.token.len() == 0
    &&& st.marks.len() > 0 ==> st.marks.last() < st.depth()
}

/// Whether an element can end in front of `tail`.
pub open spec fn is_separated(tail: Seq<char>) -> bool {
    head_is(tail, ',') || head_is(tail, ']')
}

/// In front of a comma or a closing bracket the pending text is as good as ended.
pub proof fn lemma_end_token_first(st: ArrayState, tail: Seq<char>)
    requires
        st.depth() >= 1,
        is_separated(tail),
    ensures
        st.read(tail) == st.end_token().read(tail),
{
    assert(st.end_token().end_token() == st.end_token());
}

/// Plain characters are added to the pending text.
pub proof fn lemma_read_text(st: ArrayState, t: Seq<char>, tail: Seq<char>)
    requires
        st.depth() >= 1,
        forall|k: int| 0 <= k < t.len() ==> is_plain_char(#[trigger] t[k]),
        st.token.len() > 0 || (t.len() > 0 && t[0] != ' ' && t[0] != '\t' && t[0] != '!'),
    ensures
        st.read(t + tail) == (ArrayState { token: st.token + t, ..st }).read(tail),
    decreases t.len(),
{
    if t.len() == 0 {
        assert(t + tail =~= tail);
        assert(st.token + t =~= st.token);
    } else {
        let all = t + tail;
        assert(is_plain_char(t[0]));
        assert(all[0] == t[0]);
        assert(all.skip(1) =~= t.skip(1) + tail);
        let next = st.step(t[0]);
        assert(next == (ArrayState { token: st.token.push(t[0]), ..st }));
        assert(next.token + t.skip(1) =~= st.token + t);
        lemma_read_text(next, t.skip(1), tail);
    }
}

/// Reading one more character.
pub proof fn lemma_read_char(st: ArrayState, c: char, rest: Seq<char>)
    requires
        !(c == ']' && st.depth() == 1),
    ensures
        st.read(seq![c] + rest) == st.step(c).read(rest),
{
    assert((seq![c] + rest).skip(1) =~= rest);
    assert((seq![c] + rest)[0] == c);
}

/// A plain text is read as one element.
proof fn lemma_read_text_element(st: ArrayState, t: Seq<char>, tail: Seq<char>)
    requires
        is_plain_text(t),
        st.depth() >= 1,
        st.token.len() == 0,
        is_separated(tail),
    ensures
        st.read(t + tail) == (ArrayState { token: t, ..st }).end_token().read(tail),
{
    lemma_read_text(st, t, tail);
    assert(st.token + t =~= t);
    lemma_end_token_first(ArrayState { token: t, ..st }, tail);
}

/// A plain array is read as one element.
proof fn lemma_read_list(st: ArrayState, list: Seq<Element>, tail: Seq<char>)
    requires
        are_plain(list),
        st.depth() >= 1,
        st.token.len() == 0,
        st.marks.len() > 0 ==> st.marks.last() <= st.depth(),
    ensures
        st.read(render(Element::List(list)) + tail) == extend(
            ArrayState { open: st.open.push(seq![]), ..st },
            list,
        ).close().read(tail),
    decreases list, 1int,
{
    let text = render_list(list);
    let inside = ArrayState { open: st.open.push(seq![]), ..st };
    assert(render(Element::List(list)) + tail =~= seq!['['] + (text + (seq![']'] + tail)));
    lemma_read_char(st, '[', text + (seq![']'] + tail));
    lemma_read_elements(inside, list, seq![']'] + tail);
    let full = extend(inside, list);
    lemma_read_char(full, ']', tail);
    assert(full.end_token() == full);
}

/// A plain element is read as it was written.
proof fn lemma_read_element(st: ArrayState, e: Element, tail: Seq<char>)
    requires
        is_plain(e),
        is_settled(st),
        is_separated(tail),
    ensures
        st.read(render(e) + tail) == extend(st, seq![e]).read(tail),
    decreases e, 2int,
{
    assert(st.token =~= Seq::<char>::empty());
    let added = extend(st, seq![e]);
    assert(st.open.last() + seq![e] =~= st.open.last().push(e));
    assert(added.open =~= push_innermost(st.open, e));
    match e {
        Element::Text(t) => {
            lemma_read_text_element(st, t, tail);
            assert((ArrayState { token: t, ..st }).end_token() =~= added);
        },
        Element::List(list) => {
            lemma_read_list(st, list, tail);
            let inside = ArrayState { open: st.open.push(seq![]), ..st };
            let full = extend(inside, list);
            assert(full.open.drop_last() =~= st.open);
            assert(full.open.last() =~= list);
            assert(full.close() =~= added);
        },
        Element::Not(inner) => {
            let marked = ArrayState { marks: st.marks.push(st.depth()), ..st };
            assert(marked.marks.drop_last() =~= st.marks);
            let text = render(*inner);
            assert(render(e) + tail =~= seq!['!'] + (text + tail));
            lemma_read_char(st, '!', text + tail);
            reveal_with_fuel(is_plain, 2);
            match *inner {
                Element::Text(t) => {
                    lemma_read_text_element(marked, t, tail);
                    assert((ArrayState { token: t, ..marked }).end_token() =~= added);
                },
                Element::List(list) => {
                    lemma_read_list(marked, list, tail);
                    let inside = ArrayState { open: marked.open.push(seq![]), ..marked };
                    let full = extend(inside, list);
                    assert(full.open.drop_last() =~= st.open);
                    assert(full.open.last() =~= list);
                    assert(full.close() =~= added);
                },
                Element::Not(_) => {},
            }
        },
    }
}

/// Plain elements are read as they were written.
proof fn lemma_read_elements(st: ArrayState, list: Seq<Element>, tail: Seq<char>)
    requires
        are_plain(list),
        is_settled(st),
        head_is(tail, ']'),
    ensures
        st.read(render_list(list) + tail) == extend(st, list).read(tail),
    decreases list, 0int,
{
    if list.len() == 0 {
        assert(render_list(list) + tail =~= tail);
        assert(extend(st, list).open =~= st.open) by {
            assert(st.open.last() + list =~= st.open.last());
        }
    } else if list.len() == 1 {
        lemma_read_element(st, list[0], tail);
        assert(list =~= seq![list[0]]);
    } else {
        let first = list[0];
        let others = list.skip(1);
        let more = render_list(others) + tail;
        assert(render_list(list) + tail =~= render(first) + (seq![','] + more));
        lemma_read_element(st, first, seq![','] + more);
        let next = extend(st, seq![first]);
        lemma_read_char(next, ',', more);
        assert(next.step(',') == next);
        lemma_read_elements(next, others, tail);
        assert(extend(next, others) =~= extend(st, list)) by {
            assert(next.open.last() + others =~= st.open.last() + list);
            assert(next.open.drop_last() =~= st.open.drop_last());
        }
    }
}

/// An array of plain elements that is written out, with anything behind it, is read
/// back; behind a `!` it is read back as the one element that excludes it.
pub proof fn law_array_reads_back(list: Seq<Element>, rest: Seq<char>)
    requires
        are_plain(list),
    ensures
        spec_parse_array(render(Element::List(list)) + rest) == accept(rest, list),
        spec_parse_array(render(Element::Not(Box::new(Element::List(list)))) + rest) == accept(
            rest,
            seq![Element::Not(Box::new(Element::List(list)))],
        ),
{
    let text = render_list(list);
    let body = render(Element::List(list)) + rest;
    assert(body =~= seq!['['] + (text + (seq![']'] + rest)));
    let start = ArrayState::start();
    lemma_read_char(start, '[', text + (seq![']'] + rest));
    let inside = start.step('[');
    lemma_read_elements(inside, list, seq![']'] + rest);
    let full = extend(inside, list);
    assert(full.open[0] =~= list);
    assert((seq![']'] + rest).skip(1) =~= rest);
    assert(start.read(body) == Some((rest, list)));
    lemma_run_len_unique(body, white(), 0);
    assert(body.skip(0) =~= body);
    let negated = render(Element::Not(Box::new(Element::List(list)))) + rest;
    assert(negated =~= seq!['!'] + body);
    lemma_run_len_unique(negated, white(), 0);
    assert(negated.skip(0) =~= negated);
    assert(negated.skip(1) =~= body);
}

} // verus!
