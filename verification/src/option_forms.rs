//! What the parsers of options make of every input. An input is written as the pieces it is
//! made of, and each law says what is returned for them.

use vstd::prelude::*;

use crate::error::{accept, reject, ErrorKind, NomErrorKind};
use crate::flowbits::{flowbit_command, spec_parse_flowbits};
use crate::forms::{
    are_blank, is_blank, is_token, is_token_end, law_number_forms, law_token_forms,
    lemma_blanks_skipped, lemma_nothing_skipped, starts_blank, starts_with,
};
use crate::isdataat::{first_invalid, is_isdataat_flag, spec_parse_isdataat};
use crate::laws::lemma_run_len_prefix;
use crate::leaf::{alphanumeric, is_alphanumeric};
use crate::list::{
    after_list, first_unexpected, is_flow_keyword, list_items, list_text, list_values,
    spec_metadata, spec_parse_flow,
};
use crate::number::spec_parse_number;
use crate::option_laws::{
    after_negation, command_name, lemma_command_name, lemma_first_invalid, lemma_pcre_pattern,
    lemma_until,
};
use crate::pcre::{spec_parse_pcre, spec_pcre_tail};
use crate::reading_back::{
    join, law_join_undoes_split, law_list_values_are_trimmed_pieces, law_split_undoes_join,
    lemma_join_holds, lemma_trimmed_skip_space,
};
use crate::reference::spec_parse_reference;
use crate::text::{
    last_index, lemma_last_index, lemma_run_len, lemma_run_len_unique, other_than, run_len,
    skip_space, split, split_trimmed, trimmed, until,
};
use crate::types::{
    Flow, FlowbitCommand, FlowbitsView, IsDataAtPositionView, IsDataAtView, PcreView, ReferenceView,
};
use crate::words::spec_parse_token;

verus! {

/// Whether none of `pieces` holds `c`.
pub open spec fn none_holds(pieces: Seq<Seq<char>>, c: char) -> bool {
    forall|k: int| 0 <= k < pieces.len() ==> !#[trigger] pieces[k].contains(c)
}

/// Whether `values` are `pieces`, each without white space at its ends.
pub open spec fn are_trimmed(values: Seq<Seq<char>>, pieces: Seq<Seq<char>>) -> bool {
    &&& values.len() == pieces.len()
    &&& forall|k: int| 0 <= k < values.len() ==> #[trigger] values[k] == trimmed(pieces[k])
}

proof fn lemma_split_values(pieces: Seq<Seq<char>>, values: Seq<Seq<char>>, c: char)
    requires
        pieces.len() > 0,
        none_holds(pieces, c),
        are_trimmed(values, pieces),
    ensures
        split_trimmed(join(pieces, c), c) == values,
{
    law_split_undoes_join(pieces, c);
    assert(split_trimmed(join(pieces, c), c) =~= values);
}

proof fn lemma_list(pieces: Seq<Seq<char>>, rest: Seq<char>)
    requires
        pieces.len() > 0,
        none_holds(pieces, ','),
        none_holds(pieces, ';'),
        rest.len() > 0 ==> rest[0] == ';',
    ensures
        after_list(join(pieces, ',') + rest) == rest,
        list_items(join(pieces, ',') + rest).len() == pieces.len(),
        forall|k: int|
            0 <= k < pieces.len() ==> #[trigger] list_items(join(pieces, ',') + rest)[k] == skip_space(
                pieces[k],
            ),
        list_values(join(pieces, ',') + rest).len() == pieces.len(),
        forall|k: int|
            0 <= k < pieces.len() ==> #[trigger] list_values(join(pieces, ',') + rest)[k] == trimmed(
                pieces[k],
            ),
{
    let text = join(pieces, ',');
    let all = text + rest;
    lemma_join_holds(pieces, ',', ';');
    assert forall|k: int| 0 <= k < text.len() implies other_than(';')(#[trigger] all[k]) by {
        assert(all[k] == text[k]);
        assert(text.contains(text[k]));
    }
    lemma_run_len_unique(all, other_than(';'), text.len());
    assert(list_text(all) =~= text);
    assert(after_list(all) =~= rest);
    law_split_undoes_join(pieces, ',');
    law_list_values_are_trimmed_pieces(all);
}

/// Every text is made of pieces without a separator, with the separator between them.
pub proof fn law_every_text_has_pieces(s: Seq<char>, c: char)
    ensures
        split(s, c).len() > 0,
        none_holds(split(s, c), c),
        join(split(s, c), c) == s,
    decreases s.len(),
{
    law_join_undoes_split(s, c);
    lemma_run_len(s, other_than(c));
    let n = until(s, c) as int;
    let first = s.take(n);
    assert(!first.contains(c)) by {
        if first.contains(c) {
            let k = choose|k: int| 0 <= k < first.len() && first[k] == c;
            assert(other_than(c)(s[k]));
        }
    }
    let pieces = split(s, c);
    if n < s.len() {
        let others = split(s.skip(n + 1), c);
        law_every_text_has_pieces(s.skip(n + 1), c);
        assert forall|k: int| 0 <= k < pieces.len() implies !#[trigger] pieces[k].contains(c) by {
            if k > 0 {
                assert(pieces[k] == others[k - 1]);
            }
        }
    } else {
        assert(first =~= s);
    }
}

/// The metadata in front of the end of the input or of a semicolon is split at its commas,
/// and each piece is trimmed.
pub proof fn law_metadata_forms(pieces: Seq<Seq<char>>, values: Seq<Seq<char>>, rest: Seq<char>)
    requires
        pieces.len() > 0,
        none_holds(pieces, ','),
        none_holds(pieces, ';'),
        are_trimmed(values, pieces),
        rest.len() > 0 ==> rest[0] == ';',
    ensures
        spec_metadata(join(pieces, ',') + rest) == accept(rest, values),
{
    lemma_list(pieces, rest);
    assert(list_values(join(pieces, ',') + rest) =~= values);
}

/// Whether `t` names one of the flags of a flow option.
pub open spec fn names_flow_flag(t: Seq<char>) -> bool {
    ||| t == "not_established"@
    ||| t == "established"@
    ||| t == "from_client"@
    ||| t == "from_server"@
    ||| t == "no_frag"@
    ||| t == "no_stream"@
    ||| t == "only_frag"@
    ||| t == "only_stream"@
    ||| t == "stateless"@
    ||| t == "to_client"@
    ||| t == "to_server"@
}

/// A flow option whose trimmed pieces all name a flag sets each flag if and only if it is
/// named, whatever else is named, in whatever order and however often.
pub proof fn law_flow_flags(pieces: Seq<Seq<char>>, values: Seq<Seq<char>>, rest: Seq<char>)
    requires
        pieces.len() > 0,
        none_holds(pieces, ','),
        none_holds(pieces, ';'),
        are_trimmed(values, pieces),
        forall|k: int| 0 <= k < values.len() ==> names_flow_flag(#[trigger] values[k]),
        rest.len() > 0 ==> rest[0] == ';',
    ensures
        spec_parse_flow(join(pieces, ',') + rest) matches Ok((left, flow)) && {
            &&& left == rest
            &&& flow.not_established == values.contains("not_established"@)
            &&& flow.established == values.contains("established"@)
            &&& flow.from_client == values.contains("from_client"@)
            &&& flow.from_server == values.contains("from_server"@)
            &&& flow.no_frag == values.contains("no_frag"@)
            &&& flow.no_stream == values.contains("no_stream"@)
            &&& flow.only_frag == values.contains("only_frag"@)
            &&& flow.only_stream == values.contains("only_stream"@)
            &&& flow.stateless == values.contains("stateless"@)
            &&& flow.to_client == values.contains("to_client"@)
            &&& flow.to_server == values.contains("to_server"@)
        },
{
    let all = join(pieces, ',') + rest;
    lemma_list(pieces, rest);
    assert(list_values(all) =~= values);
    let items = list_items(all);
    assert forall|k: int| 0 <= k < items.len() implies is_flow_keyword(trimmed(#[trigger] items[k])) by {
        lemma_trimmed_skip_space(pieces[k]);
        assert(names_flow_flag(values[k]));
    }
    lemma_first_unexpected_from(items, items.len());
    assert(items.skip(items.len() as int) =~= Seq::<Seq<char>>::empty());
}

/// Where the first `n` items are keywords, the search goes on behind them.
proof fn lemma_first_unexpected_from(items: Seq<Seq<char>>, n: nat)
    requires
        n <= items.len(),
        forall|k: int| 0 <= k < n ==> is_flow_keyword(trimmed(#[trigger] items[k])),
    ensures
        first_unexpected(items) == first_unexpected(items.skip(n as int)),
    decreases n,
{
    if n == 0 {
        assert(items.skip(0) =~= items);
    } else {
        assert(is_flow_keyword(trimmed(items[0])));
        let others = items.skip(1);
        assert forall|k: int| 0 <= k < n - 1 implies is_flow_keyword(trimmed(#[trigger] others[k])) by {
            assert(others[k] == items[k + 1]);
        }
        lemma_first_unexpected_from(others, (n - 1) as nat);
        assert(others.skip(n - 1) =~= items.skip(n as int));
    }
}

/// A flow option is rejected at its first piece that names no flag, without the blanks in
/// front of it.
pub proof fn law_flow_rejects_the_first_other_name(
    pieces: Seq<Seq<char>>,
    n: nat,
    b: Seq<char>,
    core: Seq<char>,
    rest: Seq<char>,
)
    requires
        n < pieces.len(),
        none_holds(pieces, ','),
        none_holds(pieces, ';'),
        forall|k: int| 0 <= k < n ==> names_flow_flag(trimmed(#[trigger] pieces[k])),
        pieces[n as int] == b + core,
        are_blank(b),
        !starts_blank(core),
        !names_flow_flag(trimmed(core)),
        rest.len() > 0 ==> rest[0] == ';',
    ensures
        spec_parse_flow(join(pieces, ',') + rest) == reject::<Flow>(
            ErrorKind::Other("unexpected flow option"),
            core,
        ),
{
    let all = join(pieces, ',') + rest;
    lemma_list(pieces, rest);
    let items = list_items(all);
    assert forall|k: int| 0 <= k < n implies is_flow_keyword(trimmed(#[trigger] items[k])) by {
        lemma_trimmed_skip_space(pieces[k]);
        assert(names_flow_flag(trimmed(pieces[k])));
    }
    lemma_first_unexpected_from(items, n);
    lemma_blanks_skipped(b, core);
    assert(items.skip(n as int)[0] == items[n as int]);
}

/// `s`, behind a `!` if `negate`.
pub open spec fn with_mark(negate: bool, s: Seq<char>) -> Seq<char> {
    if negate {
        seq!['!'] + s
    } else {
        s
    }
}

/// Whether `s` is not empty and made of ASCII letters and digits.
pub open spec fn are_alphanumeric(s: Seq<char>) -> bool {
    s.len() > 0 && forall|k: int| 0 <= k < s.len() ==> is_alphanumeric(#[trigger] s[k])
}

/// Whether `s` starts with an ASCII letter or digit.
pub open spec fn starts_alphanumeric(s: Seq<char>) -> bool {
    s.len() > 0 && is_alphanumeric(s[0])
}

/// A regular expression, and what follows the slash that ends it.
pub open spec fn pcre_text(negate: bool, w: Seq<char>, pattern: Seq<char>, tail: Seq<char>) -> Seq<char> {
    with_mark(negate, w + (seq!['"', '/'] + pattern + seq!['/'] + tail))
}

proof fn lemma_pcre_start(negate: bool, w: Seq<char>, x: Seq<char>)
    requires
        are_blank(w),
        !starts_blank(x),
        negate || w.len() > 0 || !starts_with(x, '!'),
    ensures
        ({
            let input = with_mark(negate, w + x);
            let start = if starts_with(input, '!') {
                input.skip(1)
            } else {
                input
            };
            starts_with(input, '!') == negate && skip_space(start) == x
        }),
{
    let input = with_mark(negate, w + x);
    if negate {
        assert(input.skip(1) =~= w + x);
    } else if w.len() > 0 {
        assert(input[0] == w[0]);
        assert(is_blank(w[0]));
    } else {
        assert(input =~= x);
    }
    lemma_blanks_skipped(w, x);
}

proof fn lemma_pcre(negate: bool, w: Seq<char>, pattern: Seq<char>, tail: Seq<char>)
    requires
        are_blank(w),
        !tail.contains('/'),
    ensures
        spec_parse_pcre(pcre_text(negate, w, pattern, tail)) == spec_pcre_tail(negate, pattern, tail),
{
    let x = seq!['"', '/'] + pattern + seq!['/'] + tail;
    let body = pattern + (seq!['/'] + tail);
    lemma_pcre_start(negate, w, x);
    assert(x.skip(1)[0] == '/');
    assert(x.skip(1).skip(1) =~= body);
    lemma_pcre_pattern(pattern, tail);
    assert(body.take(pattern.len() as int) =~= pattern);
    assert(body.skip(pattern.len() as int + 1) =~= tail);
}

proof fn lemma_without(a: Seq<char>, b: Seq<char>, c: char)
    requires
        !a.contains(c),
        !b.contains(c),
    ensures
        !(a + b).contains(c),
{
    let all = a + b;
    if all.contains(c) {
        let k = choose|k: int| 0 <= k < all.len() && all[k] == c;
        if k < a.len() {
            assert(a[k] == c);
        } else {
            assert(b[k - a.len()] == c);
        }
    }
}

proof fn lemma_marks_are_elsewhere(s: Seq<char>, c: char)
    requires
        are_blank(s) || are_alphanumeric(s),
        !is_blank(c),
        !is_alphanumeric(c),
    ensures
        !s.contains(c),
{
    if s.contains(c) {
        let k = choose|k: int| 0 <= k < s.len() && s[k] == c;
        assert(is_blank(s[k]) || is_alphanumeric(s[k]));
    }
}

proof fn lemma_modifiers(m: Seq<char>, x: Seq<char>)
    requires
        are_alphanumeric(m),
        !starts_alphanumeric(x),
    ensures
        run_len(m + x, alphanumeric()) == m.len(),
        (m + x).skip(m.len() as int) == x,
        (m + x).take(m.len() as int) == m,
        skip_space(m + x) == m + x,
{
    assert forall|k: int| 0 <= k < m.len() implies alphanumeric()(#[trigger] m[k]) by {
        assert(is_alphanumeric(m[k]));
    }
    lemma_run_len_prefix(m, x, alphanumeric());
    lemma_run_len_unique(x, alphanumeric(), 0);
    assert((m + x).skip(m.len() as int) =~= x);
    assert((m + x).take(m.len() as int) =~= m);
    assert(is_alphanumeric(m[0]));
    assert((m + x)[0] == m[0]);
    lemma_nothing_skipped(m + x);
}

/// A regular expression with nothing but blanks between its last slash and the quote has
/// neither modifiers nor captures. With letters and digits in front of those blanks, they
/// are its modifiers.
pub proof fn law_pcre_forms(
    negate: bool,
    w: Seq<char>,
    pattern: Seq<char>,
    modifiers: Seq<char>,
    b: Seq<char>,
    rest: Seq<char>,
)
    requires
        are_blank(w),
        are_alphanumeric(modifiers),
        are_blank(b),
        !rest.contains('/'),
    ensures
        spec_parse_pcre(pcre_text(negate, w, pattern, b + (seq!['"'] + rest))) == accept(
            rest,
            PcreView { negate, pattern, modifiers: seq![], vars: seq![] },
        ),
        spec_parse_pcre(pcre_text(negate, w, pattern, modifiers + (b + (seq!['"'] + rest)))) == accept(
            rest,
            PcreView { negate, pattern, modifiers, vars: seq![] },
        ),
{
    let close = seq!['"'] + rest;
    assert(!seq!['"'].contains('/'));
    lemma_without(seq!['"'], rest, '/');
    lemma_marks_are_elsewhere(b, '/');
    lemma_without(b, close, '/');
    lemma_marks_are_elsewhere(modifiers, '/');
    lemma_without(modifiers, b + close, '/');
    lemma_pcre(negate, w, pattern, b + close);
    lemma_pcre(negate, w, pattern, modifiers + (b + close));
    lemma_blanks_skipped(b, close);
    assert(close.skip(1) =~= rest);
    if b.len() > 0 {
        assert((b + close)[0] == b[0]);
        assert(is_blank(b[0]));
    }
    lemma_modifiers(modifiers, b + close);
    assert((modifiers + (b + close))[0] == modifiers[0]);
    assert(is_alphanumeric(modifiers[0]));
}

/// Behind the modifiers and a comma, all up to the next quote is split at its commas into
/// the captures, and each is trimmed.
pub proof fn law_pcre_capture_forms(
    negate: bool,
    w: Seq<char>,
    pattern: Seq<char>,
    modifiers: Seq<char>,
    b: Seq<char>,
    pieces: Seq<Seq<char>>,
    vars: Seq<Seq<char>>,
    rest: Seq<char>,
)
    requires
        are_blank(w),
        are_alphanumeric(modifiers),
        are_blank(b),
        pieces.len() > 0,
        none_holds(pieces, ','),
        none_holds(pieces, '"'),
        none_holds(pieces, '/'),
        are_trimmed(vars, pieces),
        !rest.contains('/'),
    ensures
        spec_parse_pcre(
            pcre_text(
                negate,
                w,
                pattern,
                modifiers + (b + (seq![','] + (join(pieces, ',') + (seq!['"'] + rest)))),
            ),
        ) == accept(rest, PcreView { negate, pattern, modifiers, vars }),
{
    let close = seq!['"'] + rest;
    let names = join(pieces, ',');
    let list = seq![','] + (names + close);
    lemma_join_holds(pieces, ',', '/');
    lemma_join_holds(pieces, ',', '"');
    assert(!seq!['"'].contains('/') && !seq![','].contains('/'));
    lemma_without(seq!['"'], rest, '/');
    lemma_without(names, close, '/');
    lemma_without(seq![','], names + close, '/');
    lemma_marks_are_elsewhere(b, '/');
    lemma_without(b, list, '/');
    lemma_marks_are_elsewhere(modifiers, '/');
    lemma_without(modifiers, b + list, '/');
    lemma_pcre(negate, w, pattern, modifiers + (b + list));
    if b.len() > 0 {
        assert((b + list)[0] == b[0]);
        assert(is_blank(b[0]));
    }
    lemma_modifiers(modifiers, b + list);
    assert((modifiers + (b + list))[0] == modifiers[0]);
    assert(is_alphanumeric(modifiers[0]));
    lemma_blanks_skipped(b, list);
    assert(list.skip(1) =~= names + close);
    lemma_until(names, '"', rest);
    assert((names + close).skip(names.len() as int) =~= close);
    assert((names + close).take(names.len() as int) =~= names);
    lemma_split_values(pieces, vars, ',');
    lemma_nothing_skipped(close);
    assert(close.skip(1) =~= rest);
}

/// Where a regular expression goes wrong behind its last slash: at what stands there if it
/// is neither the quote nor a modifier, and behind the modifiers, without blanks, if it is
/// neither the quote nor a comma with a quote somewhere behind it.
pub proof fn law_pcre_rejections_behind_the_pattern(
    negate: bool,
    w: Seq<char>,
    pattern: Seq<char>,
    modifiers: Seq<char>,
    b: Seq<char>,
    x: Seq<char>,
)
    requires
        are_blank(w),
        are_alphanumeric(modifiers),
        are_blank(b),
        !starts_blank(x),
        !starts_with(x, '"'),
        b.len() > 0 || !starts_alphanumeric(x),
        !x.contains('/'),
    ensures
        spec_parse_pcre(pcre_text(negate, w, pattern, b + x)) == reject::<PcreView>(
            ErrorKind::Nom(NomErrorKind::AlphaNumeric),
            b + x,
        ),
        !(starts_with(x, ',') && x.skip(1).contains('"')) ==> spec_parse_pcre(
            pcre_text(negate, w, pattern, modifiers + (b + x)),
        ) == reject::<PcreView>(ErrorKind::Nom(NomErrorKind::Tag), x),
{
    lemma_marks_are_elsewhere(b, '/');
    lemma_without(b, x, '/');
    lemma_marks_are_elsewhere(modifiers, '/');
    lemma_without(modifiers, b + x, '/');
    lemma_pcre(negate, w, pattern, b + x);
    lemma_pcre(negate, w, pattern, modifiers + (b + x));
    lemma_blanks_skipped(b, x);
    if b.len() > 0 {
        assert((b + x)[0] == b[0]);
        assert(is_blank(b[0]));
    } else {
        assert(b + x =~= x);
    }
    lemma_run_len_unique(b + x, alphanumeric(), 0);
    lemma_modifiers(modifiers, b + x);
    assert((modifiers + (b + x))[0] == modifiers[0]);
    assert(is_alphanumeric(modifiers[0]));
    if starts_with(x, ',') {
        lemma_run_len(x.skip(1), other_than('"'));
        let n = until(x.skip(1), '"') as int;
        if n < x.skip(1).len() {
            assert(x.skip(1)[n] == '"');
        }
    }
}

/// Where a regular expression goes wrong up to its last slash: behind the blanks if there
/// is no quote, behind the quote if there is no slash, and behind that slash if there is
/// no other.
pub proof fn law_pcre_rejections_up_to_the_pattern(negate: bool, w: Seq<char>, x: Seq<char>)
    requires
        are_blank(w),
    ensures
        !starts_blank(x) && !starts_with(x, '"') && (negate || w.len() > 0 || !starts_with(x, '!'))
            ==> spec_parse_pcre(with_mark(negate, w + x)) == reject::<PcreView>(
            ErrorKind::Nom(NomErrorKind::Tag),
            x,
        ),
        !starts_with(x, '/') ==> spec_parse_pcre(with_mark(negate, w + (seq!['"'] + x)))
            == reject::<PcreView>(ErrorKind::Nom(NomErrorKind::Tag), x),
        !x.contains('/') ==> spec_parse_pcre(with_mark(negate, w + (seq!['"', '/'] + x)))
            == reject::<PcreView>(ErrorKind::Other("pcre: no terminating /"), x),
{
    if !starts_blank(x) && !starts_with(x, '"') && (negate || w.len() > 0 || !starts_with(x, '!')) {
        lemma_pcre_start(negate, w, x);
    }
    let quoted = seq!['"'] + x;
    lemma_pcre_start(negate, w, quoted);
    assert(quoted.skip(1) =~= x);
    let slashed = seq!['"', '/'] + x;
    lemma_pcre_start(negate, w, slashed);
    assert(slashed.skip(1)[0] == '/');
    assert(slashed.skip(1).skip(1) =~= x);
    lemma_last_index(x, '/');
    if let Some(i) = last_index(x, '/') {
        assert(x[i as int] == '/');
    }
}

/// Whether `t` is one of the flags of an isdataat option, or empty.
pub open spec fn names_isdataat_flag(t: Seq<char>) -> bool {
    t == "relative"@ || t == "rawbytes"@ || t.len() == 0
}

proof fn lemma_isdataat_start(negate: bool, w: Seq<char>, b: Seq<char>, s: Seq<char>)
    requires
        are_blank(w),
        are_blank(b),
        negate || (b.len() == 0 && !starts_blank(s) && !starts_with(s, '!')),
    ensures
        ({
            let start = skip_space(w + with_mark(negate, b + s));
            &&& starts_with(start, '!') == negate
            &&& (if negate {
                start.skip(1)
            } else {
                start
            }) == b + s
        }),
{
    let marked = with_mark(negate, b + s);
    if negate {
        assert(marked.skip(1) =~= b + s);
    } else {
        assert(b + s =~= s);
    }
    lemma_blanks_skipped(w, marked);
}

/// An isdataat option: whether there is a `!` behind the blanks, the token that is its
/// position, and what stands between the commas behind it. The position is the number that
/// the token is, and otherwise the token itself as a name. A flag is set if and only if it
/// is among the trimmed pieces.
pub proof fn law_isdataat_forms(
    negate: bool,
    w: Seq<char>,
    b: Seq<char>,
    t: Seq<char>,
    pieces: Seq<Seq<char>>,
    values: Seq<Seq<char>>,
)
    requires
        are_blank(w),
        are_blank(b),
        is_token(t),
        negate || (b.len() == 0 && t[0] != '!'),
        pieces.len() > 0,
        none_holds(pieces, ','),
        are_trimmed(values, pieces),
        forall|k: int| 0 <= k < values.len() ==> names_isdataat_flag(#[trigger] values[k]),
        join(pieces, ',').len() > 0 ==> is_token_end(join(pieces, ',')[0]),
    ensures
        spec_parse_isdataat(w + with_mark(negate, b + (t + join(pieces, ',')))) matches Ok((left, v)) && {
            &&& left.len() == 0
            &&& v.negate == negate
            &&& v.position == (match spec_parse_number(t, 0, u64::MAX as int) {
                Ok((_, n)) => IsDataAtPositionView::Position(n),
                Err(_) => IsDataAtPositionView::Identifier(t),
            })
            &&& v.relative == values.contains("relative"@)
            &&& v.rawbytes == values.contains("rawbytes"@)
        },
{
    let rest = join(pieces, ',');
    let s = t + rest;
    assert(s[0] == t[0]);
    assert(!is_token_end(t[0]));
    lemma_isdataat_start(negate, w, b, s);
    law_token_forms(b, t, rest);
    assert(b + t + rest =~= b + s);
    lemma_split_values(pieces, values, ',');
    lemma_first_invalid(values);
    assert forall|k: int| 0 <= k < values.len() implies is_isdataat_flag(#[trigger] values[k]) by {
        assert(names_isdataat_flag(values[k]));
    }
    lemma_token_alone(t);
    let empty = Seq::<char>::empty();
    law_number_forms(empty, t, empty, 0, u64::MAX as int);
    assert(empty + t + empty =~= t);
    if t.len() > 1 {
        assert(t.skip(1)[0] == t[1]);
    }
}

proof fn lemma_token_alone(t: Seq<char>)
    requires
        is_token(t),
    ensures
        spec_parse_token(t) == accept(Seq::<char>::empty(), t),
{
    let empty = Seq::<char>::empty();
    law_token_forms(empty, t, empty);
    assert(empty + t + empty =~= t);
}

/// Whatever isdataat option is accepted: its position is the number that is read behind
/// the optional `!`, and where none is read, the token there as a name.
pub proof fn law_isdataat_position(input: Seq<char>)
    ensures
        spec_parse_isdataat(input) matches Ok((_, v)) ==> (spec_parse_token(
            after_negation(input),
        ) matches Ok((_, t)) && v.position == (match spec_parse_number(
            after_negation(input),
            0,
            u64::MAX as int,
        ) {
            Ok((_, n)) => IsDataAtPositionView::Position(n),
            Err(_) => IsDataAtPositionView::Identifier(t),
        })),
{
}

proof fn lemma_first_invalid_from(options: Seq<Seq<char>>, n: nat)
    requires
        n <= options.len(),
        forall|k: int| 0 <= k < n ==> is_isdataat_flag(#[trigger] options[k]),
    ensures
        first_invalid(options) == first_invalid(options.skip(n as int)),
    decreases n,
{
    if n == 0 {
        assert(options.skip(0) =~= options);
    } else {
        assert(is_isdataat_flag(options[0]));
        let others = options.skip(1);
        assert forall|k: int| 0 <= k < n - 1 implies is_isdataat_flag(#[trigger] others[k]) by {
            assert(others[k] == options[k + 1]);
        }
        lemma_first_invalid_from(others, (n - 1) as nat);
        assert(others.skip(n - 1) =~= options.skip(n as int));
    }
}

/// An isdataat option is rejected where no token is its position, and otherwise at its
/// first trimmed piece that is no flag.
pub proof fn law_isdataat_rejections(
    negate: bool,
    w: Seq<char>,
    b: Seq<char>,
    t: Seq<char>,
    x: Seq<char>,
    pieces: Seq<Seq<char>>,
    n: nat,
)
    requires
        are_blank(w),
        are_blank(b),
        is_token(t),
        negate || (b.len() == 0 && t[0] != '!'),
        !starts_blank(x),
        x.len() > 0 ==> is_token_end(x[0]),
        n < pieces.len(),
        none_holds(pieces, ','),
        forall|k: int| 0 <= k < n ==> names_isdataat_flag(trimmed(#[trigger] pieces[k])),
        !names_isdataat_flag(trimmed(pieces[n as int])),
        join(pieces, ',').len() > 0 ==> is_token_end(join(pieces, ',')[0]),
    ensures
        spec_parse_isdataat(w + with_mark(negate, b + x)) == reject::<IsDataAtView>(
            ErrorKind::Nom(NomErrorKind::IsNot),
            x,
        ),
        spec_parse_isdataat(w + with_mark(negate, b + (t + join(pieces, ',')))) == reject::<
            IsDataAtView,
        >(ErrorKind::Other("invalid option"), trimmed(pieces[n as int])),
{
    lemma_isdataat_start(negate, w, b, x);
    law_token_forms(b, t, x);
    let rest = join(pieces, ',');
    let s = t + rest;
    assert(s[0] == t[0]);
    assert(!is_token_end(t[0]));
    lemma_isdataat_start(negate, w, b, s);
    law_token_forms(b, t, rest);
    assert(b + t + rest =~= b + s);
    let values = Seq::new(pieces.len(), |k: int| trimmed(pieces[k]));
    lemma_split_values(pieces, values, ',');
    assert forall|k: int| 0 <= k < n implies is_isdataat_flag(#[trigger] values[k]) by {
        assert(names_isdataat_flag(trimmed(pieces[k])));
    }
    lemma_first_invalid_from(values, n);
    assert(values.skip(n as int)[0] == values[n as int]);
}

/// Whether `t` names one of the commands of a flowbits option.
pub open spec fn names_flowbits_command(t: Seq<char>) -> bool {
    exists|command: FlowbitCommand| t == #[trigger] command_name(command)
}

proof fn lemma_flowbits(w: Seq<char>, c: Seq<char>, x: Seq<char>)
    requires
        are_blank(w),
        are_alphanumeric(c),
        !starts_alphanumeric(x),
    ensures
        skip_space(w + (c + x)) == c + x,
        run_len(c + x, alphanumeric()) == c.len(),
        (c + x).skip(c.len() as int) == x,
        (c + x).take(c.len() as int) == c,
{
    lemma_modifiers(c, x);
    assert((c + x)[0] == c[0]);
    assert(is_alphanumeric(c[0]));
    lemma_blanks_skipped(w, c + x);
}

proof fn lemma_no_command(c: Seq<char>)
    ensures
        !names_flowbits_command(c) ==> flowbit_command(c) is None,
{
    if let Some(command) = flowbit_command(c) {
        assert(c == command_name(command));
    }
}

/// A flowbits option with names: what stands behind the comma is split at its bars, and
/// each piece is trimmed. The command `noalert` takes no names.
pub proof fn law_flowbits_forms(
    command: FlowbitCommand,
    w: Seq<char>,
    b: Seq<char>,
    pieces: Seq<Seq<char>>,
    names: Seq<Seq<char>>,
    x: Seq<char>,
)
    requires
        are_blank(w),
        are_blank(b),
        pieces.len() > 0,
        none_holds(pieces, '|'),
        are_trimmed(names, pieces),
        !starts_blank(join(pieces, '|')),
        !starts_alphanumeric(x),
        !starts_with(x, ','),
    ensures
        spec_parse_flowbits(
            w + (command_name(command) + (seq![','] + (b + join(pieces, '|')))),
        ) == (if command == FlowbitCommand::NoAlert {
            reject(ErrorKind::Other("noalert does not take arguments"), Seq::empty())
        } else {
            accept(Seq::<char>::empty(), FlowbitsView { command, names })
        }),
        spec_parse_flowbits(w + (command_name(command) + x)) == (if command
            == FlowbitCommand::NoAlert {
            accept(x, FlowbitsView { command, names: seq![] })
        } else {
            reject(ErrorKind::Other("argument required"), x)
        }),
{
    let c = command_name(command);
    lemma_command_name(command);
    assert(are_alphanumeric(c));
    let list = seq![','] + (b + join(pieces, '|'));
    lemma_flowbits(w, c, list);
    lemma_flowbits(w, c, x);
    assert(list.skip(1) =~= b + join(pieces, '|'));
    lemma_blanks_skipped(b, join(pieces, '|'));
    lemma_split_values(pieces, names, '|');
}

/// A flowbits option is rejected behind the blanks if no letter or digit stands there, and
/// at its command if that is none.
pub proof fn law_flowbits_rejections(w: Seq<char>, c: Seq<char>, x: Seq<char>)
    requires
        are_blank(w),
        are_alphanumeric(c),
        !names_flowbits_command(c),
        !starts_alphanumeric(x),
    ensures
        spec_parse_flowbits(w + (c + x)) == reject::<FlowbitsView>(
            ErrorKind::Other("invalid flowbits command"),
            c,
        ),
        !starts_blank(x) ==> spec_parse_flowbits(w + x) == reject::<FlowbitsView>(
            ErrorKind::Nom(NomErrorKind::AlphaNumeric),
            x,
        ),
{
    lemma_flowbits(w, c, x);
    lemma_no_command(c);
    if !starts_blank(x) {
        lemma_blanks_skipped(w, x);
        lemma_run_len_unique(x, alphanumeric(), 0);
    }
}

/// A reference is split at its first comma, and the blanks behind that are dropped. It is
/// rejected if and only if there is no comma.
pub proof fn law_reference_forms(scheme: Seq<char>, b: Seq<char>, reference: Seq<char>)
    requires
        !scheme.contains(','),
        are_blank(b),
        !starts_blank(reference),
    ensures
        spec_parse_reference(scheme + (seq![','] + (b + reference))) == accept(
            Seq::<char>::empty(),
            ReferenceView { scheme, reference },
        ),
        spec_parse_reference(scheme) == reject::<ReferenceView>(
            ErrorKind::Nom(NomErrorKind::TakeUntil),
            scheme,
        ),
{
    let tail = b + reference;
    let all = scheme + (seq![','] + tail);
    lemma_until(scheme, ',', tail);
    assert(all.take(scheme.len() as int) =~= scheme);
    assert(all.skip(scheme.len() as int + 1) =~= tail);
    lemma_blanks_skipped(b, reference);
    lemma_run_len(scheme, other_than(','));
    let n = until(scheme, ',') as int;
    if n < scheme.len() {
        assert(scheme[n] == ',');
    }
}

} // verus!
