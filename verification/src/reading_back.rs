//! What is written out in the syntax of a rule is read back: option values, quoted
//! strings, and the lists of metadata and flow options.

use vstd::prelude::*;

use crate::error::accept;
use crate::list::{
    after_list, first_unexpected, flow_of, is_flow_keyword, list_items, list_text, list_values,
    spec_metadata, spec_parse_flow,
};
use crate::option_value::{ends_value, lemma_value_end, spec_parse_option_value, value_end};
use crate::quoted::{spec_parse_content, spec_parse_quoted_string, unescape};
use crate::text::{
    is_space, is_white, lemma_run_len, lemma_run_len_unique, other_than, run_len, skip_space, space,
    split, split_trimmed, trimmed, trimmed_end, until, white,
};
use crate::types::ContentView;

verus! {

/// An option's value, the `;` behind it and what remains are the input behind its
/// leading spaces, and no `;` in the value ends it. A value is rejected if and only if
/// there is no `;` without a backslash in front of it.
pub proof fn law_option_value_ends_at_first_terminator(input: Seq<char>)
    ensures
        match spec_parse_option_value(input) {
            Ok((rest, value)) => {
                &&& value + seq![';'] + rest == skip_space(input)
                &&& ends_value(skip_space(input), value.len() as int)
                &&& forall|k: int| !#[trigger] ends_value(value, k)
            },
            Err(e) => forall|k: int| !#[trigger] ends_value(skip_space(input), k),
        },
{
    let s = skip_space(input);
    lemma_value_end(s, 0);
    match value_end(s, 0) {
        Some(n) => {
            let value = s.take(n as int);
            assert(value + seq![';'] + s.skip(n as int + 1) =~= s);
            assert forall|k: int| !#[trigger] ends_value(value, k) by {
                if ends_value(value, k) {
                    assert(ends_value(s, k));
                }
            }
        },
        None => {
            assert forall|k: int| !#[trigger] ends_value(s, k) by {
                if k >= 0 {
                }
            }
        },
    }
}

/// A value in which every `;` is escaped, that starts with no space and does not end
/// with a backslash, is read back from in front of a `;`.
pub proof fn law_option_value_reads_back(value: Seq<char>, rest: Seq<char>)
    requires
        forall|k: int| !#[trigger] ends_value(value, k),
        value.len() > 0 ==> !is_space(value[0]) && value.last() != '\\',
    ensures
        spec_parse_option_value(value + seq![';'] + rest) == accept(rest, value),
{
    let s = value + seq![';'] + rest;
    lemma_run_len_unique(s, space(), 0);
    assert(s.skip(0) =~= s);
    let n = value.len();
    assert(ends_value(s, n as int));
    lemma_value_end(s, 0);
    let m = value_end(s, 0);
    if m is Some && m->0 < n {
        assert(ends_value(value, m->0 as int));
    }
    assert(s.skip(n as int + 1) =~= rest);
    assert(s.take(n as int) =~= value);
}

/// `t` with a backslash in front of each quote and backslash, and, if `marks`, of each
/// semicolon and colon.
pub open spec fn escape(t: Seq<char>, marks: bool) -> Seq<char>
    decreases t.len(),
{
    if t.len() == 0 {
        seq![]
    } else {
        let c = t[0];
        let first = if c == '"' || c == '\\' || (marks && (c == ';' || c == ':')) {
            seq!['\\', c]
        } else {
            seq![c]
        };
        first + escape(t.skip(1), marks)
    }
}

/// `t` as a quoted string.
pub open spec fn quote(t: Seq<char>, marks: bool) -> Seq<char> {
    seq!['"'] + escape(t, marks) + seq!['"']
}

/// Whether `e` is `t` with a backslash in front of each quote and backslash, and of any of
/// its semicolons and colons.
pub open spec fn is_escape_of(e: Seq<char>, t: Seq<char>) -> bool
    decreases t.len(),
{
    if t.len() == 0 {
        e.len() == 0
    } else {
        let c = t[0];
        ||| (c == '"' || c == '\\' || c == ';' || c == ':') && e.len() > 1 && e[0] == '\\' && e[1] == c && is_escape_of(
            e.skip(2),
            t.skip(1),
        )
        ||| c != '"' && c != '\\' && e.len() > 0 && e[0] == c && is_escape_of(e.skip(1), t.skip(1))
    }
}

proof fn lemma_unescape_escape(e: Seq<char>, t: Seq<char>, rest: Seq<char>)
    requires
        is_escape_of(e, t),
    ensures
        unescape(e + (seq!['"'] + rest)) == Some((seq!['"'] + rest, t)),
    decreases t.len(),
{
    let end = seq!['"'] + rest;
    let all = e + end;
    if t.len() == 0 {
        assert(all =~= end);
        assert(t =~= Seq::<char>::empty());
    } else {
        let c = t[0];
        if c != '"' && c != '\\' && e.len() > 0 && e[0] == c {
            lemma_unescape_escape(e.skip(1), t.skip(1), rest);
            assert(all[0] == c);
            assert(all.skip(1) =~= e.skip(1) + end);
        } else {
            lemma_unescape_escape(e.skip(2), t.skip(1), rest);
            assert(all[0] == '\\' && all[1] == c);
            assert(all.skip(2) =~= e.skip(2) + end);
        }
        assert(seq![c] + t.skip(1) =~= t);
    }
}

/// A quoted string is read back whichever of its semicolons and colons are escaped; a `!`
/// in front of it makes it a negated content.
pub proof fn law_any_escaping_reads_back(e: Seq<char>, t: Seq<char>, rest: Seq<char>)
    requires
        is_escape_of(e, t),
    ensures
        spec_parse_quoted_string(seq!['"'] + e + seq!['"'] + rest) == accept(rest, t),
        spec_parse_content(seq!['"'] + e + seq!['"'] + rest) == accept(
            rest,
            ContentView { pattern: t, negated: false },
        ),
        spec_parse_content(seq!['!'] + (seq!['"'] + e + seq!['"'] + rest)) == accept(
            rest,
            ContentView { pattern: t, negated: true },
        ),
{
    let all = seq!['"'] + e + seq!['"'] + rest;
    lemma_unescape_escape(e, t, rest);
    assert(all.skip(1) =~= e + (seq!['"'] + rest));
    assert((seq!['"'] + rest).skip(1) =~= rest);
    lemma_run_len_unique(all, space(), 0);
    assert(all.skip(0) =~= all);
    let negated = seq!['!'] + all;
    lemma_run_len_unique(negated, space(), 0);
    assert(negated.skip(0) =~= negated);
    assert(negated.skip(1) =~= all);
}

proof fn lemma_escape_is_escape(t: Seq<char>, marks: bool)
    ensures
        is_escape_of(escape(t, marks), t),
    decreases t.len(),
{
    if t.len() > 0 {
        let e = escape(t, marks);
        let more = escape(t.skip(1), marks);
        lemma_escape_is_escape(t.skip(1), marks);
        if e[0] == t[0] && e =~= seq![t[0]] + more {
            assert(e.skip(1) =~= more);
        } else {
            assert(e.skip(2) =~= more);
        }
    }
}

/// Every text that is quoted is read back, whether or not its semicolons and colons
/// are escaped; a `!` in front of it makes it a negated content.
pub proof fn law_quoted_string_reads_back(t: Seq<char>, marks: bool, rest: Seq<char>)
    ensures
        spec_parse_quoted_string(quote(t, marks) + rest) == accept(rest, t),
        spec_parse_content(quote(t, marks) + rest) == accept(
            rest,
            ContentView { pattern: t, negated: false },
        ),
        spec_parse_content(seq!['!'] + (quote(t, marks) + rest)) == accept(
            rest,
            ContentView { pattern: t, negated: true },
        ),
{
    lemma_escape_is_escape(t, marks);
    law_any_escaping_reads_back(escape(t, marks), t, rest);
}

/// The texts of `list` with `c` between them.
pub open spec fn join(list: Seq<Seq<char>>, c: char) -> Seq<char>
    decreases list.len(),
{
    if list.len() == 0 {
        seq![]
    } else if list.len() == 1 {
        list[0]
    } else {
        list[0] + seq![c] + join(list.skip(1), c)
    }
}

/// Texts without the separator that are joined are split again.
pub proof fn law_split_undoes_join(list: Seq<Seq<char>>, c: char)
    requires
        list.len() > 0,
        forall|k: int| 0 <= k < list.len() ==> !#[trigger] list[k].contains(c),
    ensures
        split(join(list, c), c) == list,
    decreases list.len(),
{
    let all = join(list, c);
    let first = list[0];
    assert(!list[0].contains(c));
    assert forall|k: int| 0 <= k < first.len() implies first[k] != c by {
        if first[k] == c {
            assert(first.contains(c));
        }
    }
    assert forall|k: int| 0 <= k < first.len() implies other_than(c)(#[trigger] all[k]) by {
        assert(all[k] == first[k]);
    }
    if list.len() == 1 {
        lemma_run_len_unique(all, other_than(c), first.len());
        assert(list =~= seq![first]);
    } else {
        let others = list.skip(1);
        assert forall|k: int| 0 <= k < others.len() implies !#[trigger] others[k].contains(c) by {
            assert(others[k] == list[k + 1]);
        }
        law_split_undoes_join(others, c);
        assert(all[first.len() as int] == c);
        lemma_run_len_unique(all, other_than(c), first.len());
        assert(all.skip(first.len() as int + 1) =~= join(others, c));
        assert(all.take(first.len() as int) =~= first);
        assert(seq![first] + others =~= list);
    }
}

/// Splitting and joining again gives the text back.
pub proof fn law_join_undoes_split(s: Seq<char>, c: char)
    ensures
        join(split(s, c), c) == s,
        split(s, c).len() > 0,
    decreases s.len(),
{
    lemma_run_len(s, other_than(c));
    let n = until(s, c) as int;
    if n < s.len() {
        law_join_undoes_split(s.skip(n + 1), c);
        assert(split(s, c).skip(1) =~= split(s.skip(n + 1), c));
        assert(s.take(n) + seq![c] + s.skip(n + 1) =~= s);
    }
}

/// Trimming shortens a text unless it has nothing to trim.
proof fn lemma_trimmed_end_len(s: Seq<char>)
    ensures
        trimmed_end(s).len() <= s.len(),
        s.len() > 0 && is_white(s.last()) ==> trimmed_end(s).len() < s.len(),
    decreases s.len(),
{
    if s.len() > 0 && is_white(s.last()) {
        lemma_trimmed_end_len(s.drop_last());
    }
}

/// A trimmed text starts and ends with no white space.
pub proof fn lemma_trimmed_ends(s: Seq<char>)
    requires
        trimmed(s) == s,
    ensures
        s.len() > 0 ==> !is_white(s[0]) && !is_white(s.last()),
        skip_space(s) == s,
{
    lemma_run_len(s, white());
    let n = run_len(s, white()) as int;
    lemma_trimmed_end_len(s.skip(n));
    if n > 0 {
        assert(s.skip(n).len() == s.len() - n);
    }
    assert(s.skip(0) =~= s);
    if s.len() > 0 {
        assert(!is_white(s[0]));
        lemma_run_len_unique(s, space(), 0);
    } else {
        lemma_run_len(s, space());
        assert(s.skip(0) =~= s);
    }
}

/// Trimming a text whose leading spaces were skipped gives what trimming it gives.
pub proof fn lemma_trimmed_skip_space(s: Seq<char>)
    ensures
        trimmed(skip_space(s)) == trimmed(s),
{
    lemma_run_len(s, space());
    lemma_run_len(s, white());
    let w = run_len(s, space());
    let n = run_len(s, white());
    if n < w {
        assert(space()(s[n as int]));
        assert(white()(s[n as int]));
    }
    let t = s.skip(w as int);
    assert forall|k: int| 0 <= k < n - w implies white()(#[trigger] t[k]) by {
        assert(t[k] == s[k + w]);
    }
    if n < s.len() {
        assert(t[n - w] == s[n as int]);
    }
    lemma_run_len_unique(t, white(), (n - w) as nat);
    assert(t.skip(n - w) =~= s.skip(n as int));
}

/// The values of a list are the pieces between its commas, trimmed.
pub proof fn law_list_values_are_trimmed_pieces(s: Seq<char>)
    ensures
        list_values(s) == split_trimmed(list_text(s), ','),
        list_text(s) + after_list(s) == s,
{
    lemma_run_len(s, other_than(';'));
    assert(list_text(s) + after_list(s) =~= s);
    let pieces = split(list_text(s), ',');
    assert forall|k: int| 0 <= k < pieces.len() implies #[trigger] list_values(s)[k] == split_trimmed(
        list_text(s),
        ',',
    )[k] by {
        lemma_trimmed_skip_space(pieces[k]);
    }
    assert(list_values(s) =~= split_trimmed(list_text(s), ','));
}

/// Whether `t` can stand in a comma separated list as it is.
pub open spec fn is_list_value(t: Seq<char>) -> bool {
    trimmed(t) == t && !t.contains(',') && !t.contains(';')
}

/// A joined list holds no character but the separator that none of its texts holds.
pub proof fn lemma_join_holds(list: Seq<Seq<char>>, c: char, x: char)
    requires
        forall|k: int| 0 <= k < list.len() ==> !#[trigger] list[k].contains(x),
        x != c,
    ensures
        !join(list, c).contains(x),
    decreases list.len(),
{
    if list.len() == 1 {
        assert(!list[0].contains(x));
    } else if list.len() > 1 {
        let others = list.skip(1);
        assert forall|k: int| 0 <= k < others.len() implies !#[trigger] others[k].contains(x) by {
            assert(others[k] == list[k + 1]);
        }
        lemma_join_holds(others, c, x);
        let all = join(list, c);
        let first = list[0];
        assert(!list[0].contains(x));
        if all.contains(x) {
            let k = choose|k: int| 0 <= k < all.len() && all[k] == x;
            if k < first.len() {
                assert(first[k] == x);
            } else if k > first.len() {
                assert(join(others, c)[k - first.len() - 1] == x);
            }
        }
    }
}

/// Metadata values without commas, semicolons and white space at their ends, with commas
/// between them and nothing or a `;` behind them, are read back.
pub proof fn law_metadata_reads_back(list: Seq<Seq<char>>, rest: Seq<char>)
    requires
        list.len() > 0,
        forall|k: int| 0 <= k < list.len() ==> is_list_value(#[trigger] list[k]),
        rest.len() == 0 || rest[0] == ';',
    ensures
        spec_metadata(join(list, ',') + rest) == accept(rest, list),
{
    let text = join(list, ',');
    let all = text + rest;
    assert forall|k: int| 0 <= k < list.len() implies !#[trigger] list[k].contains(',') by {
        assert(is_list_value(list[k]));
    }
    assert forall|k: int| 0 <= k < list.len() implies !#[trigger] list[k].contains(';') by {
        assert(is_list_value(list[k]));
    }
    lemma_join_holds(list, ',', ';');
    assert forall|k: int| 0 <= k < text.len() implies other_than(';')(#[trigger] all[k]) by {
        assert(all[k] == text[k]);
        assert(text.contains(text[k]));
    }
    lemma_run_len_unique(all, other_than(';'), text.len());
    assert(list_text(all) =~= text);
    assert(after_list(all) =~= rest);
    law_list_values_are_trimmed_pieces(all);
    law_split_undoes_join(list, ',');
    assert forall|k: int| 0 <= k < list.len() implies #[trigger] split_trimmed(text, ',')[k]
        == list[k] by {
        assert(is_list_value(list[k]));
    }
    assert(split_trimmed(text, ',') =~= list);
}

proof fn lemma_first_unexpected(items: Seq<Seq<char>>)
    ensures
        first_unexpected(items) is None <==> forall|k: int|
            0 <= k < items.len() ==> is_flow_keyword(trimmed(#[trigger] items[k])),
    decreases items.len(),
{
    if items.len() > 0 {
        let others = items.skip(1);
        lemma_first_unexpected(others);
        assert forall|k: int| 0 <= k < others.len() implies #[trigger] others[k] == items[k + 1] by {}
        if is_flow_keyword(trimmed(items[0])) {
            if first_unexpected(others) is None {
                assert forall|k: int| 0 <= k < items.len() implies is_flow_keyword(
                    trimmed(#[trigger] items[k]),
                ) by {
                    if k > 0 {
                        assert(others[k - 1] == items[k]);
                    }
                }
            } else {
                let k = choose|k: int|
                    0 <= k < others.len() && !is_flow_keyword(trimmed(#[trigger] others[k]));
                assert(!is_flow_keyword(trimmed(items[k + 1])));
            }
        }
    }
}

/// A keyword of a flow option is trimmed and holds neither a comma nor a semicolon.
proof fn lemma_flow_keyword(t: Seq<char>)
    requires
        is_flow_keyword(t),
    ensures
        is_list_value(t),
{
    reveal_strlit("not_established");
    reveal_strlit("established");
    reveal_strlit("from_client");
    reveal_strlit("from_server");
    reveal_strlit("no_frag");
    reveal_strlit("no_stream");
    reveal_strlit("only_frag");
    reveal_strlit("only_stream");
    reveal_strlit("stateless");
    reveal_strlit("to_client");
    reveal_strlit("to_server");
    lemma_run_len_unique(t, white(), 0);
    assert(t.skip(0) =~= t);
    assert forall|k: int| 0 <= k < t.len() implies t[k] != ',' && t[k] != ';' by {
        assert(k == 0 || k == 1 || k == 2 || k == 3 || k == 4 || k == 5 || k == 6 || k == 7 || k == 8
            || k == 9 || k == 10 || k == 11 || k == 12 || k == 13 || k == 14);
    }
}

/// Keywords of a flow option with commas between them, and nothing or a `;` behind them,
/// are read back, whatever their order and however often each occurs.
pub proof fn law_flow_reads_back(list: Seq<Seq<char>>, rest: Seq<char>)
    requires
        list.len() > 0,
        forall|k: int| 0 <= k < list.len() ==> is_flow_keyword(#[trigger] list[k]),
        rest.len() == 0 || rest[0] == ';',
    ensures
        spec_parse_flow(join(list, ',') + rest) == accept(rest, flow_of(list)),
{
    assert forall|k: int| 0 <= k < list.len() implies is_list_value(#[trigger] list[k]) by {
        lemma_flow_keyword(list[k]);
    }
    law_metadata_reads_back(list, rest);
    law_flow_accepts_keywords(join(list, ',') + rest);
}

/// A flow option is accepted if and only if each of its values is a keyword.
pub proof fn law_flow_accepts_keywords(input: Seq<char>)
    ensures
        spec_parse_flow(input) is Ok <==> forall|k: int|
            0 <= k < list_values(input).len() ==> is_flow_keyword(#[trigger] list_values(input)[k]),
{
    let items = list_items(input);
    let values = list_values(input);
    lemma_first_unexpected(items);
    assert forall|k: int| 0 <= k < items.len() implies trimmed(#[trigger] items[k]) == values[k] by {}
    if spec_parse_flow(input) is Ok {
        assert forall|k: int| 0 <= k < values.len() implies is_flow_keyword(#[trigger] values[k]) by {
            assert(values[k] == trimmed(items[k]));
        }
    } else {
        let k = choose|k: int| 0 <= k < items.len() && !is_flow_keyword(trimmed(#[trigger] items[k]));
        assert(!is_flow_keyword(values[k]));
    }
}

} // verus!
