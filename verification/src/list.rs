//! Comma separated lists, and the options that hold one: metadata and flow.

use vstd::prelude::*;

use crate::error::{
    accept, outcome, outcome_with, reject, ErrorKind, IResult, ParseError, Parsed, Rejection,
};
use crate::leaf::{item, lemma_prefix_one, skip_spaces, tag, take_while_item};
use crate::text::{
    head_is, lemma_contains_take, lemma_run_len, lemma_run_len_unique, other_than, run_len,
    same_text, skip_space, space, split, strings, texts, trimmed, until,
};
use crate::types::Flow;

verus! {

/// The list at the start of `s`: everything before the first `;`.
pub open spec fn list_text(s: Seq<char>) -> Seq<char> {
    s.take(until(s, ';') as int)
}

/// What follows the list at the start of `s`.
pub open spec fn after_list(s: Seq<char>) -> Seq<char> {
    s.skip(until(s, ';') as int)
}

/// The items of the list at the start of `s`, without the spaces that they start
/// with.
pub open spec fn list_items(s: Seq<char>) -> Seq<Seq<char>> {
    split(list_text(s), ',').map_values(|piece: Seq<char>| skip_space(piece))
}

/// The items of the list at the start of `s`, each trimmed.
pub open spec fn list_values(s: Seq<char>) -> Seq<Seq<char>> {
    list_items(s).map_values(|i: Seq<char>| trimmed(i))
}

/// What `metadata` returns: it rejects nothing.
pub open spec fn spec_metadata(input: Seq<char>) -> Parsed<Seq<Seq<char>>> {
    accept(after_list(input), list_values(input))
}

/// The flow option that holds the keywords `options`.
pub open spec fn flow_of(options: Seq<Seq<char>>) -> Flow {
    Flow {
        not_established: options.contains("not_established"@),
        established: options.contains("established"@),
        from_client: options.contains("from_client"@),
        from_server: options.contains("from_server"@),
        no_frag: options.contains("no_frag"@),
        no_stream: options.contains("no_stream"@),
        only_frag: options.contains("only_frag"@),
        only_stream: options.contains("only_stream"@),
        stateless: options.contains("stateless"@),
        to_client: options.contains("to_client"@),
        to_server: options.contains("to_server"@),
    }
}

/// Whether `t` is a keyword of a flow option.
pub open spec fn is_flow_keyword(t: Seq<char>) -> bool {
    ||| t == "not_established"@
    ||| t == "established"@
    ||| t == "from_client"@
    ||| t == "from_server"@
    ||| t == "no_frag"@
    ||| t == "no_stream"@
    ||| t == "only_frag"@
    ||| t == "only_stream"@
    ||| t == "stateless"@
    ||| t == "to_client"@
    ||| t == "to_server"@
}

/// The first of `items` that is no keyword of a flow option.
pub open spec fn first_unexpected(items: Seq<Seq<char>>) -> Option<Seq<char>>
    decreases items.len(),
{
    if items.len() == 0 {
        None
    } else if !is_flow_keyword(trimmed(items[0])) {
        Some(items[0])
    } else {
        first_unexpected(items.skip(1))
    }
}

/// What `parse_flow` returns.
pub open spec fn spec_parse_flow(input: Seq<char>) -> Parsed<Flow> {
    match first_unexpected(list_items(input)) {
        Some(item) => reject(ErrorKind::Other("unexpected flow option"), item),
        None => Ok((after_list(input), flow_of(list_values(input)))),
    }
}

/// One item of a list: it ends at the first `,` or `;`, and its leading spaces are
/// part of it.
proof fn lemma_item(s: Seq<char>)
    ensures
        ({
            let k = run_len(s, item()) as int;
            let first = split(list_text(s), ',');
            &&& k <= s.len()
            &&& skip_space(s).skip(run_len(skip_space(s), item()) as int) == s.skip(k)
            &&& skip_space(s).take(run_len(skip_space(s), item()) as int) == skip_space(s.take(k))
            &&& skip_space(s.skip(k)) == s.skip(k)
            &&& if head_is(s.skip(k), ',') {
                &&& first == seq![s.take(k)] + split(list_text(s.skip(k + 1)), ',')
                &&& after_list(s) == after_list(s.skip(k + 1))
            } else {
                &&& first == seq![s.take(k)]
                &&& after_list(s) == s.skip(k)
            }
        }),
{
    let k = run_len(s, item());
    let w = run_len(s, space());
    lemma_run_len(s, item());
    lemma_run_len(s, space());
    // The spaces come before the first `,` or `;`.
    if k < w {
        assert(space()(s[k as int]));
        assert(false);
    }
    let t = s.skip(w as int);
    assert forall|i: int| 0 <= i < k - w implies item()(#[trigger] t[i]) by {
        assert(t[i] == s[i + w]);
    }
    lemma_run_len_unique(t, item(), (k - w) as nat);
    assert(t.skip(k - w) =~= s.skip(k as int));
    let piece = s.take(k as int);
    assert forall|i: int| 0 <= i < w implies space()(#[trigger] piece[i]) by {
        assert(piece[i] == s[i]);
    }
    lemma_run_len_unique(piece, space(), w);
    assert(t.take(k - w) =~= piece.skip(w as int));
    // What follows the item starts with no space.
    let rest = s.skip(k as int);
    lemma_run_len_unique(rest, space(), 0);
    assert(rest.skip(0) =~= rest);
    // The item ends the first piece of the list.
    let u = until(s, ';');
    lemma_run_len(s, other_than(';'));
    if u < k {
        assert(item()(s[u as int]));
        assert(false);
    }
    let body = list_text(s);
    if head_is(rest, ',') {
        assert(s[k as int] == ',');
        assert(k < u) by {
            if u == k {
                assert(s[k as int] == ';');
            }
        }
        assert forall|i: int| 0 <= i < k implies other_than(',')(#[trigger] body[i]) by {
            assert(body[i] == s[i] && item()(s[i]));
        }
        lemma_run_len_unique(body, other_than(','), k);
        assert(body.take(k as int) =~= piece);
        let next = s.skip(k as int + 1);
        assert forall|i: int| 0 <= i < u - k - 1 implies other_than(';')(#[trigger] next[i]) by {
            assert(next[i] == s[i + k + 1]);
        }
        lemma_run_len_unique(next, other_than(';'), (u - k - 1) as nat);
        assert(body.skip(k as int + 1) =~= list_text(next));
        assert(after_list(s) =~= after_list(next));
    } else {
        assert(u == k) by {
            if k < u {
                assert(!item()(s[k as int]));
                assert(other_than(';')(s[k as int]));
                assert(rest[0] == s[k as int]);
            }
        }
        assert forall|i: int| 0 <= i < k implies other_than(',')(#[trigger] body[i]) by {
            assert(body[i] == s[i] && item()(s[i]));
        }
        lemma_run_len_unique(body, other_than(','), k);
        assert(body =~= piece);
    }
}

/// The items of a comma separated list, each without the spaces that it starts
/// with.
fn parse_list<'a>(input: &'a str) -> (r: (&'a str, Vec<&'a str>))
    ensures
        r.0@ == after_list(input@),
        texts(r.1@) == list_items(input@),
{
    let mut items: Vec<&'a str> = Vec::new();
    let mut rest: &'a str = input;
    proof {
        reveal_strlit(",");
    }
    loop
        invariant
            ","@ == seq![','],
            after_list(input@) == after_list(rest@),
            list_items(input@) == texts(items@) + list_items(rest@),
        decreases rest@.len(),
    {
        proof {
            lemma_item(rest@);
        }
        let ghost start = rest@;
        let ghost before = items@;
        let item_start: &'a str = skip_spaces(rest);
        let (end, text): (&'a str, &'a str) = match take_while_item(item_start) {
            Some(found) => found,
            None => (item_start, ""),
        };
        items.push(text);
        assert(texts(items@) =~= texts(before).push(text@));
        let separator: &'a str = skip_spaces(end);
        proof {
            lemma_prefix_one(separator@, ',');
        }
        match tag(",", separator) {
            Some((next, _)) => {
                proof {
                    let k = run_len(start, item()) as int;
                    assert(next@ =~= start.skip(k + 1));
                    assert(list_items(start) =~= seq![text@] + list_items(next@));
                    assert(texts(before) + (seq![text@] + list_items(next@)) =~= texts(items@)
                        + list_items(next@));
                }
                rest = next;
            },
            None => {
                proof {
                    assert(list_items(start) =~= seq![text@]);
                    assert(texts(before) + seq![text@] =~= texts(items@));
                }
                return (end, items);
            },
        }
    }
}

/// Parse the metadata into a list of the comma separated values.
pub fn metadata<'a>(input: &'a str) -> (r: IResult<&'a str, Vec<String>, ParseError<&'a str>>)
    ensures
        outcome_with(r, |parts: Vec<String>| strings(parts@)) == spec_metadata(input@),
{
    let (rest, items) = parse_list(input);
    let mut parts: Vec<String> = Vec::new();
    let mut i: usize = 0;
    while i < items.len()
        invariant
            texts(items@) == list_items(input@),
            i <= items@.len(),
            strings(parts@) == list_values(input@).take(i as int),
        decreases items@.len() - i,
    {
        let ghost before = parts@;
        parts.push(items[i].trim().to_owned());
        proof {
            assert(texts(items@)[i as int] == items@[i as int]@);
            assert(strings(parts@) =~= strings(before).push(list_values(input@)[i as int]));
        }
        i = i + 1;
    }
    assert(strings(parts@) =~= list_values(input@));
    Ok((rest, parts))
}

/// Sets the keyword `option` in `flow`; `false` if it is none.
fn set_flow_keyword(option: &str, flow: &mut Flow) -> (r: bool)
    ensures
        r == is_flow_keyword(option@),
        *final(flow) == (Flow {
            not_established: old(flow).not_established || option@ == "not_established"@,
            established: old(flow).established || option@ == "established"@,
            from_client: old(flow).from_client || option@ == "from_client"@,
            from_server: old(flow).from_server || option@ == "from_server"@,
            no_frag: old(flow).no_frag || option@ == "no_frag"@,
            no_stream: old(flow).no_stream || option@ == "no_stream"@,
            only_frag: old(flow).only_frag || option@ == "only_frag"@,
            only_stream: old(flow).only_stream || option@ == "only_stream"@,
            stateless: old(flow).stateless || option@ == "stateless"@,
            to_client: old(flow).to_client || option@ == "to_client"@,
            to_server: old(flow).to_server || option@ == "to_server"@,
        }),
{
    let not_established = same_text(option, "not_established");
    let established = same_text(option, "established");
    let from_client = same_text(option, "from_client");
    let from_server = same_text(option, "from_server");
    let no_frag = same_text(option, "no_frag");
    let no_stream = same_text(option, "no_stream");
    let only_frag = same_text(option, "only_frag");
    let only_stream = same_text(option, "only_stream");
    let stateless = same_text(option, "stateless");
    let to_client = same_text(option, "to_client");
    let to_server = same_text(option, "to_server");
    *flow = Flow {
        not_established: flow.not_established || not_established,
        established: flow.established || established,
        from_client: flow.from_client || from_client,
        from_server: flow.from_server || from_server,
        no_frag: flow.no_frag || no_frag,
        no_stream: flow.no_stream || no_stream,
        only_frag: flow.only_frag || only_frag,
        only_stream: flow.only_stream || only_stream,
        stateless: flow.stateless || stateless,
        to_client: flow.to_client || to_client,
        to_server: flow.to_server || to_server,
    };
    not_established || established || from_client || from_server || no_frag || no_stream || only_frag
        || only_stream || stateless || to_client || to_server
}

/// Parse the value of a flow option.
pub fn parse_flow<'a>(input: &'a str) -> (r: IResult<&'a str, Flow, ParseError<&'a str>>)
    ensures
        outcome(r) == spec_parse_flow(input@),
{
    let (rest, items) = parse_list(input);
    let mut flow: Flow = Flow::default();
    let ghost all = list_items(input@);
    let ghost options = list_values(input@);
    let mut i: usize = 0;
    proof {
        assert(all.skip(0) =~= all);
        assert(options.take(0) =~= Seq::<Seq<char>>::empty());
    }
    while i < items.len()
        invariant
            texts(items@) == all,
            all == list_items(input@),
            options == list_values(input@),
            i <= items@.len(),
            first_unexpected(all) == first_unexpected(all.skip(i as int)),
            flow == flow_of(options.take(i as int)),
        decreases items@.len() - i,
    {
        let part: &'a str = items[i];
        proof {
            assert(all[i as int] == part@);
            assert(all.skip(i as int)[0] == part@);
            assert(all.skip(i as int).skip(1) =~= all.skip(i + 1));
            lemma_contains_take(options, i as int, "not_established"@);
            lemma_contains_take(options, i as int, "established"@);
            lemma_contains_take(options, i as int, "from_client"@);
            lemma_contains_take(options, i as int, "from_server"@);
            lemma_contains_take(options, i as int, "no_frag"@);
            lemma_contains_take(options, i as int, "no_stream"@);
            lemma_contains_take(options, i as int, "only_frag"@);
            lemma_contains_take(options, i as int, "only_stream"@);
            lemma_contains_take(options, i as int, "stateless"@);
            lemma_contains_take(options, i as int, "to_client"@);
            lemma_contains_take(options, i as int, "to_server"@);
        }
        if !set_flow_keyword(part.trim(), &mut flow) {
            return Err(
                Rejection::Error(
                    ParseError { kind: ErrorKind::Other("unexpected flow option"), input: part },
                ),
            );
        }
        i = i + 1;
    }
    assert(options.take(i as int) =~= options);
    Ok((rest, flow))
}

} // verus!
