//! Options that are written out are read back: references, flowbits, regular
//! expressions, isdataat, and single elements in place of an array.

use vstd::prelude::*;

use crate::array::spec_parse_array;
use crate::error::accept;
use crate::flowbits::{flowbit_command, spec_parse_flowbits};
use crate::isdataat::{first_invalid, is_isdataat_flag, position_of, spec_parse_isdataat};
use crate::laws::{law_run_reads_back, lemma_run_len_prefix};
use crate::leaf::{alphanumeric, is_alphanumeric};
use crate::number_laws::lemma_token_reads_back;
use crate::pcre::{spec_parse_pcre, spec_pcre_tail};
use crate::reading_back::{join, law_split_undoes_join, lemma_join_holds, lemma_trimmed_ends};
use crate::reference::spec_parse_reference;
use crate::text::{
    head_is, is_space, is_white, last_index, lemma_last_index, lemma_run_len_unique, other_than,
    skip_space, space, split_trimmed, trimmed, until, white,
};
use crate::types::{Element, FlowbitCommand, FlowbitsView, IsDataAtView, PcreView, ReferenceView};
use crate::words::{ends_token, spec_parse_token, word};

verus! {

/// A text that starts with no space has none to skip.
proof fn lemma_no_space(s: Seq<char>)
    requires
        s.len() == 0 || !is_space(s[0]),
    ensures
        skip_space(s) == s,
{
    lemma_run_len_unique(s, space(), 0);
    assert(s.skip(0) =~= s);
}

/// A text without `c` ends where `c` follows it.
pub proof fn lemma_until(t: Seq<char>, c: char, rest: Seq<char>)
    requires
        !t.contains(c),
    ensures
        until(t + (seq![c] + rest), c) == t.len(),
{
    let all = t + (seq![c] + rest);
    assert forall|k: int| 0 <= k < t.len() implies other_than(c)(#[trigger] all[k]) by {
        assert(all[k] == t[k]);
        assert(t.contains(t[k]));
    }
    lemma_run_len_unique(all, other_than(c), t.len());
}

/// A scheme without a comma and a reference that starts with no space are read back.
pub proof fn law_reference_reads_back(scheme: Seq<char>, reference: Seq<char>)
    requires
        !scheme.contains(','),
        reference.len() == 0 || !is_space(reference[0]),
    ensures
        spec_parse_reference(scheme + (seq![','] + reference)) == accept(
            Seq::<char>::empty(),
            ReferenceView { scheme, reference },
        ),
{
    let all = scheme + (seq![','] + reference);
    lemma_until(scheme, ',', reference);
    assert(all.take(scheme.len() as int) =~= scheme);
    assert(all.skip(scheme.len() as int + 1) =~= reference);
    lemma_no_space(reference);
}

/// The name of a flowbits command.
pub open spec fn command_name(command: FlowbitCommand) -> Seq<char> {
    match command {
        FlowbitCommand::IsNotSet => "isnotset"@,
        FlowbitCommand::IsSet => "isset"@,
        FlowbitCommand::NoAlert => "noalert"@,
        FlowbitCommand::SetBit => "set"@,
        FlowbitCommand::Toggle => "toggle"@,
        FlowbitCommand::Unset => "unset"@,
    }
}

pub proof fn lemma_command_name(command: FlowbitCommand)
    ensures
        flowbit_command(command_name(command)) == Some(command),
        command_name(command).len() > 0,
        forall|k: int|
            0 <= k < command_name(command).len() ==> is_alphanumeric(
                #[trigger] command_name(command)[k],
            ),
{
    reveal_strlit("isnotset");
    reveal_strlit("isset");
    reveal_strlit("noalert");
    reveal_strlit("set");
    reveal_strlit("toggle");
    reveal_strlit("unset");
    assert("isset"@[0] == 'i' && "unset"@[0] == 'u' && "set"@[0] == 's');
    assert("isnotset"@.len() == 8 && "isset"@.len() == 5 && "noalert"@.len() == 7);
    assert("set"@.len() == 3 && "toggle"@.len() == 6 && "unset"@.len() == 5);
    let t = command_name(command);
    assert forall|k: int| 0 <= k < t.len() implies is_alphanumeric(#[trigger] t[k]) by {
        assert(k == 0 || k == 1 || k == 2 || k == 3 || k == 4 || k == 5 || k == 6 || k == 7);
    }
}

/// Texts that are trimmed and hold no `c` are split and trimmed back.
proof fn lemma_split_trimmed_join(list: Seq<Seq<char>>, c: char)
    requires
        list.len() > 0,
        forall|k: int|
            0 <= k < list.len() ==> trimmed(#[trigger] list[k]) == list[k] && !list[k].contains(c),
    ensures
        split_trimmed(join(list, c), c) == list,
{
    law_split_undoes_join(list, c);
    assert(split_trimmed(join(list, c), c) =~= list);
}

/// Trimmed texts that are joined start with no space unless the separator is one.
proof fn lemma_join_no_space(list: Seq<Seq<char>>, c: char)
    requires
        forall|k: int| 0 <= k < list.len() ==> trimmed(#[trigger] list[k]) == list[k],
        !is_space(c),
    ensures
        skip_space(join(list, c)) == join(list, c),
        join(list, c).len() > 0 ==> !is_space(join(list, c)[0]),
{
    let all = join(list, c);
    if list.len() > 0 {
        assert(trimmed(list[0]) == list[0]);
        lemma_trimmed_ends(list[0]);
        if list[0].len() > 0 {
            assert(all[0] == list[0][0]);
        } else if all.len() > 0 {
            assert(all[0] == c);
        }
    }
    lemma_no_space(all);
}

/// A flowbits command with names, and the command `noalert` without, are read back. A
/// name is trimmed and holds no `|`.
pub proof fn law_flowbits_read_back(
    command: FlowbitCommand,
    names: Seq<Seq<char>>,
    rest: Seq<char>,
)
    requires
        names.len() > 0,
        forall|k: int|
            0 <= k < names.len() ==> trimmed(#[trigger] names[k]) == names[k] && !names[k].contains('|'),
        rest.len() == 0 || (!is_alphanumeric(rest[0]) && rest[0] != ','),
    ensures
        command != FlowbitCommand::NoAlert ==> spec_parse_flowbits(
            command_name(command) + (seq![','] + join(names, '|')),
        ) == accept(Seq::<char>::empty(), FlowbitsView { command, names }),
        spec_parse_flowbits(command_name(FlowbitCommand::NoAlert) + rest) == accept(
            rest,
            FlowbitsView { command: FlowbitCommand::NoAlert, names: seq![] },
        ),
{
    lemma_command_name(command);
    let t = command_name(command);
    let list = seq![','] + join(names, '|');
    let all = t + list;
    assert forall|k: int| 0 <= k < t.len() implies alphanumeric()(#[trigger] t[k]) by {
        assert(is_alphanumeric(t[k]));
    }
    lemma_run_len_prefix(t, list, alphanumeric());
    lemma_run_len_unique(list, alphanumeric(), 0);
    assert(all[0] == t[0]);
    lemma_no_space(all);
    assert(all.skip(t.len() as int) =~= list);
    assert(all.take(t.len() as int) =~= t);
    assert(list.skip(1) =~= join(names, '|'));
    lemma_join_no_space(names, '|');
    lemma_split_trimmed_join(names, '|');
    let u = command_name(FlowbitCommand::NoAlert);
    lemma_command_name(FlowbitCommand::NoAlert);
    let short = u + rest;
    assert forall|k: int| 0 <= k < u.len() implies alphanumeric()(#[trigger] u[k]) by {
        assert(is_alphanumeric(u[k]));
    }
    lemma_run_len_prefix(u, rest, alphanumeric());
    lemma_run_len_unique(rest, alphanumeric(), 0);
    assert(short[0] == u[0]);
    lemma_no_space(short);
    assert(short.skip(u.len() as int) =~= rest);
    assert(short.take(u.len() as int) =~= u);
}

/// A regular expression as it is written in a rule: `end` is what stands between the
/// slash that ends the pattern and the closing quote.
pub open spec fn render_pcre(negate: bool, pattern: Seq<char>, end: Seq<char>) -> Seq<char> {
    let text = seq!['"', '/'] + pattern + seq!['/'] + end + seq!['"'];
    if negate {
        seq!['!'] + text
    } else {
        text
    }
}

/// The last slash of a rendered expression is the one behind the pattern.
pub proof fn lemma_pcre_pattern(pattern: Seq<char>, tail: Seq<char>)
    requires
        !tail.contains('/'),
    ensures
        last_index(pattern + (seq!['/'] + tail), '/') == Some(pattern.len()),
{
    let body = pattern + (seq!['/'] + tail);
    lemma_last_index(body, '/');
    assert(body[pattern.len() as int] == '/');
    assert(body.contains('/'));
    let i = last_index(body, '/')->0 as int;
    if i < pattern.len() {
        assert(body[pattern.len() as int] != '/');
    } else if i > pattern.len() {
        assert(tail[i - pattern.len() - 1] == '/');
    }
}

proof fn lemma_pcre_tail(negate: bool, pattern: Seq<char>, end: Seq<char>, rest: Seq<char>)
    requires
        !end.contains('/'),
        !rest.contains('/'),
    ensures
        spec_parse_pcre(render_pcre(negate, pattern, end) + rest) == spec_pcre_tail(
            negate,
            pattern,
            end + (seq!['"'] + rest),
        ),
{
    let tail = end + (seq!['"'] + rest);
    let body = pattern + (seq!['/'] + tail);
    let all = render_pcre(negate, pattern, end) + rest;
    let text = seq!['"'] + (seq!['/'] + body);
    if negate {
        assert(all =~= seq!['!'] + text);
        assert(all.skip(1) =~= text);
    } else {
        assert(all =~= text);
    }
    lemma_no_space(text);
    assert(text.skip(1) =~= seq!['/'] + body);
    assert(text.skip(1).skip(1) =~= body);
    assert(!tail.contains('/')) by {
        if tail.contains('/') {
            let k = choose|k: int| 0 <= k < tail.len() && tail[k] == '/';
            if k < end.len() {
                assert(end[k] == '/');
            } else if k > end.len() {
                assert(rest[k - end.len() - 1] == '/');
            }
        }
    }
    lemma_pcre_pattern(pattern, tail);
    assert(body.take(pattern.len() as int) =~= pattern);
    assert(body.skip(pattern.len() as int + 1) =~= tail);
}

/// An expression with any pattern and with modifiers that are letters and digits is read
/// back from in front of a text without a slash.
pub proof fn law_pcre_reads_back(
    negate: bool,
    pattern: Seq<char>,
    modifiers: Seq<char>,
    rest: Seq<char>,
)
    requires
        forall|k: int| 0 <= k < modifiers.len() ==> is_alphanumeric(#[trigger] modifiers[k]),
        !rest.contains('/'),
    ensures
        spec_parse_pcre(render_pcre(negate, pattern, modifiers) + rest) == accept(
            rest,
            PcreView { negate, pattern, modifiers, vars: seq![] },
        ),
{
    assert(!modifiers.contains('/')) by {
        if modifiers.contains('/') {
            let k = choose|k: int| 0 <= k < modifiers.len() && modifiers[k] == '/';
            assert(is_alphanumeric(modifiers[k]));
        }
    }
    lemma_pcre_tail(negate, pattern, modifiers, rest);
    let close = seq!['"'] + rest;
    let tail = modifiers + close;
    assert(close.skip(1) =~= rest);
    lemma_no_space(close);
    if modifiers.len() == 0 {
        assert(tail =~= close);
        assert(modifiers =~= Seq::<char>::empty());
    } else {
        assert(is_alphanumeric(modifiers[0]));
        assert(tail[0] == modifiers[0]);
        lemma_no_space(tail);
        assert forall|k: int| 0 <= k < modifiers.len() implies alphanumeric()(#[trigger] modifiers[k]) by {
            assert(is_alphanumeric(modifiers[k]));
        }
        lemma_run_len_prefix(modifiers, close, alphanumeric());
        lemma_run_len_unique(close, alphanumeric(), 0);
        assert(tail.skip(modifiers.len() as int) =~= close);
        assert(tail.take(modifiers.len() as int) =~= modifiers);
    }
}

/// Whether `t` can name a variable that an expression captures.
pub open spec fn is_capture(t: Seq<char>) -> bool {
    trimmed(t) == t && !t.contains(',') && !t.contains('"') && !t.contains('/')
}

/// An expression with modifiers and captured variables is read back.
pub proof fn law_pcre_with_captures_reads_back(
    negate: bool,
    pattern: Seq<char>,
    modifiers: Seq<char>,
    vars: Seq<Seq<char>>,
    rest: Seq<char>,
)
    requires
        modifiers.len() > 0,
        forall|k: int| 0 <= k < modifiers.len() ==> is_alphanumeric(#[trigger] modifiers[k]),
        vars.len() > 0,
        forall|k: int| 0 <= k < vars.len() ==> is_capture(#[trigger] vars[k]),
        !rest.contains('/'),
    ensures
        spec_parse_pcre(
            render_pcre(negate, pattern, modifiers + (seq![','] + join(vars, ','))) + rest,
        ) == accept(rest, PcreView { negate, pattern, modifiers, vars }),
{
    let names = join(vars, ',');
    let end = modifiers + (seq![','] + names);
    assert forall|k: int| 0 <= k < vars.len() implies !#[trigger] vars[k].contains('/') by {
        assert(is_capture(vars[k]));
    }
    assert forall|k: int| 0 <= k < vars.len() implies !#[trigger] vars[k].contains('"') by {
        assert(is_capture(vars[k]));
    }
    assert forall|k: int| 0 <= k < vars.len() implies trimmed(#[trigger] vars[k]) == vars[k]
        && !vars[k].contains(',') by {
        assert(is_capture(vars[k]));
    }
    lemma_join_holds(vars, ',', '/');
    lemma_join_holds(vars, ',', '"');
    assert(!end.contains('/')) by {
        if end.contains('/') {
            let k = choose|k: int| 0 <= k < end.len() && end[k] == '/';
            if k < modifiers.len() {
                assert(is_alphanumeric(modifiers[k]));
            } else if k > modifiers.len() {
                assert(names[k - modifiers.len() - 1] == '/');
            }
        }
    }
    lemma_pcre_tail(negate, pattern, end, rest);
    let close = seq!['"'] + rest;
    let tail = end + close;
    let list = seq![','] + (names + close);
    assert(tail =~= modifiers + list);
    assert(is_alphanumeric(modifiers[0]));
    assert(tail[0] == modifiers[0]);
    lemma_no_space(tail);
    assert forall|k: int| 0 <= k < modifiers.len() implies alphanumeric()(#[trigger] modifiers[k]) by {
        assert(is_alphanumeric(modifiers[k]));
    }
    lemma_run_len_prefix(modifiers, list, alphanumeric());
    lemma_run_len_unique(list, alphanumeric(), 0);
    assert(tail.skip(modifiers.len() as int) =~= list);
    assert(tail.take(modifiers.len() as int) =~= modifiers);
    lemma_no_space(list);
    assert(list.skip(1) =~= names + close);
    lemma_until(names, '"', rest);
    assert((names + close).skip(names.len() as int) =~= close);
    assert((names + close).take(names.len() as int) =~= names);
    lemma_split_trimmed_join(vars, ',');
    lemma_no_space(close);
    assert(close.skip(1) =~= rest);
}

pub proof fn lemma_first_invalid(options: Seq<Seq<char>>)
    ensures
        first_invalid(options) is None <==> forall|k: int|
            0 <= k < options.len() ==> is_isdataat_flag(#[trigger] options[k]),
    decreases options.len(),
{
    if options.len() > 0 {
        let others = options.skip(1);
        lemma_first_invalid(others);
        assert forall|k: int| 0 <= k < others.len() implies #[trigger] others[k] == options[k + 1] by {}
        if is_isdataat_flag(options[0]) {
            if first_invalid(others) is None {
                assert forall|k: int| 0 <= k < options.len() implies is_isdataat_flag(
                    #[trigger] options[k],
                ) by {
                    if k > 0 {
                        assert(others[k - 1] == options[k]);
                    }
                }
            } else {
                let k = choose|k: int| 0 <= k < others.len() && !is_isdataat_flag(#[trigger] others[k]);
                assert(!is_isdataat_flag(options[k + 1]));
            }
        }
    }
}

/// An isdataat option is accepted if and only if it has a position and each text between
/// commas behind it is a flag.
pub proof fn law_isdataat_accepts_flags(input: Seq<char>)
    ensures
        spec_parse_isdataat(input) is Ok <==> (spec_parse_token(
            after_negation(input),
        ) matches Ok((rest, _)) && forall|k: int|
            0 <= k < split_trimmed(rest, ',').len() ==> is_isdataat_flag(
                #[trigger] split_trimmed(rest, ',')[k],
            )),
{
    if let Ok((rest, _)) = spec_parse_token(after_negation(input)) {
        let options = split_trimmed(rest, ',');
        lemma_first_invalid(options);
    }
}

/// `input` without leading spaces and without the `!` behind them.
pub open spec fn after_negation(input: Seq<char>) -> Seq<char> {
    let s = skip_space(input);
    if head_is(s, '!') {
        s.skip(1)
    } else {
        s
    }
}

/// A flag is trimmed and holds no comma.
proof fn lemma_flag(t: Seq<char>)
    requires
        is_isdataat_flag(t),
    ensures
        trimmed(t) == t,
        !t.contains(','),
{
    reveal_strlit("relative");
    reveal_strlit("rawbytes");
    lemma_run_len_unique(t, white(), 0);
    assert(t.skip(0) =~= t);
    if t.contains(',') {
        let k = choose|k: int| 0 <= k < t.len() && t[k] == ',';
        assert(k == 0 || k == 1 || k == 2 || k == 3 || k == 4 || k == 5 || k == 6 || k == 7);
    }
}

/// The text of an isdataat option: `!` if it is negated, the position, and each flag
/// behind a comma.
pub open spec fn render_isdataat(negate: bool, position: Seq<char>, flags: Seq<Seq<char>>) -> Seq<char> {
    let text = if flags.len() == 0 {
        position
    } else {
        position + (seq![','] + join(flags, ','))
    };
    if negate {
        seq!['!'] + text
    } else {
        text
    }
}

/// An isdataat option is read back: the position as a number if it is one and as a name
/// otherwise, and each flag if it is listed.
pub proof fn law_isdataat_reads_back(negate: bool, position: Seq<char>, flags: Seq<Seq<char>>)
    requires
        position.len() > 0,
        negate || position[0] != '!',
        forall|k: int| 0 <= k < position.len() ==> !ends_token(#[trigger] position[k]),
        forall|k: int| 0 <= k < flags.len() ==> is_isdataat_flag(#[trigger] flags[k]),
    ensures
        spec_parse_isdataat(render_isdataat(negate, position, flags)) == accept(
            Seq::<char>::empty(),
            IsDataAtView {
                negate,
                position: position_of(position),
                relative: flags.contains("relative"@),
                rawbytes: flags.contains("rawbytes"@),
            },
        ),
{
    reveal_strlit("relative");
    reveal_strlit("rawbytes");
    let empty = Seq::<char>::empty();
    let options = seq![empty] + flags;
    let rest = if flags.len() == 0 {
        empty
    } else {
        seq![','] + join(flags, ',')
    };
    let text = position + rest;
    if flags.len() == 0 {
        assert(text =~= position);
    }
    lemma_token_reads_back(position, rest);
    let all = render_isdataat(negate, position, flags);
    if negate {
        assert(all =~= seq!['!'] + text);
        lemma_no_space(all);
        assert(all.skip(1) =~= text);
    } else {
        assert(all =~= text);
        assert(text[0] == position[0]);
    }
    assert(is_isdataat_flag(empty));
    assert forall|k: int| 0 <= k < options.len() implies is_isdataat_flag(#[trigger] options[k])
        && trimmed(options[k]) == options[k] && !options[k].contains(',') by {
        if k > 0 {
            assert(options[k] == flags[k - 1]);
        }
        lemma_flag(options[k]);
    }
    assert(join(options, ',') =~= rest) by {
        if flags.len() > 0 {
            assert(options.skip(1) =~= flags);
        }
    }
    lemma_split_trimmed_join(options, ',');
    lemma_first_invalid(options);
    assert forall|t: Seq<char>| t.len() > 0 implies #[trigger] options.contains(t) == flags.contains(t) by {
        if flags.contains(t) {
            let k = choose|k: int| 0 <= k < flags.len() && flags[k] == t;
            assert(options[k + 1] == t);
        }
        if options.contains(t) {
            let k = choose|k: int| 0 <= k < options.len() && options[k] == t;
            assert(flags[k - 1] == t);
        }
    }
    assert("relative"@.len() > 0 && "rawbytes"@.len() > 0);
}

/// A single word in place of an array is read back behind a `!` as the element that
/// excludes it, and without as the only element, unless its start is taken for a `!` or
/// for white space.
pub proof fn law_scalar_reads_back(t: Seq<char>, rest: Seq<char>)
    requires
        t.len() > 0,
        t[0] != '[',
        forall|k: int| 0 <= k < t.len() ==> !is_space(#[trigger] t[k]),
        rest.len() == 0 || is_space(rest[0]),
    ensures
        t[0] != '!' && !is_white(t[0]) ==> spec_parse_array(t + rest) == accept(
            rest,
            seq![Element::Text(t)],
        ),
        spec_parse_array(seq!['!'] + (t + rest)) == accept(
            rest,
            seq![Element::Not(Box::new(Element::Text(t)))],
        ),
{
    let all = t + rest;
    assert(all[0] == t[0]);
    if !is_white(t[0]) {
        lemma_run_len_unique(all, white(), 0);
        assert(all.skip(0) =~= all);
    }
    assert forall|k: int| 0 <= k < t.len() implies word()(#[trigger] t[k]) by {
        assert(!is_space(t[k]));
    }
    assert(!is_space(t[0]));
    law_run_reads_back(word(), t, rest);
    let negated = seq!['!'] + all;
    lemma_run_len_unique(negated, white(), 0);
    assert(negated.skip(0) =~= negated);
    assert(negated.skip(1) =~= all);
}

} // verus!
