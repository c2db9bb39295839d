//! The flowbits option: a command and the names of the bits it works on.

use vstd::prelude::*;

use crate::error::{
    outcome, reject, ErrorKind, IResult, NomErrorKind, ParseError, Parsed, Rejection,
};
use crate::leaf::{alphanumeric, alphanumeric1, lemma_prefix_one, skip_spaces, tag};
use crate::text::{
    head_is, run_len, same_text, skip_space, split_to_trimmed, split_trimmed, strings,
};
use crate::types::{FlowbitCommand, Flowbits, FlowbitsView};

verus! {

/// The command that `t` names.
pub open spec fn flowbit_command(t: Seq<char>) -> Option<FlowbitCommand> {
    if t == "noalert"@ {
        Some(FlowbitCommand::NoAlert)
    } else if t == "set"@ {
        Some(FlowbitCommand::SetBit)
    } else if t == "unset"@ {
        Some(FlowbitCommand::Unset)
    } else if t == "toggle"@ {
        Some(FlowbitCommand::Toggle)
    } else if t == "isnotset"@ {
        Some(FlowbitCommand::IsNotSet)
    } else if t == "isset"@ {
        Some(FlowbitCommand::IsSet)
    } else {
        None
    }
}

/// What a flowbits option is, whose command is `command`, whose names, if it has
/// any, are `names`, and behind which `rest` remains.
pub open spec fn spec_flowbits(
    command: Seq<char>,
    names: Option<Seq<char>>,
    rest: Seq<char>,
) -> Parsed<FlowbitsView> {
    match (flowbit_command(command), names) {
        (None, _) => reject(ErrorKind::Other("invalid flowbits command"), command),
        (Some(FlowbitCommand::NoAlert), Some(_)) => reject(
            ErrorKind::Other("noalert does not take arguments"),
            rest,
        ),
        (Some(FlowbitCommand::NoAlert), None) => Ok(
            (rest, FlowbitsView { command: FlowbitCommand::NoAlert, names: seq![] }),
        ),
        (Some(_), None) => reject(ErrorKind::Other("argument required"), rest),
        (Some(command), Some(names)) => Ok(
            (rest, FlowbitsView { command, names: split_trimmed(names, '|') }),
        ),
    }
}

/// What `parse_flowbits` returns.
pub open spec fn spec_parse_flowbits(input: Seq<char>) -> Parsed<FlowbitsView> {
    let s = skip_space(input);
    let n = run_len(s, alphanumeric()) as int;
    if n == 0 {
        reject(ErrorKind::Nom(NomErrorKind::AlphaNumeric), s)
    } else if head_is(s.skip(n), ',') {
        spec_flowbits(s.take(n), Some(skip_space(s.skip(n).skip(1))), seq![])
    } else {
        spec_flowbits(s.take(n), None, s.skip(n))
    }
}

/// The command that `name` names.
fn parse_command(name: &str) -> (r: Option<FlowbitCommand>)
    ensures
        r == flowbit_command(name@),
{
    if same_text(name, "noalert") {
        Some(FlowbitCommand::NoAlert)
    } else if same_text(name, "set") {
        Some(FlowbitCommand::SetBit)
    } else if same_text(name, "unset") {
        Some(FlowbitCommand::Unset)
    } else if same_text(name, "toggle") {
        Some(FlowbitCommand::Toggle)
    } else if same_text(name, "isnotset") {
        Some(FlowbitCommand::IsNotSet)
    } else if same_text(name, "isset") {
        Some(FlowbitCommand::IsSet)
    } else {
        None
    }
}

/// Parse the value of a flowbits option.
pub fn parse_flowbits<'a>(input: &'a str) -> (r: IResult<&'a str, Flowbits, ParseError<&'a str>>)
    ensures
        outcome(r) == spec_parse_flowbits(input@),
{
    proof {
        reveal_strlit(",");
        reveal_strlit("");
        assert(","@ == seq![',']);
        assert(""@ =~= Seq::<char>::empty());
    }
    let start: &'a str = skip_spaces(input);
    let (after, name) = match alphanumeric1(start) {
        Some(found) => found,
        None => {
            return Err(
                Rejection::Error(ParseError::from_error_kind(start, NomErrorKind::AlphaNumeric)),
            );
        },
    };
    proof {
        lemma_prefix_one(after@, ',');
    }
    let (input, names): (&'a str, Option<&'a str>) = match tag(",", after) {
        Some((rest, _)) => ("", Some(skip_spaces(rest))),
        None => (after, None),
    };
    let command = match parse_command(name) {
        Some(command) => command,
        None => {
            return Err(
                Rejection::Error(
                    ParseError { kind: ErrorKind::Other("invalid flowbits command"), input: name },
                ),
            );
        },
    };
    match command {
        FlowbitCommand::IsNotSet
        | FlowbitCommand::Unset
        | FlowbitCommand::Toggle
        | FlowbitCommand::IsSet
        | FlowbitCommand::SetBit => match names {
            Some(names) => {
                let names: Vec<String> = split_to_trimmed(names, '|');
                Ok((input, Flowbits { command, names }))
            },
            None => Err(
                Rejection::Error(ParseError { kind: ErrorKind::Other("argument required"), input }),
            ),
        },
        FlowbitCommand::NoAlert => match names {
            Some(_) => Err(
                Rejection::Error(
                    ParseError { kind: ErrorKind::Other("noalert does not take arguments"), input },
                ),
            ),
            None => {
                let names: Vec<String> = Vec::new();
                assert(strings(names@) =~= Seq::<Seq<char>>::empty());
                Ok((input, Flowbits { command, names }))
            },
        },
    }
}

} // verus!
