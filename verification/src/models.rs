//! What the models say of the values they stand for: each part of a value is a part of its
//! model, and nothing else is.

use vstd::prelude::*;

use crate::array::{marks_view, stack_view};
use crate::error::{
    accept, leaf_outcome, outcome, outcome_with, reject, ErrorKind, LeafError, NomErrorKind,
    ParseError, Rejection,
};
use crate::integer::Integer;
use crate::number::number_or_reference;
use crate::text::{strings, texts};
use crate::types::{
    element, elements, ArrayElement, Content, Direction, Element, Flow, Flowbits, IsDataAt,
    IsDataAtPosition, IsDataAtPositionView, NumberOrReference, NumberOrReferenceView, Pcre,
    Reference,
};

verus! {

/// A result is modelled by the characters that remain and the model of the value, and a
/// rejection by its kind and the characters it names.
pub proof fn law_results_are_modelled_part_by_part<'a, O: View, T>(
    rest: &'a str,
    value: O,
    model: spec_fn(O) -> T,
    kind: ErrorKind,
    input: &'a str,
)
    ensures
        outcome::<O>(Ok((rest, value))) == Ok::<_, Rejection<ParseError<Seq<char>>>>(
            (rest@, value@),
        ),
        outcome_with(Ok((rest, value)), model) == Ok::<_, Rejection<ParseError<Seq<char>>>>(
            (rest@, model(value)),
        ),
        outcome::<O>(Err(Rejection::Error(ParseError { kind, input }))) == Err::<
            (Seq<char>, O::V),
            _,
        >(Rejection::Error(ParseError { kind, input: input@ })),
        outcome_with(Err(Rejection::Error(ParseError { kind, input })), model) == Err::<
            (Seq<char>, T),
            _,
        >(Rejection::Error(ParseError { kind, input: input@ })),
        outcome::<O>(Err(Rejection::Failure(ParseError { kind, input }))) == Err::<
            (Seq<char>, O::V),
            _,
        >(Rejection::Failure(ParseError { kind, input: input@ })),
{
}

/// The result of a leaf parser is modelled by its characters and the kind of its error.
pub proof fn law_leaf_results_are_modelled_part_by_part<'a>(
    rest: &'a str,
    value: &'a str,
    code: NomErrorKind,
)
    ensures
        leaf_outcome(Ok((rest, value))) == Ok::<_, Rejection<LeafError<Seq<char>>>>(
            (rest@, value@),
        ),
        leaf_outcome(Err(Rejection::Error(LeafError { input: rest, code }))) == Err::<
            (Seq<char>, Seq<char>),
            _,
        >(Rejection::Error(LeafError { input: rest@, code })),
{
}

/// Accepting gives what remains and the value; rejecting gives a recoverable error of that
/// kind at that input.
pub proof fn law_accept_and_reject<T>(rest: Seq<char>, value: T, kind: ErrorKind)
    ensures
        accept(rest, value) == Ok::<_, Rejection<ParseError<Seq<char>>>>((rest, value)),
        reject::<T>(kind, rest) == Err::<(Seq<char>, T), _>(
            Rejection::Error(ParseError { kind, input: rest }),
        ),
{
}

/// The model of an array element has its shape and its texts.
pub proof fn law_elements_are_modelled_one_by_one(
    s: String,
    v: Vec<ArrayElement>,
    inner: Box<ArrayElement>,
)
    ensures
        ArrayElement::String(s)@ == Element::Text(s@),
        ArrayElement::Array(v)@ == Element::List(elements(v@)),
        ArrayElement::Not(inner)@ == Element::Not(Box::new(element(*inner))),
        elements(v@).len() == v@.len(),
        forall|k: int| 0 <= k < v@.len() ==> #[trigger] elements(v@)[k] == v@[k]@,
{
}

/// The models of lists have the models of their members, in their order.
pub proof fn law_lists_are_modelled_one_by_one(
    t: Seq<&str>,
    s: Seq<String>,
    stack: Seq<Vec<ArrayElement>>,
    marks: Seq<usize>,
)
    ensures
        texts(t).len() == t.len(),
        forall|k: int| 0 <= k < t.len() ==> #[trigger] texts(t)[k] == t[k]@,
        strings(s).len() == s.len(),
        forall|k: int| 0 <= k < s.len() ==> #[trigger] strings(s)[k] == s[k]@,
        stack_view(stack).len() == stack.len(),
        forall|k: int| 0 <= k < stack.len() ==> #[trigger] stack_view(stack)[k] == elements(stack[k]@),
        marks_view(marks).len() == marks.len(),
        forall|k: int| 0 <= k < marks.len() ==> #[trigger] marks_view(marks)[k] == marks[k],
{
}

/// The model of an option has the model of each of its fields.
pub proof fn law_options_are_modelled_field_by_field(
    content: Content,
    pcre: Pcre,
    isdataat: IsDataAt,
    flowbits: Flowbits,
    reference: Reference,
)
    ensures
        content@.pattern == content.pattern@,
        content@.negated == content.negated,
        pcre@.negate == pcre.negate,
        pcre@.pattern == pcre.pattern@,
        pcre@.modifiers == pcre.modifiers@,
        pcre@.vars == strings(pcre.vars@),
        isdataat@.negate == isdataat.negate,
        isdataat@.position == isdataat.position@,
        isdataat@.relative == isdataat.relative,
        isdataat@.rawbytes == isdataat.rawbytes,
        flowbits@.command == flowbits.command,
        flowbits@.names == strings(flowbits.names@),
        reference@.scheme == reference.scheme@,
        reference@.reference == reference.reference@,
{
}

/// Positions, numbers and names are modelled by their values and characters; a flow and a
/// direction are their own models; and no flag of an empty flow is set.
pub proof fn law_plain_values_are_their_models<T: Integer>(
    position: u64,
    number: T,
    name: String,
    flow: Flow,
    direction: Direction,
)
    ensures
        IsDataAtPosition::Position(position)@ == IsDataAtPositionView::Position(position as int),
        IsDataAtPosition::Identifier(name)@ == IsDataAtPositionView::Identifier(name@),
        number_or_reference(NumberOrReference::Number(number)) == NumberOrReferenceView::Number(
            number.int_value(),
        ),
        number_or_reference(NumberOrReference::<T>::Name(name)) == NumberOrReferenceView::Name(name@),
        flow@ == flow,
        direction@ == direction,
        !Flow::none().not_established && !Flow::none().established && !Flow::none().from_client,
        !Flow::none().from_server && !Flow::none().no_frag && !Flow::none().no_stream,
        !Flow::none().only_frag && !Flow::none().only_stream && !Flow::none().stateless,
        !Flow::none().to_client && !Flow::none().to_server,
{
}

/// Each integer type holds the integers between its bounds, and each value stands for
/// itself.
pub proof fn law_integers_stand_for_themselves(
    a: (u8, u16, u32, u64, u128, usize),
    b: (i8, i16, i32, i64, i128, isize),
)
    ensures
        a.0.int_value() == a.0 && a.1.int_value() == a.1 && a.2.int_value() == a.2,
        a.3.int_value() == a.3 && a.4.int_value() == a.4 && a.5.int_value() == a.5,
        b.0.int_value() == b.0 && b.1.int_value() == b.1 && b.2.int_value() == b.2,
        b.3.int_value() == b.3 && b.4.int_value() == b.4 && b.5.int_value() == b.5,
        u8::min_int() == u8::MIN && u8::max_int() == u8::MAX,
        u16::min_int() == u16::MIN && u16::max_int() == u16::MAX,
        u32::min_int() == u32::MIN && u32::max_int() == u32::MAX,
        u64::min_int() == u64::MIN && u64::max_int() == u64::MAX,
        u128::min_int() == u128::MIN && u128::max_int() == u128::MAX,
        usize::min_int() == usize::MIN && usize::max_int() == usize::MAX,
        i8::min_int() == i8::MIN && i8::max_int() == i8::MAX,
        i16::min_int() == i16::MIN && i16::max_int() == i16::MAX,
        i32::min_int() == i32::MIN && i32::max_int() == i32::MAX,
        i64::min_int() == i64::MIN && i64::max_int() == i64::MAX,
        i128::min_int() == i128::MIN && i128::max_int() == i128::MAX,
        isize::min_int() == isize::MIN && isize::max_int() == isize::MAX,
{
}

/// The text of each kind of error; a kind of `nom` is named behind the same words.
pub proof fn law_error_texts(s: &'static str, kind: NomErrorKind)
    ensures
        ErrorKind::UnterminatedArray.text() == "unterminated array"@,
        ErrorKind::UnterminatedRuleOptionValue.text() == "unterminated rule option value"@,
        ErrorKind::BadNumber.text() == "bad number"@,
        ErrorKind::UnexpectedCharacter.text() == "unexpected character"@,
        ErrorKind::Invalid.text() == "invalid"@,
        ErrorKind::Other(s).text() == s@,
        ErrorKind::Nom(kind).text() == "nom error: "@ + kind.name(),
{
}

/// The error of a rejection is the one that it carries.
pub proof fn law_error_of_a_rejection<'a>(e: ParseError<&'a str>)
    ensures
        <ParseError<&'a str> as vstd::std_specs::convert::FromSpec<
            Rejection<ParseError<&'a str>>,
        >>::from_spec(Rejection::Error(e)) == e,
        <ParseError<&'a str> as vstd::std_specs::convert::FromSpec<
            Rejection<ParseError<&'a str>>,
        >>::from_spec(Rejection::Failure(e)) == e,
{
}

} // verus!
