//! What a parser returns: the remaining input and a value, or an error that
//! says what went wrong and where.

use vstd::prelude::*;

verus! {

/// The leaf parser that did not match.
#[derive(Debug, PartialEq, Eq, Clone, Copy, Structural)]
pub enum NomErrorKind {
    /// A fixed text was expected.
    Tag,
    /// A character outside a set was expected.
    IsNot,
    /// A character of a set was expected.
    OneOf,
    /// A letter or a digit was expected.
    AlphaNumeric,
    /// A fixed text was expected somewhere in the input.
    TakeUntil,
}

/// What went wrong.
#[derive(Debug, PartialEq, Eq, Clone)]
pub enum ErrorKind {
    UnterminatedArray,
    UnterminatedRuleOptionValue,
    BadNumber,
    UnexpectedCharacter,
    Invalid,
    Other(&'static str),
    Nom(NomErrorKind),
}

/// What went wrong, and the input at which it did.
#[derive(Debug, PartialEq, Eq, Clone)]
pub struct ParseError<I> {
    pub kind: ErrorKind,
    pub input: I,
}

/// The error of a leaf parser that is used on its own.
#[derive(Debug, PartialEq, Eq, Clone)]
pub struct LeafError<I> {
    pub input: I,
    pub code: NomErrorKind,
}

/// How a parser rejects its input.
#[derive(Debug, PartialEq, Eq, Clone)]
pub enum Rejection<E> {
    /// Another parser may be tried on the same input.
    Error(E),
    /// No other parser should be tried.
    Failure(E),
}

/// The remaining input and the parsed value, or a rejection.
pub type IResult<I, O, E> = Result<(I, O), Rejection<E>>;

/// The result of a parser, over characters.
pub type Parsed<T> = Result<(Seq<char>, T), Rejection<ParseError<Seq<char>>>>;

/// The rejection that every parser of this crate gives: the error of kind `kind`
/// at `input`, after which another parser may be tried.
pub open spec fn reject<T>(kind: ErrorKind, input: Seq<char>) -> Parsed<T> {
    Err(Rejection::Error(ParseError { kind, input }))
}

/// The value `value`, with `rest` remaining.
pub open spec fn accept<T>(rest: Seq<char>, value: T) -> Parsed<T> {
    Ok((rest, value))
}

/// A rejection, over characters.
pub open spec fn rejection_view(e: Rejection<ParseError<&str>>) -> Rejection<ParseError<Seq<char>>> {
    match e {
        Rejection::Error(e) => Rejection::Error(ParseError { kind: e.kind, input: e.input@ }),
        Rejection::Failure(e) => Rejection::Failure(ParseError { kind: e.kind, input: e.input@ }),
    }
}

/// The result of a parser, with its value replaced by that value's model.
pub open spec fn outcome<'a, O: View>(r: IResult<&'a str, O, ParseError<&'a str>>) -> Parsed<O::V> {
    match r {
        Ok((rest, value)) => Ok((rest@, value@)),
        Err(e) => Err(rejection_view(e)),
    }
}

/// The result of a parser, with its value replaced by what `model` makes of it.
pub open spec fn outcome_with<'a, O, T>(
    r: IResult<&'a str, O, ParseError<&'a str>>,
    model: spec_fn(O) -> T,
) -> Parsed<T> {
    match r {
        Ok((rest, value)) => Ok((rest@, model(value))),
        Err(e) => Err(rejection_view(e)),
    }
}

/// The result of a leaf parser that is used on its own, over characters.
pub open spec fn leaf_outcome<'a>(r: IResult<&'a str, &'a str, LeafError<&'a str>>) -> Result<
    (Seq<char>, Seq<char>),
    Rejection<LeafError<Seq<char>>>,
> {
    match r {
        Ok((rest, value)) => Ok((rest@, value@)),
        Err(Rejection::Error(e)) => Err(
            Rejection::Error(LeafError { input: e.input@, code: e.code }),
        ),
        Err(Rejection::Failure(e)) => Err(
            Rejection::Failure(LeafError { input: e.input@, code: e.code }),
        ),
    }
}

impl NomErrorKind {
    /// The name under which the leaf parser is reported.
    pub open spec fn name(self) -> Seq<char> {
        match self {
            NomErrorKind::Tag => "Tag"@,
            NomErrorKind::IsNot => "IsNot"@,
            NomErrorKind::OneOf => "OneOf"@,
            NomErrorKind::AlphaNumeric => "AlphaNumeric"@,
            NomErrorKind::TakeUntil => "Take until"@,
        }
    }

    /// `nom::error::ErrorKind::description`: the fixed text by which nom names
    /// one of its parsers.
    #[verifier::external_body]
    fn description(&self) -> (r: String)
        ensures
            r@ == self.name(),
    {
        match self {
            NomErrorKind::Tag => nom::error::ErrorKind::Tag.description().to_string(),
            NomErrorKind::IsNot => nom::error::ErrorKind::IsNot.description().to_string(),
            NomErrorKind::OneOf => nom::error::ErrorKind::OneOf.description().to_string(),
            NomErrorKind::AlphaNumeric => nom::error::ErrorKind::AlphaNumeric.description().to_string(),
            NomErrorKind::TakeUntil => nom::error::ErrorKind::TakeUntil.description().to_string(),
        }
    }
}

/// The text that describes an error of the parser of `nom` that goes by `description`.
pub fn nom_message(description: &str) -> (r: String)
    ensures
        r@ == "nom error: "@ + description@,
{
    "nom error: ".to_owned().concat(description)
}

impl ErrorKind {
    /// The text that describes the error.
    pub open spec fn text(self) -> Seq<char> {
        match self {
            ErrorKind::UnterminatedArray => "unterminated array"@,
            ErrorKind::UnterminatedRuleOptionValue => "unterminated rule option value"@,
            ErrorKind::BadNumber => "bad number"@,
            ErrorKind::UnexpectedCharacter => "unexpected character"@,
            ErrorKind::Other(s) => s@,
            ErrorKind::Nom(kind) => "nom error: "@ + kind.name(),
            ErrorKind::Invalid => "invalid"@,
        }
    }

    /// The text that describes the error.
    pub fn message(&self) -> (r: String)
        ensures
            r@ == self.text(),
    {
        match self {
            ErrorKind::UnterminatedArray => "unterminated array".to_owned(),
            ErrorKind::UnterminatedRuleOptionValue => "unterminated rule option value".to_owned(),
            ErrorKind::BadNumber => "bad number".to_owned(),
            ErrorKind::UnexpectedCharacter => "unexpected character".to_owned(),
            ErrorKind::Other(s) => (*s).to_owned(),
            ErrorKind::Nom(kind) => nom_message(kind.description().as_str()),
            ErrorKind::Invalid => "invalid".to_owned(),
        }
    }
}

impl<I> ParseError<I> {
    /// The error of a leaf parser of kind `kind` at `input`.
    pub fn from_error_kind(input: I, kind: NomErrorKind) -> (r: Self)
        ensures
            r.kind == ErrorKind::Nom(kind),
            r.input == input,
    {
        ParseError { kind: ErrorKind::Nom(kind), input }
    }

    /// The error to report when a parser of kind `kind` failed at `input` because
    /// of `other`: the inner error alone.
    pub fn append(_input: I, _kind: NomErrorKind, other: Self) -> (r: Self)
        ensures
            r == other,
    {
        other
    }
}

/// The error that a rejection carries, for use outside a chain of parsers.
impl<'a> From<Rejection<ParseError<&'a str>>> for ParseError<&'a str> {
    fn from(err: Rejection<ParseError<&'a str>>) -> (r: Self) {
        match err {
            Rejection::Error(e) => e,
            Rejection::Failure(e) => e,
        }
    }
}

impl<'a> vstd::std_specs::convert::FromSpecImpl<Rejection<ParseError<&'a str>>> for ParseError<&'a str> {
    open spec fn obeys_from_spec() -> bool {
        true
    }

    open spec fn from_spec(err: Rejection<ParseError<&'a str>>) -> Self {
        match err {
            Rejection::Error(e) => e,
            Rejection::Failure(e) => e,
        }
    }
}

} // verus!
