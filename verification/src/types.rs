//! The values that the parsers produce, and their models.

use vstd::prelude::*;

use crate::text::strings;

verus! {

/// The direction of the traffic that a rule applies to.
#[derive(Debug, PartialEq, Eq, Clone, Copy, Structural)]
pub enum Direction {
    /// `->`
    Single,
    /// `<>`
    Both,
}

impl View for Direction {
    type V = Direction;

    open spec fn view(&self) -> Direction {
        *self
    }
}

/// An element of an address or port array.
#[derive(Debug, PartialEq, Eq)]
pub enum ArrayElement {
    String(String),
    Array(Vec<ArrayElement>),
    Not(Box<ArrayElement>),
}

/// The model of an array element.
pub enum Element {
    Text(Seq<char>),
    List(Seq<Element>),
    Not(Box<Element>),
}

/// The model of an array element.
pub open spec fn element(e: ArrayElement) -> Element
    decreases e,
{
    match e {
        ArrayElement::String(s) => Element::Text(s@),
        ArrayElement::Array(v) => Element::List(elements(v@)),
        ArrayElement::Not(inner) => Element::Not(Box::new(element(*inner))),
    }
}

/// The models of the elements of an array.
pub open spec fn elements(v: Seq<ArrayElement>) -> Seq<Element>
    decreases v,
{
    Seq::new(
        v.len(),
        |i: int|
            if 0 <= i < v.len() {
                element(v[i])
            } else {
                arbitrary()
            },
    )
}

impl View for ArrayElement {
    type V = Element;

    open spec fn view(&self) -> Element {
        element(*self)
    }
}

impl Clone for ArrayElement {
    fn clone(&self) -> (r: Self)
        ensures
            r@ == self@,
        decreases self,
    {
        match self {
            ArrayElement::String(s) => ArrayElement::String(s.clone()),
            ArrayElement::Array(v) => {
                let mut copy: Vec<ArrayElement> = Vec::new();
                let mut i: usize = 0;
                while i < v.len()
                    invariant
                        i == copy@.len(),
                        i <= v@.len(),
                        decreases_to!(self => v),
                        forall|k: int| 0 <= k < i ==> #[trigger] element(copy@[k]) == element(v@[k]),
                    decreases v@.len() - i,
                {
                    assert(decreases_to!(v@ => v@[i as int]));
                    let e = v[i].clone();
                    copy.push(e);
                    i = i + 1;
                }
                assert forall|k: int| 0 <= k < v@.len() implies elements(copy@)[k] == elements(v@)[k] by {
                    assert(element(copy@[k]) == element(v@[k]));
                }
                assert(elements(copy@) == elements(v@));
                ArrayElement::Array(copy)
            },
            ArrayElement::Not(inner) => ArrayElement::Not(Box::new((**inner).clone())),
        }
    }
}

impl ArrayElement {
    /// The element that excludes the text `s`.
    pub fn not_string(s: String) -> (r: Self)
        ensures
            element(r) == Element::Not(Box::new(Element::Text(s@))),
    {
        let r = ArrayElement::Not(Box::new(ArrayElement::String(s)));
        proof {
            reveal_with_fuel(element, 2);
        }
        r
    }

    /// The element that excludes every element of `v`.
    pub fn not_array(v: Vec<ArrayElement>) -> (r: Self)
        ensures
            element(r) == Element::Not(Box::new(Element::List(elements(v@)))),
    {
        let r = ArrayElement::Not(Box::new(ArrayElement::Array(v)));
        proof {
            reveal_with_fuel(element, 2);
        }
        r
    }
}

/// The pattern of a content option.
#[derive(Debug, PartialEq, Eq, Clone)]
pub struct Content {
    pub pattern: String,
    pub negated: bool,
}

/// The model of a `Content`.
pub struct ContentView {
    pub pattern: Seq<char>,
    pub negated: bool,
}

impl View for Content {
    type V = ContentView;

    open spec fn view(&self) -> ContentView {
        ContentView { pattern: self.pattern@, negated: self.negated }
    }
}

/// The keywords of a flow option.
#[derive(Debug, PartialEq, Eq, Clone, Copy, Structural)]
pub struct Flow {
    pub not_established: bool,
    pub established: bool,
    pub from_client: bool,
    pub from_server: bool,
    pub no_frag: bool,
    pub no_stream: bool,
    pub only_frag: bool,
    pub only_stream: bool,
    pub stateless: bool,
    pub to_client: bool,
    pub to_server: bool,
}

impl View for Flow {
    type V = Flow;

    open spec fn view(&self) -> Flow {
        *self
    }
}

impl Flow {
    /// No keyword.
    pub open spec fn none() -> Flow {
        Flow {
            not_established: false,
            established: false,
            from_client: false,
            from_server: false,
            no_frag: false,
            no_stream: false,
            only_frag: false,
            only_stream: false,
            stateless: false,
            to_client: false,
            to_server: false,
        }
    }
}

impl Default for Flow {
    fn default() -> (r: Self)
        ensures
            r == Flow::none(),
    {
        Flow {
            not_established: false,
            established: false,
            from_client: false,
            from_server: false,
            no_frag: false,
            no_stream: false,
            only_frag: false,
            only_stream: false,
            stateless: false,
            to_client: false,
            to_server: false,
        }
    }
}

/// A number, or the name of a variable that holds one.
#[derive(Debug, PartialEq, Eq, Clone)]
pub enum NumberOrReference<T> {
    Number(T),
    Name(String),
}

/// The model of a `NumberOrReference`.
pub enum NumberOrReferenceView {
    Number(int),
    Name(Seq<char>),
}

/// A regular expression option.
#[derive(Debug, PartialEq, Eq, Clone)]
pub struct Pcre {
    pub negate: bool,
    pub pattern: String,
    pub modifiers: String,
    pub vars: Vec<String>,
}

/// The model of a `Pcre`.
pub struct PcreView {
    pub negate: bool,
    pub pattern: Seq<char>,
    pub modifiers: Seq<char>,
    pub vars: Seq<Seq<char>>,
}

impl View for Pcre {
    type V = PcreView;

    open spec fn view(&self) -> PcreView {
        PcreView {
            negate: self.negate,
            pattern: self.pattern@,
            modifiers: self.modifiers@,
            vars: strings(self.vars@),
        }
    }
}

/// Where an isdataat option looks: a position, or the name of a variable.
#[derive(Debug, PartialEq, Eq, Clone)]
pub enum IsDataAtPosition {
    Position(u64),
    Identifier(String),
}

/// The model of an `IsDataAtPosition`.
pub enum IsDataAtPositionView {
    Position(int),
    Identifier(Seq<char>),
}

impl View for IsDataAtPosition {
    type V = IsDataAtPositionView;

    open spec fn view(&self) -> IsDataAtPositionView {
        match self {
            IsDataAtPosition::Position(n) => IsDataAtPositionView::Position(*n as int),
            IsDataAtPosition::Identifier(name) => IsDataAtPositionView::Identifier(name@),
        }
    }
}

/// An isdataat option.
#[derive(Debug, PartialEq, Eq, Clone)]
pub struct IsDataAt {
    pub negate: bool,
    pub position: IsDataAtPosition,
    pub relative: bool,
    pub rawbytes: bool,
}

/// The model of an `IsDataAt`.
pub struct IsDataAtView {
    pub negate: bool,
    pub position: IsDataAtPositionView,
    pub relative: bool,
    pub rawbytes: bool,
}

impl View for IsDataAt {
    type V = IsDataAtView;

    open spec fn view(&self) -> IsDataAtView {
        IsDataAtView {
            negate: self.negate,
            position: self.position@,
            relative: self.relative,
            rawbytes: self.rawbytes,
        }
    }
}

/// What a flowbits option does.
#[derive(Debug, PartialEq, Eq, Clone, Copy, Structural)]
pub enum FlowbitCommand {
    IsNotSet,
    IsSet,
    NoAlert,
    SetBit,
    Toggle,
    Unset,
}

/// A flowbits option.
#[derive(Debug, PartialEq, Eq, Clone)]
pub struct Flowbits {
    pub command: FlowbitCommand,
    pub names: Vec<String>,
}

/// The model of a `Flowbits`.
pub struct FlowbitsView {
    pub command: FlowbitCommand,
    pub names: Seq<Seq<char>>,
}

impl View for Flowbits {
    type V = FlowbitsView;

    open spec fn view(&self) -> FlowbitsView {
        FlowbitsView { command: self.command, names: strings(self.names@) }
    }
}

/// A reference option.
#[derive(Debug, PartialEq, Eq, Clone)]
pub struct Reference {
    pub scheme: String,
    pub reference: String,
}

/// The model of a `Reference`.
pub struct ReferenceView {
    pub scheme: Seq<char>,
    pub reference: Seq<char>,
}

impl View for Reference {
    type V = ReferenceView;

    open spec fn view(&self) -> ReferenceView {
        ReferenceView { scheme: self.scheme@, reference: self.reference@ }
    }
}

} // verus!
