//! Address and port arrays such as `[10.0.0.0/8,![10.1.0.0/16,10.2.0.1]]`.

use vstd::prelude::*;

use crate::error::{
    outcome, outcome_with, reject, ErrorKind, IResult, ParseError, Parsed, Rejection,
};
use crate::text::{head_is, split_text, starts_with_char, trimmed_end, trimmed_start};
use crate::types::{element, elements, ArrayElement, Element};
use crate::words::{spec_take_until_whitespace, take_until_whitespace};

verus! {

/// What has been read of an array so far.
pub struct ArrayState {
    /// The arrays that are open, the innermost last, each with its elements so far.
    pub open: Seq<Seq<Element>>,
    /// The text since the last element.
    pub token: Seq<char>,
    /// For each `!` that no element has taken yet, how many arrays were open there.
    pub marks: Seq<nat>,
}

/// Whether the last `!` that is still to be taken was read at depth `depth`.
pub open spec fn is_marked(marks: Seq<nat>, depth: nat) -> bool {
    marks.len() > 0 && marks.last() == depth
}

/// `open` with `e` at the end of the innermost array.
pub open spec fn push_innermost(open: Seq<Seq<Element>>, e: Element) -> Seq<Seq<Element>> {
    open.drop_last().push(open.last().push(e))
}

/// `e`, negated if the last `!` was read at depth `depth`.
pub open spec fn negate_if_marked(marks: Seq<nat>, depth: nat, e: Element) -> Element {
    if is_marked(marks, depth) {
        Element::Not(Box::new(e))
    } else {
        e
    }
}

/// The marks that are left once an element at depth `depth` took its own.
pub open spec fn take_mark(marks: Seq<nat>, depth: nat) -> Seq<nat> {
    if is_marked(marks, depth) {
        marks.drop_last()
    } else {
        marks
    }
}

impl ArrayState {
    /// Nothing read yet.
    pub open spec fn start() -> ArrayState {
        ArrayState { open: seq![], token: seq![], marks: seq![] }
    }

    /// How many arrays are open.
    pub open spec fn depth(self) -> nat {
        self.open.len()
    }

    /// The pending text becomes an element of the innermost array.
    pub open spec fn end_token(self) -> ArrayState {
        if self.token.len() == 0 {
            self
        } else {
            let e = negate_if_marked(self.marks, self.depth(), Element::Text(trimmed_end(self.token)));
            ArrayState {
                open: push_innermost(self.open, e),
                token: seq![],
                marks: take_mark(self.marks, self.depth()),
            }
        }
    }

    /// The innermost array, with no text pending, becomes an element of the array
    /// around it.
    pub open spec fn close(self) -> ArrayState {
        let outer = (self.depth() - 1) as nat;
        let e = negate_if_marked(self.marks, outer, Element::List(self.open.last()));
        ArrayState {
            open: push_innermost(self.open.drop_last(), e),
            token: self.token,
            marks: take_mark(self.marks, outer),
        }
    }

    /// The character `c` is read, unless it closes the outermost array.
    pub open spec fn step(self, c: char) -> ArrayState {
        if c == '[' {
            ArrayState { open: self.open.push(seq![]), ..self }
        } else if c == ']' {
            self.end_token().close()
        } else if c == ',' {
            self.end_token()
        } else if (c == ' ' || c == '\t') && self.token.len() == 0 {
            self
        } else if c == '!' && self.token.len() == 0 {
            ArrayState { marks: self.marks.push(self.depth()), ..self }
        } else {
            ArrayState { token: self.token.push(c), ..self }
        }
    }

    /// Reads `s` up to the `]` that closes the outermost array; what follows it, and
    /// the elements of that array.
    pub open spec fn read(self, s: Seq<char>) -> Option<(Seq<char>, Seq<Element>)>
        decreases s.len(),
    {
        if s.len() == 0 {
            None
        } else if s[0] == ']' && self.depth() == 1 {
            Some((s.skip(1), self.end_token().open[0]))
        } else {
            self.step(s[0]).read(s.skip(1))
        }
    }
}

/// What `parse_array` returns.
pub open spec fn spec_parse_array(input: Seq<char>) -> Parsed<Seq<Element>> {
    let s = trimmed_start(input);
    let negated = head_is(s, '!');
    let body = if negated {
        s.skip(1)
    } else {
        s
    };
    if head_is(body, '[') {
        match ArrayState::start().read(body) {
            Some((rest, list)) => Ok(
                (
                    rest,
                    if negated {
                        seq![Element::Not(Box::new(Element::List(list)))]
                    } else {
                        list
                    },
                ),
            ),
            None => reject(ErrorKind::UnterminatedArray, body),
        }
    } else {
        match spec_take_until_whitespace(body) {
            Ok((rest, scalar)) => Ok(
                (
                    rest,
                    if negated {
                        seq![Element::Not(Box::new(Element::Text(scalar)))]
                    } else {
                        seq![Element::Text(scalar)]
                    },
                ),
            ),
            Err(e) => Err(e),
        }
    }
}

/// The index just behind the `]` that closes the last of `depth` open arrays.
pub open spec fn closing_end(s: Seq<char>, depth: nat) -> Option<nat>
    decreases s.len(),
{
    if s.len() == 0 {
        None
    } else if s[0] == ']' && depth <= 1 {
        Some(1)
    } else {
        let inner = if s[0] == '[' {
            depth + 1
        } else if s[0] == ']' {
            (depth - 1) as nat
        } else {
            depth
        };
        match closing_end(s.skip(1), inner) {
            Some(n) => Some(n + 1),
            None => None,
        }
    }
}

/// `n` plus `more`.
spec fn add_to(n: Option<nat>, more: nat) -> Option<nat> {
    match n {
        Some(k) => Some(k + more),
        None => None,
    }
}

/// What `scan_array` returns.
pub open spec fn spec_scan_array(input: Seq<char>) -> Parsed<Seq<char>> {
    let s = trimmed_start(input);
    if head_is(s, '[') {
        match closing_end(s, 0) {
            Some(n) => Ok((s.skip(n as int), s.take(n as int))),
            None => Ok((seq![], s)),
        }
    } else {
        spec_take_until_whitespace(s)
    }
}

/// The models of a stack of arrays.
pub open spec fn stack_view(stack: Seq<Vec<ArrayElement>>) -> Seq<Seq<Element>> {
    stack.map_values(|v: Vec<ArrayElement>| elements(v@))
}

/// The depths of the marks.
pub open spec fn marks_view(marks: Seq<usize>) -> Seq<nat> {
    marks.map_values(|d: usize| d as nat)
}

proof fn lemma_elements_push(v: Seq<ArrayElement>, e: ArrayElement)
    ensures
        elements(v.push(e)) == elements(v).push(element(e)),
{
    assert(elements(v.push(e)) =~= elements(v).push(element(e)));
}

/// Processes the accumulated token and adds it to the innermost array of the
/// stack.
///
/// A token that no array can take, because the stack is empty, is an unterminated
/// array.
pub fn check_token_and_add<'a>(
    input: &'a str,
    depth: usize,
    depth_when_not: &mut Vec<usize>,
    token: &mut String,
    stack: &mut Vec<Vec<ArrayElement>>,
) -> (r: IResult<(), (), ParseError<&'a str>>)
    ensures
        r == (if old(token)@.len() > 0 && old(stack)@.len() == 0 {
            Err(
                Rejection::Error(ParseError { kind: ErrorKind::UnterminatedArray, input }),
            )
        } else {
            Ok(((), ()))
        }),
        ({
            let marks = marks_view(old(depth_when_not)@);
            let e = negate_if_marked(marks, depth as nat, Element::Text(trimmed_end(old(token)@)));
            if old(token)@.len() > 0 && old(stack)@.len() > 0 {
                &&& final(token)@.len() == 0
                &&& stack_view(final(stack)@) == push_innermost(stack_view(old(stack)@), e)
                &&& marks_view(final(depth_when_not)@) == take_mark(marks, depth as nat)
            } else {
                &&& *final(token) == *old(token)
                &&& *final(stack) == *old(stack)
                &&& *final(depth_when_not) == *old(depth_when_not)
            }
        }),
{
    if !token.as_str().is_empty() {
        if stack.len() == 0 {
            return Err(
                Rejection::Error(ParseError { kind: ErrorKind::UnterminatedArray, input }),
            );
        }
        let text: String = token.as_str().trim_end().to_owned();
        let marked: bool = match depth_when_not.last() {
            Some(last) => *last == depth,
            None => false,
        };
        let e = if marked {
            depth_when_not.pop();
            ArrayElement::not_string(text)
        } else {
            ArrayElement::String(text)
        };
        if let Some(top) = stack.last_mut() {
            proof {
                lemma_elements_push(top@, e);
            }
            top.push(e);
        }
        *token = String::new();
        proof {
            assert(marks_view(old(depth_when_not)@).len() > 0 ==> marks_view(old(depth_when_not)@).last()
                == old(depth_when_not)@.last() as nat);
            assert(marks_view(depth_when_not@) =~= take_mark(marks_view(old(depth_when_not)@), depth as nat));
            assert(stack_view(stack@) =~= push_innermost(stack_view(old(stack)@), element(e)));
        }
    }
    Ok(((), ()))
}

/// Pops the innermost array of the stack and adds it to the array around it.
fn close_array(outer: usize, depth_when_not: &mut Vec<usize>, stack: &mut Vec<Vec<ArrayElement>>)
    requires
        old(stack)@.len() >= 2,
    ensures
        stack_view(final(stack)@) == push_innermost(
            stack_view(old(stack)@).drop_last(),
            negate_if_marked(
                marks_view(old(depth_when_not)@),
                outer as nat,
                Element::List(stack_view(old(stack)@).last()),
            ),
        ),
        marks_view(final(depth_when_not)@) == take_mark(
            marks_view(old(depth_when_not)@),
            outer as nat,
        ),
{
    let marked: bool = match depth_when_not.last() {
        Some(last) => *last == outer,
        None => false,
    };
    if let Some(last) = stack.pop() {
        let e = if marked {
            depth_when_not.pop();
            ArrayElement::not_array(last)
        } else {
            ArrayElement::Array(last)
        };
        if let Some(top) = stack.last_mut() {
            proof {
                lemma_elements_push(top@, e);
            }
            top.push(e);
        }
        proof {
            let marks = marks_view(old(depth_when_not)@);
            assert(marks.len() > 0 ==> marks.last() == old(depth_when_not)@.last() as nat);
            assert(marks_view(depth_when_not@) =~= take_mark(marks, outer as nat));
            assert(stack_view(stack@) =~= push_innermost(
                stack_view(old(stack)@).drop_last(),
                element(e),
            ));
        }
    }
}

/// Adding an element to the innermost array leaves the array below alone.
proof fn lemma_push_above(base: Seq<Element>, open: Seq<Seq<Element>>, e: Element)
    requires
        open.len() > 0,
    ensures
        push_innermost(seq![base] + open, e) == seq![base] + push_innermost(open, e),
        (seq![base] + open).drop_last() == seq![base] + open.drop_last(),
        (seq![base] + open).last() == open.last(),
{
    assert((seq![base] + open).drop_last() =~= seq![base] + open.drop_last());
    assert(push_innermost(seq![base] + open, e) =~= seq![base] + push_innermost(open, e));
}

/// Whether `stack`, the array below the outermost one and then the open ones,
/// `token`, `marks` and `depth` are what `st` says.
spec fn holds_state(
    st: ArrayState,
    stack: Seq<Vec<ArrayElement>>,
    token: Seq<char>,
    marks: Seq<usize>,
    depth: usize,
) -> bool {
    &&& stack_view(stack) == seq![Seq::<Element>::empty()] + st.open
    &&& token == st.token
    &&& marks_view(marks) == st.marks
    &&& depth == st.depth()
    &&& forall|k: int| 0 <= k < st.marks.len() ==> #[trigger] st.marks[k] >= 1
}

/// Parse an array of elements, or a single element.
pub fn parse_array<'a>(input: &'a str) -> (r: IResult<
    &'a str,
    Vec<ArrayElement>,
    ParseError<&'a str>,
>)
    ensures
        outcome_with(r, |list: Vec<ArrayElement>| elements(list@)) == spec_parse_array(input@),
{
    let mut input: &'a str = input.trim_start();
    let mut neg: bool = false;
    if starts_with_char(input, '!') {
        neg = true;
        let (_, rest) = split_text(input, 1);
        input = rest;
    }
    // We might not always have an array, if not, parse a scalar and return it as
    // an array.
    if !starts_with_char(input, '[') {
        return match take_until_whitespace(input) {
            Ok((rest, scalar)) => {
                let e = if neg {
                    ArrayElement::not_string(scalar.to_owned())
                } else {
                    ArrayElement::String(scalar.to_owned())
                };
                let mut list: Vec<ArrayElement> = Vec::new();
                proof {
                    lemma_elements_push(list@, e);
                    assert(elements(list@) == Seq::<Element>::empty());
                }
                list.push(e);
                assert(elements(list@) == seq![element(e)]);
                Ok((rest, list))
            },
            Err(e) => Err(e),
        };
    }
    // Use a stack to avoid recursion.
    let len: usize = input.unicode_len();
    let mut stack: Vec<Vec<ArrayElement>> = Vec::new();
    stack.push(Vec::new());
    let mut token: String = String::new();
    let mut depth: usize = 0;
    let mut offset: usize = 0;
    let mut depth_when_not: Vec<usize> = Vec::with_capacity(5);
    let ghost mut st = ArrayState::start();
    proof {
        assert(elements(stack@[0]@) =~= Seq::<Element>::empty());
        assert(stack_view(stack@) =~= seq![Seq::<Element>::empty()] + st.open);
        assert(marks_view(depth_when_not@) =~= st.marks);
        assert(input@.skip(0) =~= input@);
    }
    for c in it: input.chars()
        invariant_except_break
            it.seq() == input@,
            len == input@.len(),
            head_is(input@, '['),
            offset == it.index(),
            depth <= offset,
            offset > 0 ==> depth > 0,
            holds_state(st, stack@, token@, depth_when_not@, depth),
            ArrayState::start().read(input@) == st.read(input@.skip(offset as int)),
        ensures
            offset <= input@.len(),
            depth == 0 ==> {
                &&& stack@.len() == 1
                &&& elements(stack@[0]@).len() == 1
                &&& elements(stack@[0]@)[0] is List
                &&& ArrayState::start().read(input@) == Some(
                    (input@.skip(offset as int), elements(stack@[0]@)[0]->List_0),
                )
            },
            depth > 0 ==> ArrayState::start().read(input@) is None,
    {
        let ghost rest = input@.skip(offset as int);
        let ghost base = Seq::<Element>::empty();
        proof {
            assert(rest[0] == c);
            assert(rest.skip(1) =~= input@.skip(offset + 1));
        }
        offset = offset + 1;
        if c == '[' {
            depth = depth + 1;
            let ghost before = stack@;
            stack.push(Vec::new());
            proof {
                assert(elements(stack@.last()@) =~= base);
                assert(stack_view(stack@) =~= stack_view(before).push(base));
                assert(seq![base] + st.open.push(base) =~= (seq![base] + st.open).push(base));
            }
        } else if c == ']' {
            match check_token_and_add(input, depth, &mut depth_when_not, &mut token, &mut stack) {
                Ok(_) => {},
                Err(e) => {
                    return Err(e);
                },
            }
            proof {
                lemma_push_above(
                    base,
                    st.open,
                    negate_if_marked(st.marks, st.depth(), Element::Text(trimmed_end(st.token))),
                );
                lemma_push_above(base, st.end_token().open, Element::List(seq![]));
                assert(token@ =~= Seq::<char>::empty());
            }
            let ghost ended = st.end_token();
            close_array(depth - 1, &mut depth_when_not, &mut stack);
            depth = depth - 1;
            if depth == 0 {
                proof {
                    assert(ended.open.drop_last() =~= Seq::<Seq<Element>>::empty());
                    assert(seq![base] + ended.open.drop_last() =~= seq![base]);
                    let e = Element::List(ended.open[0]);
                    assert(!is_marked(ended.marks, 0));
                    assert(push_innermost(seq![base], e) =~= seq![seq![e]]);
                    assert(stack_view(stack@) == seq![seq![e]]);
                    assert(stack@.len() == stack_view(stack@).len());
                    assert(stack_view(stack@)[0] == elements(stack@[0]@));
                }
                break;
            }
            proof {
                lemma_push_above(
                    base,
                    ended.open.drop_last(),
                    negate_if_marked(ended.marks, depth as nat, Element::List(ended.open.last())),
                );
            }
        } else if c == ',' {
            match check_token_and_add(input, depth, &mut depth_when_not, &mut token, &mut stack) {
                Ok(_) => {},
                Err(e) => {
                    return Err(e);
                },
            }
            proof {
                lemma_push_above(
                    base,
                    st.open,
                    negate_if_marked(st.marks, st.depth(), Element::Text(trimmed_end(st.token))),
                );
                assert(token@ =~= Seq::<char>::empty());
            }
        } else if (c == ' ' || c == '\t') && token.as_str().is_empty() {
        } else if c == '!' && token.as_str().is_empty() {
            let ghost before = depth_when_not@;
            depth_when_not.push(depth);
            assert(marks_view(depth_when_not@) =~= marks_view(before).push(depth as nat));
        } else {
            token.push(c);
        }
        proof {
            st = st.step(c);
        }
    }
    if depth > 0 {
        return Err(Rejection::Error(ParseError { kind: ErrorKind::UnterminatedArray, input }));
    }
    // Double unwrap as we used a stack to avoid recursion.
    if let Some(mut outer) = stack.pop() {
        let ghost all = outer@;
        if let Some(ArrayElement::Array(list)) = outer.pop() {
            proof {
                assert(elements(all)[0] == element(all[0]));
            }
            let (_, rest) = split_text(input, offset);
            if neg {
                let e = ArrayElement::not_array(list);
                let mut negated: Vec<ArrayElement> = Vec::new();
                proof {
                    lemma_elements_push(negated@, e);
                    assert(elements(negated@) == Seq::<Element>::empty());
                }
                negated.push(e);
                assert(elements(negated@) == seq![element(e)]);
                return Ok((rest, negated));
            }
            return Ok((rest, list));
        }
        assert(elements(all)[0] == element(all[0]));
    }
    Err(Rejection::Error(ParseError { kind: ErrorKind::UnterminatedArray, input }))
}

/// Scan an array returning the text of the array, brackets included.
///
/// The scanner does not treat an array that is not closed as an error: it takes all
/// of the input.
pub fn scan_array<'a>(input: &'a str) -> (r: IResult<&'a str, &'a str, ParseError<&'a str>>)
    ensures
        outcome(r) == spec_scan_array(input@),
{
    let input: &'a str = input.trim_start();
    // We might not always have an array, if not, parse a scalar.
    if !starts_with_char(input, '[') {
        return take_until_whitespace(input);
    }
    let len: usize = input.unicode_len();
    let mut depth: usize = 0;
    let mut offset: usize = 0;
    proof {
        assert(input@.skip(0) =~= input@);
    }
    for c in it: input.chars()
        invariant_except_break
            it.seq() == input@,
            len == input@.len(),
            head_is(input@, '['),
            offset == it.index(),
            depth <= offset,
            offset > 0 ==> depth > 0,
            closing_end(input@, 0) == add_to(
                closing_end(input@.skip(offset as int), depth as nat),
                offset as nat,
            ),
        ensures
            offset <= input@.len(),
            match closing_end(input@, 0) {
                Some(n) => offset == n,
                None => offset == input@.len(),
            },
    {
        let ghost rest = input@.skip(offset as int);
        proof {
            assert(rest[0] == c);
            assert(rest.skip(1) =~= input@.skip(offset + 1));
        }
        offset = offset + 1;
        if c == '[' {
            depth = depth + 1;
        } else if c == ']' {
            depth = depth - 1;
            if depth == 0 {
                break;
            }
        }
    }
    let (array, rest) = split_text(input, offset);
    assert(closing_end(input@, 0) is None ==> rest@ =~= seq![] && array@ =~= input@);
    Ok((rest, array))
}

} // verus!
