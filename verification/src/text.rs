//! Text as a sequence of characters: the words in which the parsers' contracts
//! are written, and the executable helpers that cut a `&str` accordingly.

use vstd::prelude::*;

verus! {

/// How many characters at the start of `s` satisfy `p` before the first one
/// that does not.
pub open spec fn run_len(s: Seq<char>, p: spec_fn(char) -> bool) -> nat
    decreases s.len(),
{
    if s.len() == 0 || !p(s[0]) {
        0
    } else {
        1 + run_len(s.skip(1), p)
    }
}

/// The characters that separate the words of a rule: space, tab, carriage
/// return and line feed.
pub open spec fn is_space(c: char) -> bool {
    c == ' ' || c == '\t' || c == '\r' || c == '\n'
}

/// `is_space` as a predicate.
pub open spec fn space() -> spec_fn(char) -> bool {
    |c: char| is_space(c)
}

/// Every character but `c`, as a predicate.
pub open spec fn other_than(c: char) -> spec_fn(char) -> bool {
    |x: char| x != c
}

/// `s` without the spaces that it starts with.
pub open spec fn skip_space(s: Seq<char>) -> Seq<char> {
    s.skip(run_len(s, space()) as int)
}

/// The index of the first `c` in `s`, or the length of `s` if there is none.
pub open spec fn until(s: Seq<char>, c: char) -> nat {
    run_len(s, other_than(c))
}

/// Whether `s` starts with the character `c`.
pub open spec fn head_is(s: Seq<char>, c: char) -> bool {
    s.len() > 0 && s[0] == c
}

/// The pieces of `s` between the separators `c`; one more than there are
/// separators.
pub open spec fn split(s: Seq<char>, c: char) -> Seq<Seq<char>>
    decreases s.len(),
{
    let n = until(s, c);
    if n >= s.len() {
        seq![s]
    } else {
        seq![s.take(n as int)] + split(s.skip(n as int + 1), c)
    }
}

/// The characters with the Unicode property `White_Space`.
pub open spec fn is_white(c: char) -> bool {
    ||| '\u{9}' <= c <= '\u{d}'
    ||| c == ' '
    ||| c == '\u{85}'
    ||| c == '\u{a0}'
    ||| c == '\u{1680}'
    ||| '\u{2000}' <= c <= '\u{200a}'
    ||| c == '\u{2028}'
    ||| c == '\u{2029}'
    ||| c == '\u{202f}'
    ||| c == '\u{205f}'
    ||| c == '\u{3000}'
}

/// `is_white` as a predicate.
pub open spec fn white() -> spec_fn(char) -> bool {
    |c: char| is_white(c)
}

/// `s` without the white space that it starts with.
pub open spec fn trimmed_start(s: Seq<char>) -> Seq<char> {
    s.skip(run_len(s, white()) as int)
}

/// `s` without the white space that it ends with.
pub open spec fn trimmed_end(s: Seq<char>) -> Seq<char>
    decreases s.len(),
{
    if s.len() == 0 || !is_white(s.last()) {
        s
    } else {
        trimmed_end(s.drop_last())
    }
}

/// `s` without white space at either end.
pub open spec fn trimmed(s: Seq<char>) -> Seq<char> {
    trimmed_end(trimmed_start(s))
}

/// The pieces of `s` between the separators `c`, each trimmed.
pub open spec fn split_trimmed(s: Seq<char>, c: char) -> Seq<Seq<char>> {
    split(s, c).map_values(|piece: Seq<char>| trimmed(piece))
}

/// The index of the last `c` in `s`, if there is one.
pub open spec fn last_index(s: Seq<char>, c: char) -> Option<nat>
    decreases s.len(),
{
    if s.len() == 0 {
        None
    } else if s.last() == c {
        Some((s.len() - 1) as nat)
    } else {
        last_index(s.drop_last(), c)
    }
}

/// The characters of each text of a list.
pub open spec fn texts(v: Seq<&str>) -> Seq<Seq<char>> {
    v.map_values(|t: &str| t@)
}

/// The characters of each string of a list.
pub open spec fn strings(v: Seq<String>) -> Seq<Seq<char>> {
    v.map_values(|t: String| t@)
}

/// `str::trim_start` drops the longest prefix made of characters with the
/// Unicode property `White_Space`.
pub assume_specification[ str::trim_start ](s: &str) -> (r: &str)
    ensures
        r@ == trimmed_start(s@),
;

/// `str::trim_end` drops the longest suffix made of characters with the Unicode
/// property `White_Space`.
pub assume_specification[ str::trim_end ](s: &str) -> (r: &str)
    ensures
        r@ == trimmed_end(s@),
;

/// `str::trim` drops both the longest prefix and the longest suffix made of
/// characters with the Unicode property `White_Space`.
pub assume_specification[ str::trim ](s: &str) -> (r: &str)
    ensures
        r@ == trimmed(s@),
;

/// `String::push` appends one character.
pub assume_specification[ std::string::String::push ](s: &mut std::string::String, c: char)
    ensures
        final(s)@ == old(s)@.push(c),
;

/// What `run_len` counts.
pub proof fn lemma_run_len(s: Seq<char>, p: spec_fn(char) -> bool)
    ensures
        run_len(s, p) <= s.len(),
        forall|k: int| 0 <= k < run_len(s, p) ==> p(#[trigger] s[k]),
        run_len(s, p) < s.len() ==> !p(s[run_len(s, p) as int]),
    decreases s.len(),
{
    if s.len() > 0 && p(s[0]) {
        lemma_run_len(s.skip(1), p);
        assert forall|k: int| 0 <= k < run_len(s, p) implies p(#[trigger] s[k]) by {
            if k > 0 {
                assert(s[k] == s.skip(1)[k - 1]);
            }
        }
    }
}

/// `run_len` is the only such count.
pub proof fn lemma_run_len_unique(s: Seq<char>, p: spec_fn(char) -> bool, n: nat)
    requires
        n <= s.len(),
        forall|k: int| 0 <= k < n ==> p(#[trigger] s[k]),
        n < s.len() ==> !p(s[n as int]),
    ensures
        run_len(s, p) == n,
{
    lemma_run_len(s, p);
    let m = run_len(s, p);
    if m < n {
        assert(p(s[m as int]));
    } else if n < m {
        assert(p(s[n as int]));
    }
}

/// What one more text adds to those that a list holds.
pub proof fn lemma_contains_take(list: Seq<Seq<char>>, i: int, t: Seq<char>)
    requires
        0 <= i < list.len(),
    ensures
        list.take(i + 1).contains(t) == (list.take(i).contains(t) || list[i]
            == t),
{
    let more = list.take(i + 1);
    let less = list.take(i);
    if less.contains(t) {
        let k = choose|k: int| 0 <= k < less.len() && less[k] == t;
        assert(more[k] == t);
    }
    if list[i] == t {
        assert(more[i] == t);
    }
    if more.contains(t) && list[i] != t {
        let k = choose|k: int| 0 <= k < more.len() && more[k] == t;
        assert(less[k] == t);
    }
}

/// What `last_index` finds.
pub proof fn lemma_last_index(s: Seq<char>, c: char)
    ensures
        match last_index(s, c) {
            Some(i) => {
                &&& i < s.len()
                &&& s[i as int] == c
                &&& forall|k: int| i < k < s.len() ==> #[trigger] s[k] != c
            },
            None => !s.contains(c),
        },
    decreases s.len(),
{
    if s.len() > 0 && s.last() != c {
        lemma_last_index(s.drop_last(), c);
        assert forall|k: int| 0 <= k < s.len() - 1 implies #[trigger] s[k] == s.drop_last()[k] by {}
    }
}

/// `s` cut after its first `n` characters.
pub(crate) fn split_text<'a>(s: &'a str, n: usize) -> (r: (&'a str, &'a str))
    requires
        n <= s@.len(),
    ensures
        r.0@ == s@.take(n as int),
        r.1@ == s@.skip(n as int),
{
    let len: usize = s.unicode_len();
    (s.substring_char(0, n), s.substring_char(n, len))
}

/// Whether `s` starts with `c`.
pub(crate) fn starts_with_char(s: &str, c: char) -> (r: bool)
    ensures
        r == head_is(s@, c),
{
    let mut chars = s.chars();
    match chars.next() {
        Some(first) => first == c,
        None => false,
    }
}

/// Whether `a` and `b` hold the same characters.
pub(crate) fn same_text(a: &str, b: &str) -> (r: bool)
    ensures
        r == (a@ == b@),
{
    let len: usize = a.unicode_len();
    if len != b.unicode_len() {
        return false;
    }
    let mut rest = b.chars();
    for c in it: a.chars()
        invariant
            it.seq() == a@,
            a@.len() == b@.len(),
            vstd::std_specs::iter::IteratorSpec::remaining(&rest) == b@.skip(it.index() as int),
            forall|k: int| 0 <= k < it.index() ==> a@[k] == b@[k],
    {
        let ghost i = it.index() as int;
        match rest.next() {
            Some(d) => {
                assert(b@.skip(i).drop_first() == b@.skip(i + 1));
                assert(d == b@[i]);
                if c != d {
                    return false;
                }
            },
            None => {
                return false;
            },
        }
    }
    assert(a@ == b@);
    true
}

/// The index of the first `c` in `s`, or the number of characters of `s`.
pub(crate) fn find_char(s: &str, c: char) -> (r: usize)
    ensures
        r == until(s@, c),
{
    let len: usize = s.unicode_len();
    let mut n: usize = 0;
    for x in it: s.chars()
        invariant_except_break
            it.seq() == s@,
            len == s@.len(),
            n == it.index(),
            forall|k: int| 0 <= k < n ==> s@[k] != c,
        ensures
            n <= s@.len(),
            forall|k: int| 0 <= k < n ==> s@[k] != c,
            n < s@.len() ==> s@[n as int] == c,
    {
        if x == c {
            break;
        }
        n = n + 1;
    }
    proof {
        lemma_run_len_unique(s@, other_than(c), n as nat);
    }
    n
}

/// The index of the last `c` in `s`, if there is one.
pub(crate) fn rfind_char(s: &str, c: char) -> (r: Option<usize>)
    ensures
        match r {
            Some(i) => last_index(s@, c) == Some(i as nat),
            None => last_index(s@, c) is None,
        },
{
    let len: usize = s.unicode_len();
    let mut n: usize = 0;
    let mut found: Option<usize> = None;
    for x in it: s.chars()
        invariant
            it.seq() == s@,
            len == s@.len(),
            n == it.index(),
            match found {
                Some(i) => last_index(s@.take(n as int), c) == Some(i as nat),
                None => last_index(s@.take(n as int), c) is None,
            },
    {
        assert(s@.take(n + 1).drop_last() =~= s@.take(n as int));
        if x == c {
            found = Some(n);
        }
        n = n + 1;
    }
    assert(s@.take(n as int) =~= s@);
    found
}

/// The pieces of `s` between the separators `c`.
pub(crate) fn split_text_at<'a>(s: &'a str, c: char) -> (r: Vec<&'a str>)
    ensures
        texts(r@) == split(s@, c),
{
    let mut pieces: Vec<&'a str> = Vec::new();
    let mut rest: &'a str = s;
    loop
        invariant
            split(s@, c) == texts(pieces@) + split(rest@, c),
        decreases rest@.len(),
    {
        let n: usize = find_char(rest, c);
        proof {
            lemma_run_len(rest@, other_than(c));
        }
        let (piece, tail) = split_text(rest, n);
        let ghost before = pieces@;
        pieces.push(piece);
        assert(texts(pieces@) == texts(before).push(piece@));
        if tail.is_empty() {
            assert(rest@.take(n as int) == rest@);
            assert(texts(before) + seq![rest@] == texts(before).push(piece@));
            return pieces;
        }
        let (_, next) = split_text(tail, 1);
        assert(next@ == rest@.skip(n + 1));
        assert(texts(before) + (seq![piece@] + split(next@, c)) == texts(before).push(piece@)
            + split(next@, c));
        rest = next;
    }
}

/// The pieces of `s` between the separators `c`, each trimmed and owned.
pub(crate) fn split_to_trimmed(s: &str, c: char) -> (r: Vec<String>)
    ensures
        strings(r@) == split_trimmed(s@, c),
{
    let pieces = split_text_at(s, c);
    let mut parts: Vec<String> = Vec::new();
    let mut i: usize = 0;
    while i < pieces.len()
        invariant
            texts(pieces@) == split(s@, c),
            i <= pieces@.len(),
            strings(parts@) == split_trimmed(s@, c).take(i as int),
        decreases pieces@.len() - i,
    {
        let ghost before = parts@;
        parts.push(pieces[i].trim().to_owned());
        assert(split(s@, c)[i as int] == pieces@[i as int]@);
        assert(strings(parts@) == strings(before).push(split_trimmed(s@, c)[i as int]));
        i = i + 1;
    }
    parts
}

} // verus!
