//! Integers in text: the primitive integer types, and the digits that make one.

use vstd::prelude::*;

use crate::text::head_is;

verus! {

/// The value of the digit `c` in base `radix`.
pub open spec fn digit_value(c: char, radix: int) -> Option<int> {
    let v = if '0' <= c <= '9' {
        c as int - '0' as int
    } else if 'a' <= c <= 'z' {
        c as int - 'a' as int + 10
    } else if 'A' <= c <= 'Z' {
        c as int - 'A' as int + 10
    } else {
        radix
    };
    if v < radix {
        Some(v)
    } else {
        None
    }
}

/// The value of the digits `s` in base `radix`, if all of them are digits.
pub open spec fn digits_value(s: Seq<char>, radix: int) -> Option<int>
    decreases s.len(),
{
    if s.len() == 0 {
        Some(0)
    } else {
        match (digits_value(s.drop_last(), radix), digit_value(s.last(), radix)) {
            (Some(high), Some(low)) => Some(high * radix + low),
            _ => None,
        }
    }
}

/// The integer that `s` writes in base `radix`: an optional sign, `-` only for a
/// type with negative values, and at least one digit.
pub open spec fn signed_value(s: Seq<char>, radix: int, negatives: bool) -> Option<int> {
    let minus = negatives && head_is(s, '-');
    let digits = if minus || head_is(s, '+') {
        s.skip(1)
    } else {
        s
    };
    if digits.len() == 0 {
        None
    } else {
        match digits_value(digits, radix) {
            Some(v) => Some(
                if minus {
                    -v
                } else {
                    v
                },
            ),
            None => None,
        }
    }
}

/// The integer that `s` writes in base `radix`, if it lies between `min` and `max`.
pub open spec fn bounded_value(s: Seq<char>, radix: int, min: int, max: int) -> Option<int> {
    match signed_value(s, radix, min < 0) {
        Some(v) => if min <= v <= max {
            Some(v)
        } else {
            None
        },
        None => None,
    }
}

/// A primitive integer type.
pub trait Integer: Sized {
    /// The integer that the value stands for.
    spec fn int_value(self) -> int;

    /// The least value of the type.
    spec fn min_int() -> int;

    /// The greatest value of the type.
    spec fn max_int() -> int;

    /// The integer that `text` writes in base `radix`, if the type can hold it.
    fn from_text_radix(text: &str, radix: u32) -> (r: Option<Self>)
        requires
            2 <= radix <= 36,
        ensures
            match r {
                Some(n) => bounded_value(text@, radix as int, Self::min_int(), Self::max_int())
                    == Some(n.int_value()),
                None => bounded_value(text@, radix as int, Self::min_int(), Self::max_int()) is None,
            },
    ;

    /// The integer that `text` writes in base ten, if the type can hold it.
    fn from_text(text: &str) -> (r: Option<Self>)
        ensures
            match r {
                Some(n) => bounded_value(text@, 10, Self::min_int(), Self::max_int()) == Some(
                    n.int_value(),
                ),
                None => bounded_value(text@, 10, Self::min_int(), Self::max_int()) is None,
            },
    ;
}

impl Integer for u8 {
    open spec fn int_value(self) -> int {
        self as int
    }

    open spec fn min_int() -> int {
        u8::MIN as int
    }

    open spec fn max_int() -> int {
        u8::MAX as int
    }

    fn from_text_radix(text: &str, radix: u32) -> (r: Option<Self>) {
        u8_from_str_radix(text, radix)
    }

    fn from_text(text: &str) -> (r: Option<Self>) {
        u8_parse(text)
    }
}

/// `num_traits::Num::from_str_radix` for `u8`: reads an optional sign and digits of
/// base `radix`, and fails on any other text and on a value out of range.
#[verifier::external_body]
fn u8_from_str_radix(text: &str, radix: u32) -> (r: Option<u8>)
    requires
        2 <= radix <= 36,
    ensures
        match r {
            Some(n) => bounded_value(text@, radix as int, u8::MIN as int, u8::MAX as int) == Some(n as int),
            None => bounded_value(text@, radix as int, u8::MIN as int, u8::MAX as int) is None,
        },
{
    <u8 as num_traits::Num>::from_str_radix(text, radix).ok()
}

/// `str::parse` for `u8`: reads an optional sign and decimal digits, and fails on any
/// other text and on a value out of range.
#[verifier::external_body]
fn u8_parse(text: &str) -> (r: Option<u8>)
    ensures
        match r {
            Some(n) => bounded_value(text@, 10, u8::MIN as int, u8::MAX as int) == Some(n as int),
            None => bounded_value(text@, 10, u8::MIN as int, u8::MAX as int) is None,
        },
{
    text.parse::<u8>().ok()
}

impl Integer for u16 {
    open spec fn int_value(self) -> int {
        self as int
    }

    open spec fn min_int() -> int {
        u16::MIN as int
    }

    open spec fn max_int() -> int {
        u16::MAX as int
    }

    fn from_text_radix(text: &str, radix: u32) -> (r: Option<Self>) {
        u16_from_str_radix(text, radix)
    }

    fn from_text(text: &str) -> (r: Option<Self>) {
        u16_parse(text)
    }
}

/// `num_traits::Num::from_str_radix` for `u16`: reads an optional sign and digits of
/// base `radix`, and fails on any other text and on a value out of range.
#[verifier::external_body]
fn u16_from_str_radix(text: &str, radix: u32) -> (r: Option<u16>)
    requires
        2 <= radix <= 36,
    ensures
        match r {
            Some(n) => bounded_value(text@, radix as int, u16::MIN as int, u16::MAX as int) == Some(n as int),
            None => bounded_value(text@, radix as int, u16::MIN as int, u16::MAX as int) is None,
        },
{
    <u16 as num_traits::Num>::from_str_radix(text, radix).ok()
}

/// `str::parse` for `u16`: reads an optional sign and decimal digits, and fails on any
/// other text and on a value out of range.
#[verifier::external_body]
fn u16_parse(text: &str) -> (r: Option<u16>)
    ensures
        match r {
            Some(n) => bounded_value(text@, 10, u16::MIN as int, u16::MAX as int) == Some(n as int),
            None => bounded_value(text@, 10, u16::MIN as int, u16::MAX as int) is None,
        },
{
    text.parse::<u16>().ok()
}

impl Integer for u32 {
    open spec fn int_value(self) -> int {
        self as int
    }

    open spec fn min_int() -> int {
        u32::MIN as int
    }

    open spec fn max_int() -> int {
        u32::MAX as int
    }

    fn from_text_radix(text: &str, radix: u32) -> (r: Option<Self>) {
        u32_from_str_radix(text, radix)
    }

    fn from_text(text: &str) -> (r: Option<Self>) {
        u32_parse(text)
    }
}

/// `num_traits::Num::from_str_radix` for `u32`: reads an optional sign and digits of
/// base `radix`, and fails on any other text and on a value out of range.
#[verifier::external_body]
fn u32_from_str_radix(text: &str, radix: u32) -> (r: Option<u32>)
    requires
        2 <= radix <= 36,
    ensures
        match r {
            Some(n) => bounded_value(text@, radix as int, u32::MIN as int, u32::MAX as int) == Some(n as int),
            None => bounded_value(text@, radix as int, u32::MIN as int, u32::MAX as int) is None,
        },
{
    <u32 as num_traits::Num>::from_str_radix(text, radix).ok()
}

/// `str::parse` for `u32`: reads an optional sign and decimal digits, and fails on any
/// other text and on a value out of range.
#[verifier::external_body]
fn u32_parse(text: &str) -> (r: Option<u32>)
    ensures
        match r {
            Some(n) => bounded_value(text@, 10, u32::MIN as int, u32::MAX as int) == Some(n as int),
            None => bounded_value(text@, 10, u32::MIN as int, u32::MAX as int) is None,
        },
{
    text.parse::<u32>().ok()
}

impl Integer for u64 {
    open spec fn int_value(self) -> int {
        self as int
    }

    open spec fn min_int() -> int {
        u64::MIN as int
    }

    open spec fn max_int() -> int {
        u64::MAX as int
    }

    fn from_text_radix(text: &str, radix: u32) -> (r: Option<Self>) {
        u64_from_str_radix(text, radix)
    }

    fn from_text(text: &str) -> (r: Option<Self>) {
        u64_parse(text)
    }
}

/// `num_traits::Num::from_str_radix` for `u64`: reads an optional sign and digits of
/// base `radix`, and fails on any other text and on a value out of range.
#[verifier::external_body]
fn u64_from_str_radix(text: &str, radix: u32) -> (r: Option<u64>)
    requires
        2 <= radix <= 36,
    ensures
        match r {
            Some(n) => bounded_value(text@, radix as int, u64::MIN as int, u64::MAX as int) == Some(n as int),
            None => bounded_value(text@, radix as int, u64::MIN as int, u64::MAX as int) is None,
        },
{
    <u64 as num_traits::Num>::from_str_radix(text, radix).ok()
}

/// `str::parse` for `u64`: reads an optional sign and decimal digits, and fails on any
/// other text and on a value out of range.
#[verifier::external_body]
fn u64_parse(text: &str) -> (r: Option<u64>)
    ensures
        match r {
            Some(n) => bounded_value(text@, 10, u64::MIN as int, u64::MAX as int) == Some(n as int),
            None => bounded_value(text@, 10, u64::MIN as int, u64::MAX as int) is None,
        },
{
    text.parse::<u64>().ok()
}

impl Integer for u128 {
    open spec fn int_value(self) -> int {
        self as int
    }

    open spec fn min_int() -> int {
        u128::MIN as int
    }

    open spec fn max_int() -> int {
        u128::MAX as int
    }

    fn from_text_radix(text: &str, radix: u32) -> (r: Option<Self>) {
        u128_from_str_radix(text, radix)
    }

    fn from_text(text: &str) -> (r: Option<Self>) {
        u128_parse(text)
    }
}

/// `num_traits::Num::from_str_radix` for `u128`: reads an optional sign and digits of
/// base `radix`, and fails on any other text and on a value out of range.
#[verifier::external_body]
fn u128_from_str_radix(text: &str, radix: u32) -> (r: Option<u128>)
    requires
        2 <= radix <= 36,
    ensures
        match r {
            Some(n) => bounded_value(text@, radix as int, u128::MIN as int, u128::MAX as int) == Some(n as int),
            None => bounded_value(text@, radix as int, u128::MIN as int, u128::MAX as int) is None,
        },
{
    <u128 as num_traits::Num>::from_str_radix(text, radix).ok()
}

/// `str::parse` for `u128`: reads an optional sign and decimal digits, and fails on any
/// other text and on a value out of range.
#[verifier::external_body]
fn u128_parse(text: &str) -> (r: Option<u128>)
    ensures
        match r {
            Some(n) => bounded_value(text@, 10, u128::MIN as int, u128::MAX as int) == Some(n as int),
            None => bounded_value(text@, 10, u128::MIN as int, u128::MAX as int) is None,
        },
{
    text.parse::<u128>().ok()
}

impl Integer for usize {
    open spec fn int_value(self) -> int {
        self as int
    }

    open spec fn min_int() -> int {
        usize::MIN as int
    }

    open spec fn max_int() -> int {
        usize::MAX as int
    }

    fn from_text_radix(text: &str, radix: u32) -> (r: Option<Self>) {
        usize_from_str_radix(text, radix)
    }

    fn from_text(text: &str) -> (r: Option<Self>) {
        usize_parse(text)
    }
}

/// `num_traits::Num::from_str_radix` for `usize`: reads an optional sign and digits of
/// base `radix`, and fails on any other text and on a value out of range.
#[verifier::external_body]
fn usize_from_str_radix(text: &str, radix: u32) -> (r: Option<usize>)
    requires
        2 <= radix <= 36,
    ensures
        match r {
            Some(n) => bounded_value(text@, radix as int, usize::MIN as int, usize::MAX as int) == Some(n as int),
            None => bounded_value(text@, radix as int, usize::MIN as int, usize::MAX as int) is None,
        },
{
    <usize as num_traits::Num>::from_str_radix(text, radix).ok()
}

/// `str::parse` for `usize`: reads an optional sign and decimal digits, and fails on any
/// other text and on a value out of range.
#[verifier::external_body]
fn usize_parse(text: &str) -> (r: Option<usize>)
    ensures
        match r {
            Some(n) => bounded_value(text@, 10, usize::MIN as int, usize::MAX as int) == Some(n as int),
            None => bounded_value(text@, 10, usize::MIN as int, usize::MAX as int) is None,
        },
{
    text.parse::<usize>().ok()
}

impl Integer for i8 {
    open spec fn int_value(self) -> int {
        self as int
    }

    open spec fn min_int() -> int {
        i8::MIN as int
    }

    open spec fn max_int() -> int {
        i8::MAX as int
    }

    fn from_text_radix(text: &str, radix: u32) -> (r: Option<Self>) {
        i8_from_str_radix(text, radix)
    }

    fn from_text(text: &str) -> (r: Option<Self>) {
        i8_parse(text)
    }
}

/// `num_traits::Num::from_str_radix` for `i8`: reads an optional sign and digits of
/// base `radix`, and fails on any other text and on a value out of range.
#[verifier::external_body]
fn i8_from_str_radix(text: &str, radix: u32) -> (r: Option<i8>)
    requires
        2 <= radix <= 36,
    ensures
        match r {
            Some(n) => bounded_value(text@, radix as int, i8::MIN as int, i8::MAX as int) == Some(n as int),
            None => bounded_value(text@, radix as int, i8::MIN as int, i8::MAX as int) is None,
        },
{
    <i8 as num_traits::Num>::from_str_radix(text, radix).ok()
}

/// `str::parse` for `i8`: reads an optional sign and decimal digits, and fails on any
/// other text and on a value out of range.
#[verifier::external_body]
fn i8_parse(text: &str) -> (r: Option<i8>)
    ensures
        match r {
            Some(n) => bounded_value(text@, 10, i8::MIN as int, i8::MAX as int) == Some(n as int),
            None => bounded_value(text@, 10, i8::MIN as int, i8::MAX as int) is None,
        },
{
    text.parse::<i8>().ok()
}

impl Integer for i16 {
    open spec fn int_value(self) -> int {
        self as int
    }

    open spec fn min_int() -> int {
        i16::MIN as int
    }

    open spec fn max_int() -> int {
        i16::MAX as int
    }

    fn from_text_radix(text: &str, radix: u32) -> (r: Option<Self>) {
        i16_from_str_radix(text, radix)
    }

    fn from_text(text: &str) -> (r: Option<Self>) {
        i16_parse(text)
    }
}

/// `num_traits::Num::from_str_radix` for `i16`: reads an optional sign and digits of
/// base `radix`, and fails on any other text and on a value out of range.
#[verifier::external_body]
fn i16_from_str_radix(text: &str, radix: u32) -> (r: Option<i16>)
    requires
        2 <= radix <= 36,
    ensures
        match r {
            Some(n) => bounded_value(text@, radix as int, i16::MIN as int, i16::MAX as int) == Some(n as int),
            None => bounded_value(text@, radix as int, i16::MIN as int, i16::MAX as int) is None,
        },
{
    <i16 as num_traits::Num>::from_str_radix(text, radix).ok()
}

/// `str::parse` for `i16`: reads an optional sign and decimal digits, and fails on any
/// other text and on a value out of range.
#[verifier::external_body]
fn i16_parse(text: &str) -> (r: Option<i16>)
    ensures
        match r {
            Some(n) => bounded_value(text@, 10, i16::MIN as int, i16::MAX as int) == Some(n as int),
            None => bounded_value(text@, 10, i16::MIN as int, i16::MAX as int) is None,
        },
{
    text.parse::<i16>().ok()
}

impl Integer for i32 {
    open spec fn int_value(self) -> int {
        self as int
    }

    open spec fn min_int() -> int {
        i32::MIN as int
    }

    open spec fn max_int() -> int {
        i32::MAX as int
    }

    fn from_text_radix(text: &str, radix: u32) -> (r: Option<Self>) {
        i32_from_str_radix(text, radix)
    }

    fn from_text(text: &str) -> (r: Option<Self>) {
        i32_parse(text)
    }
}

/// `num_traits::Num::from_str_radix` for `i32`: reads an optional sign and digits of
/// base `radix`, and fails on any other text and on a value out of range.
#[verifier::external_body]
fn i32_from_str_radix(text: &str, radix: u32) -> (r: Option<i32>)
    requires
        2 <= radix <= 36,
    ensures
        match r {
            Some(n) => bounded_value(text@, radix as int, i32::MIN as int, i32::MAX as int) == Some(n as int),
            None => bounded_value(text@, radix as int, i32::MIN as int, i32::MAX as int) is None,
        },
{
    <i32 as num_traits::Num>::from_str_radix(text, radix).ok()
}

/// `str::parse` for `i32`: reads an optional sign and decimal digits, and fails on any
/// other text and on a value out of range.
#[verifier::external_body]
fn i32_parse(text: &str) -> (r: Option<i32>)
    ensures
        match r {
            Some(n) => bounded_value(text@, 10, i32::MIN as int, i32::MAX as int) == Some(n as int),
            None => bounded_value(text@, 10, i32::MIN as int, i32::MAX as int) is None,
        },
{
    text.parse::<i32>().ok()
}

impl Integer for i64 {
    open spec fn int_value(self) -> int {
        self as int
    }

    open spec fn min_int() -> int {
        i64::MIN as int
    }

    open spec fn max_int() -> int {
        i64::MAX as int
    }

    fn from_text_radix(text: &str, radix: u32) -> (r: Option<Self>) {
        i64_from_str_radix(text, radix)
    }

    fn from_text(text: &str) -> (r: Option<Self>) {
        i64_parse(text)
    }
}

/// `num_traits::Num::from_str_radix` for `i64`: reads an optional sign and digits of
/// base `radix`, and fails on any other text and on a value out of range.
#[verifier::external_body]
fn i64_from_str_radix(text: &str, radix: u32) -> (r: Option<i64>)
    requires
        2 <= radix <= 36,
    ensures
        match r {
            Some(n) => bounded_value(text@, radix as int, i64::MIN as int, i64::MAX as int) == Some(n as int),
            None => bounded_value(text@, radix as int, i64::MIN as int, i64::MAX as int) is None,
        },
{
    <i64 as num_traits::Num>::from_str_radix(text, radix).ok()
}

/// `str::parse` for `i64`: reads an optional sign and decimal digits, and fails on any
/// other text and on a value out of range.
#[verifier::external_body]
fn i64_parse(text: &str) -> (r: Option<i64>)
    ensures
        match r {
            Some(n) => bounded_value(text@, 10, i64::MIN as int, i64::MAX as int) == Some(n as int),
            None => bounded_value(text@, 10, i64::MIN as int, i64::MAX as int) is None,
        },
{
    text.parse::<i64>().ok()
}

impl Integer for i128 {
    open spec fn int_value(self) -> int {
        self as int
    }

    open spec fn min_int() -> int {
        i128::MIN as int
    }

    open spec fn max_int() -> int {
        i128::MAX as int
    }

    fn from_text_radix(text: &str, radix: u32) -> (r: Option<Self>) {
        i128_from_str_radix(text, radix)
    }

    fn from_text(text: &str) -> (r: Option<Self>) {
        i128_parse(text)
    }
}

/// `num_traits::Num::from_str_radix` for `i128`: reads an optional sign and digits of
/// base `radix`, and fails on any other text and on a value out of range.
#[verifier::external_body]
fn i128_from_str_radix(text: &str, radix: u32) -> (r: Option<i128>)
    requires
        2 <= radix <= 36,
    ensures
        match r {
            Some(n) => bounded_value(text@, radix as int, i128::MIN as int, i128::MAX as int) == Some(n as int),
            None => bounded_value(text@, radix as int, i128::MIN as int, i128::MAX as int) is None,
        },
{
    <i128 as num_traits::Num>::from_str_radix(text, radix).ok()
}

/// `str::parse` for `i128`: reads an optional sign and decimal digits, and fails on any
/// other text and on a value out of range.
#[verifier::external_body]
fn i128_parse(text: &str) -> (r: Option<i128>)
    ensures
        match r {
            Some(n) => bounded_value(text@, 10, i128::MIN as int, i128::MAX as int) == Some(n as int),
            None => bounded_value(text@, 10, i128::MIN as int, i128::MAX as int) is None,
        },
{
    text.parse::<i128>().ok()
}

impl Integer for isize {
    open spec fn int_value(self) -> int {
        self as int
    }

    open spec fn min_int() -> int {
        isize::MIN as int
    }

    open spec fn max_int() -> int {
        isize::MAX as int
    }

    fn from_text_radix(text: &str, radix: u32) -> (r: Option<Self>) {
        isize_from_str_radix(text, radix)
    }

    fn from_text(text: &str) -> (r: Option<Self>) {
        isize_parse(text)
    }
}

/// `num_traits::Num::from_str_radix` for `isize`: reads an optional sign and digits of
/// base `radix`, and fails on any other text and on a value out of range.
#[verifier::external_body]
fn isize_from_str_radix(text: &str, radix: u32) -> (r: Option<isize>)
    requires
        2 <= radix <= 36,
    ensures
        match r {
            Some(n) => bounded_value(text@, radix as int, isize::MIN as int, isize::MAX as int) == Some(n as int),
            None => bounded_value(text@, radix as int, isize::MIN as int, isize::MAX as int) is None,
        },
{
    <isize as num_traits::Num>::from_str_radix(text, radix).ok()
}

/// `str::parse` for `isize`: reads an optional sign and decimal digits, and fails on any
/// other text and on a value out of range.
#[verifier::external_body]
fn isize_parse(text: &str) -> (r: Option<isize>)
    ensures
        match r {
            Some(n) => bounded_value(text@, 10, isize::MIN as int, isize::MAX as int) == Some(n as int),
            None => bounded_value(text@, 10, isize::MIN as int, isize::MAX as int) is None,
        },
{
    text.parse::<isize>().ok()
}

} // verus!
