//! Numbers that are written out are read back.

use vstd::arithmetic::div_mod::{
    lemma_div_decreases, lemma_div_pos_is_pos, lemma_fundamental_div_mod, lemma_mod_bound,
};
use vstd::prelude::*;

use crate::error::accept;
use crate::integer::{digit_value, digits_value};
use crate::leaf::is_alphanumeric;
use crate::laws::law_run_reads_back;
use crate::number::{spec_parse_number, spec_parse_number_or_reference};
use crate::text::{lemma_run_len_unique, skip_space, space};
use crate::types::NumberOrReferenceView;
use crate::words::{ends_token, spec_parse_token, token};

verus! {

/// The digit of value `d`.
pub open spec fn digit(d: int) -> char {
    if d < 10 {
        ('0' as int + d) as char
    } else {
        ('a' as int + d - 10) as char
    }
}

/// `n`, which is not negative, in base `radix`.
pub open spec fn digits(n: int, radix: int) -> Seq<char>
    decreases n,
{
    if n < radix || radix < 2 {
        seq![digit(n)]
    } else {
        proof {
            lemma_div_decreases(n, radix);
            lemma_div_pos_is_pos(n, radix);
        }
        digits(n / radix, radix).push(digit(n % radix))
    }
}

/// `n` in base `radix`, behind a `-` if it is negative.
pub open spec fn signed_digits(n: int, radix: int) -> Seq<char> {
    if n < 0 {
        seq!['-'] + digits(-n, radix)
    } else {
        digits(n, radix)
    }
}

proof fn lemma_digits(n: int, radix: int)
    requires
        n >= 0,
        2 <= radix <= 36,
    ensures
        digits(n, radix).len() > 0,
        digits_value(digits(n, radix), radix) == Some(n),
        forall|k: int| 0 <= k < digits(n, radix).len() ==> is_alphanumeric(#[trigger] digits(n, radix)[k]),
        radix == 10 ==> forall|k: int|
            0 <= k < digits(n, radix).len() ==> '0' <= #[trigger] digits(n, radix)[k] <= '9',
    decreases n,
{
    let all = digits(n, radix);
    reveal_with_fuel(digits_value, 2);
    if n < radix {
        assert(all.drop_last() =~= Seq::<char>::empty());
        assert(digit_value(all.last(), radix) == Some(n));
        assert(0 * radix == 0) by (nonlinear_arith);
    } else {
        lemma_div_decreases(n, radix);
        lemma_div_pos_is_pos(n, radix);
        lemma_mod_bound(n, radix);
        lemma_fundamental_div_mod(n, radix);
        lemma_digits(n / radix, radix);
        assert(all.drop_last() =~= digits(n / radix, radix));
        assert(digit_value(all.last(), radix) == Some(n % radix));
        assert((n / radix) * radix == radix * (n / radix)) by (nonlinear_arith);
    }
}

/// A token in front of the end of the input, or of a character that ends a token, is
/// found.
pub proof fn lemma_token_reads_back(t: Seq<char>, rest: Seq<char>)
    requires
        t.len() > 0,
        forall|k: int| 0 <= k < t.len() ==> !ends_token(#[trigger] t[k]),
        rest.len() == 0 || ends_token(rest[0]),
    ensures
        spec_parse_token(t + rest) == accept(rest, t),
        skip_space(t + rest) == t + rest,
{
    assert forall|k: int| 0 <= k < t.len() implies token()(#[trigger] t[k]) by {
        assert(!ends_token(t[k]));
    }
    assert(!ends_token(t[0]));
    law_run_reads_back(token(), t, rest);
    lemma_run_len_unique(t + rest, space(), 0);
    assert((t + rest).skip(0) =~= t + rest);
}

/// Every integer between `min` and `max` that is written in base ten is read back.
pub proof fn law_decimal_reads_back(n: int, min: int, max: int, rest: Seq<char>)
    requires
        min <= n <= max,
        rest.len() == 0 || ends_token(rest[0]),
    ensures
        spec_parse_number(signed_digits(n, 10) + rest, min, max) == accept(rest, n),
        spec_parse_number_or_reference(signed_digits(n, 10) + rest, min, max) == accept(
            rest,
            NumberOrReferenceView::Number(n),
        ),
{
    let t = signed_digits(n, 10);
    if n < 0 {
        lemma_digits(-n, 10);
        assert(t.skip(1) =~= digits(-n, 10));
        assert forall|k: int| 0 <= k < t.len() implies !ends_token(#[trigger] t[k]) by {
            if k > 0 {
                assert(t[k] == digits(-n, 10)[k - 1]);
            }
        }
    } else {
        lemma_digits(n, 10);
        assert forall|k: int| 0 <= k < t.len() implies !ends_token(#[trigger] t[k]) by {
            assert(is_alphanumeric(digits(n, 10)[k]));
        }
        assert('0' <= digits(n, 10)[0] <= '9');
        if t.len() > 1 {
            assert('0' <= digits(n, 10)[1] <= '9');
            assert(t.skip(1)[0] == t[1]);
        }
    }
    lemma_token_reads_back(t, rest);
}

/// Every integer between `min` and `max` that is written in base sixteen behind `0x` or
/// `0X` is read back.
pub proof fn law_hexadecimal_reads_back(n: int, min: int, max: int, rest: Seq<char>)
    requires
        min <= n <= max,
        rest.len() == 0 || ends_token(rest[0]),
    ensures
        spec_parse_number(seq!['0', 'x'] + signed_digits(n, 16) + rest, min, max) == accept(rest, n),
        spec_parse_number(seq!['0', 'X'] + signed_digits(n, 16) + rest, min, max) == accept(rest, n),
{
    let d = signed_digits(n, 16);
    if n < 0 {
        lemma_digits(-n, 16);
        assert(d.skip(1) =~= digits(-n, 16));
    } else {
        lemma_digits(n, 16);
        assert(is_alphanumeric(d[0]));
    }
    assert forall|k: int| 0 <= k < d.len() implies !ends_token(#[trigger] d[k]) by {
        if n >= 0 {
            assert(is_alphanumeric(digits(n, 16)[k]));
        } else if k > 0 {
            assert(is_alphanumeric(digits(-n, 16)[k - 1]));
        }
    }
    let t = seq!['0', 'x'] + d;
    assert forall|k: int| 0 <= k < t.len() implies !ends_token(#[trigger] t[k]) by {
        if k >= 2 {
            assert(!ends_token(d[k - 2]));
        }
    }
    assert(t.skip(2) =~= d);
    assert(t.skip(1)[0] == 'x');
    lemma_token_reads_back(t, rest);
    let t = seq!['0', 'X'] + d;
    assert forall|k: int| 0 <= k < t.len() implies !ends_token(#[trigger] t[k]) by {
        if k >= 2 {
            assert(!ends_token(d[k - 2]));
        }
    }
    assert(t.skip(2) =~= d);
    assert(t.skip(1)[0] == 'X');
    lemma_token_reads_back(t, rest);
}

/// A number or reference is rejected only where no token is, is a number exactly where
/// a number is accepted, and is otherwise the token.
pub proof fn law_reference_is_any_other_token(input: Seq<char>, min: int, max: int)
    ensures
        match spec_parse_token(input) {
            Ok((rest, found)) => spec_parse_number_or_reference(input, min, max) == (
            match spec_parse_number(input, min, max) {
                Ok((end, n)) => accept(end, NumberOrReferenceView::Number(n)),
                Err(_) => accept(rest, NumberOrReferenceView::Name(found)),
            }),
            Err(e) => {
                &&& spec_parse_number_or_reference(input, min, max) == Err::<
                    (Seq<char>, NumberOrReferenceView),
                    _,
                >(e)
                &&& spec_parse_number(input, min, max) == Err::<(Seq<char>, int), _>(e)
            },
        },
{
}

} // verus!
