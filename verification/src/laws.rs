//! What holds between encoding and decoding.
//!
//! Each statement here is proved from the definitions in `numeral`, `order`
//! and `decoder`, which are the ones that the contracts of `encode` and
//! `decode` use: `encode(n)` returns `code_of(n)`, and `decode(code)` returns
//! `decoded(code)`. That strings of one length sort as their values do is
//! proved in `order`, where the decoder's range test needs it.

use crate::alphabet::{digit, lemma_index_of, lemma_zero_symbol};
use crate::decoder::{decoded, lemma_exceeds_range};
use crate::error::Error;
use crate::numeral::{
    code_of, is_canonical, lemma_code_length, lemma_code_of, lemma_power_monotonic,
    lemma_prefix_is_code, lemma_value_below_power, lemma_value_with_leading_digit, power,
    value_of,
};
use crate::order::{lemma_order_is_numeric, lex_less};
use vstd::prelude::*;

verus! {

/// Round trip from a value: decoding the code of `n` gives `n` back, for
/// every 64-bit `n`.
pub proof fn round_trip(n: u64)
    ensures
        decoded(code_of(n as nat)) == Ok::<u64, Error>(n),
{
    lemma_code_of(n as nat);
    lemma_code_length(n as nat);
    lemma_exceeds_range(code_of(n as nat));
}

/// Round trip from a code: the canonical code of the value of a canonical
/// code is that code.
pub proof fn canonical_code_is_reproduced(code: Seq<char>)
    requires
        is_canonical(code),
    ensures
        code_of(value_of(code)) == code,
    decreases code.len(),
{
    let head = code.drop_last();
    let last = code.last();
    lemma_index_of(last);
    assert(code =~= head.push(last));
    if code.len() == 1 {
        assert(value_of(head) == 0);
    } else {
        lemma_prefix_is_code(code, code.len() - 1);
        assert(head[0] == code[0]);
        canonical_code_is_reproduced(head);
        lemma_value_with_leading_digit(head);
        lemma_power_monotonic(0, (head.len() - 1) as nat);
    }
}

/// Encoding what a canonical code decodes to gives the code back.
pub proof fn decoded_canonical_code_is_reproduced(code: Seq<char>)
    requires
        is_canonical(code),
        decoded(code) is Ok,
    ensures
        code_of(decoded(code).unwrap() as nat) == code,
{
    lemma_exceeds_range(code);
    canonical_code_is_reproduced(code);
}

/// The canonical codes that decode are exactly the codes that encoding
/// produces.
pub proof fn canonical_codes_are_the_encoded(code: Seq<char>)
    ensures
        is_canonical(code) && decoded(code) is Ok <==> exists|n: u64| code == code_of(n as nat),
{
    if is_canonical(code) && decoded(code) is Ok {
        decoded_canonical_code_is_reproduced(code);
        let n = decoded(code).unwrap();
        assert(code == code_of(n as nat));
    }
    if exists|n: u64| code == code_of(n as nat) {
        let n = choose|n: u64| code == code_of(n as nat);
        lemma_code_of(n as nat);
        round_trip(n);
    }
}

/// Two different values never share a code.
pub proof fn codes_are_distinct(n: u64, m: u64)
    requires
        n != m,
    ensures
        code_of(n as nat) != code_of(m as nat),
{
    lemma_code_of(n as nat);
    lemma_code_of(m as nat);
}

/// Codes sort like the values they stand for: of two values whose codes have
/// the same length, the smaller one has the code that sorts first.
pub proof fn codes_sort_like_values(n: u64, m: u64)
    requires
        code_of(n as nat).len() == code_of(m as nat).len(),
    ensures
        n < m <==> lex_less(code_of(n as nat), code_of(m as nat)),
{
    lemma_code_of(n as nat);
    lemma_code_of(m as nat);
    lemma_order_is_numeric(code_of(n as nat), code_of(m as nat));
}

/// Decoding keeps the order: of two strings of the same length that both
/// decode, the one that sorts first decodes to the smaller value.
pub proof fn decoding_keeps_order(a: Seq<char>, b: Seq<char>)
    requires
        a.len() == b.len(),
        decoded(a) is Ok,
        decoded(b) is Ok,
    ensures
        lex_less(a, b) <==> decoded(a).unwrap() < decoded(b).unwrap(),
{
    lemma_exceeds_range(a);
    lemma_exceeds_range(b);
    lemma_order_is_numeric(a, b);
}

/// A longer canonical code stands for a greater value.
pub proof fn longer_code_greater_value(a: Seq<char>, b: Seq<char>)
    requires
        is_canonical(a),
        is_canonical(b),
        a.len() < b.len(),
    ensures
        value_of(a) < value_of(b),
{
    lemma_value_below_power(a);
    lemma_value_with_leading_digit(b);
    lemma_power_monotonic(a.len(), (b.len() - 1) as nat);
}

/// The first symbol is the most significant: it counts 62 to the power of
/// the number of symbols behind it.
pub proof fn first_symbol_is_most_significant(code: Seq<char>)
    requires
        code.len() >= 1,
    ensures
        value_of(code) == digit(code[0]) * power((code.len() - 1) as nat) + value_of(
            code.drop_first(),
        ),
    decreases code.len(),
{
    let head = code.drop_last();
    let tail = code.drop_first();
    let d = digit(code[0]);
    if code.len() == 1 {
        assert(value_of(head) == 0);
        assert(value_of(tail) == 0);
        assert(power(0) == 1);
        assert(d * 1 == d);
    } else {
        first_symbol_is_most_significant(head);
        assert(tail.drop_last() =~= head.drop_first());
        assert(head[0] == code[0]);
        assert(tail.last() == code.last());
        let p = power((code.len() - 2) as nat);
        assert(power((code.len() - 1) as nat) == 62 * p);
        assert((d * p) * 62 == d * (62 * p)) by (nonlinear_arith);
    }
}

/// Zero symbols in front of a code do not change what it denotes.
pub proof fn leading_zero_keeps_value(code: Seq<char>)
    ensures
        value_of(seq!['0'] + code) == value_of(code),
    decreases code.len(),
{
    let longer = seq!['0'] + code;
    lemma_zero_symbol();
    if code.len() == 0 {
        assert(longer.drop_last() =~= Seq::<char>::empty());
        assert(value_of(longer.drop_last()) == 0);
    } else {
        assert(longer.drop_last() =~= seq!['0'] + code.drop_last());
        leading_zero_keeps_value(code.drop_last());
    }
}

} // verus!
