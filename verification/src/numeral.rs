//! The numeral system: what a code denotes, and which code a value has.
//!
//! A code is read most significant symbol first. These are the definitions
//! that the contracts of the codec are stated in, with the arithmetic facts
//! about them.

use crate::alphabet::{
    digit, index_of, is_symbol, lemma_alphabet, lemma_index_of, lemma_zero_symbol, symbol,
};
use vstd::prelude::*;

verus! {

/// Whether every character of `code` is a symbol of the alphabet.
pub open spec fn is_code(code: Seq<char>) -> bool {
    forall|i: int| 0 <= i < code.len() ==> is_symbol(#[trigger] code[i])
}

/// The number that `code` denotes in base 62, by Horner's rule: the value of
/// all but the last symbol, times 62, plus the last symbol's digit. The empty
/// code denotes 0.
pub open spec fn value_of(code: Seq<char>) -> nat
    decreases code.len(),
{
    if code.len() == 0 {
        0
    } else {
        value_of(code.drop_last()) * 62 + digit(code.last())
    }
}

/// The canonical code of `n`: its base-62 digits without a leading zero, and
/// the single symbol `0` for zero.
pub open spec fn code_of(n: nat) -> Seq<char>
    decreases n,
{
    if n < 62 {
        seq![symbol(n as int)]
    } else {
        code_of(n / 62).push(symbol((n % 62) as int))
    }
}

/// Whether `code` is canonical: a non-empty code with no leading zero symbol,
/// unless it is the one-symbol code of zero.
pub open spec fn is_canonical(code: Seq<char>) -> bool {
    &&& is_code(code)
    &&& code.len() >= 1
    &&& code.len() > 1 ==> code[0] != '0'
}

/// 62 to the power `len`: the number of codes of length `len`.
pub open spec fn power(len: nat) -> nat
    decreases len,
{
    if len == 0 {
        1
    } else {
        62 * power((len - 1) as nat)
    }
}

/// Appending a symbol multiplies the value by 62 and adds the symbol's digit.
pub proof fn lemma_value_push(code: Seq<char>, c: char)
    ensures
        value_of(code.push(c)) == value_of(code) * 62 + digit(c),
{
    assert(code.push(c).drop_last() =~= code);
}

/// Reading one more symbol multiplies the value read so far by 62 and adds
/// the symbol's digit.
pub proof fn lemma_value_of_next(code: Seq<char>, k: int)
    requires
        0 <= k < code.len(),
    ensures
        value_of(code.take(k + 1)) == value_of(code.take(k)) * 62 + digit(code[k]),
{
    assert(code.take(k + 1).drop_last() =~= code.take(k));
}

/// A prefix of a code is a code.
pub proof fn lemma_prefix_is_code(code: Seq<char>, k: int)
    requires
        is_code(code),
        0 <= k <= code.len(),
    ensures
        is_code(code.take(k)),
{
}

/// A code of `len` symbols denotes a value below 62 to the power `len`.
pub proof fn lemma_value_below_power(code: Seq<char>)
    requires
        is_code(code),
    ensures
        value_of(code) < power(code.len()),
    decreases code.len(),
{
    if code.len() > 0 {
        lemma_prefix_is_code(code, code.len() - 1);
        lemma_value_below_power(code.drop_last());
        lemma_index_of(code.last());
    }
}

/// A code whose first symbol is not the zero symbol denotes at least 62 to
/// the power of its length less one.
pub proof fn lemma_value_with_leading_digit(code: Seq<char>)
    requires
        is_code(code),
        code.len() >= 1,
        code[0] != '0',
    ensures
        value_of(code) >= power((code.len() - 1) as nat),
    decreases code.len(),
{
    if code.len() == 1 {
        lemma_zero_symbol();
        assert(value_of(code.drop_last()) == 0);
        assert(digit(code[0]) >= 1);
    } else {
        lemma_prefix_is_code(code, code.len() - 1);
        lemma_value_with_leading_digit(code.drop_last());
    }
}

/// The value of a prefix does not exceed the value of the whole code.
pub proof fn lemma_prefix_value(code: Seq<char>, k: int)
    requires
        0 <= k <= code.len(),
    ensures
        value_of(code.take(k)) <= value_of(code),
    decreases code.len(),
{
    if k == code.len() {
        assert(code.take(k) =~= code);
    } else {
        assert(code.drop_last().take(k) =~= code.take(k));
        lemma_prefix_value(code.drop_last(), k);
    }
}

/// The powers of 62 grow with the exponent.
pub proof fn lemma_power_monotonic(a: nat, b: nat)
    requires
        a <= b,
    ensures
        power(a) <= power(b),
        power(a) >= 1,
    decreases b,
{
    if a < b {
        lemma_power_monotonic(a, (b - 1) as nat);
    } else if a > 0 {
        lemma_power_monotonic((a - 1) as nat, (a - 1) as nat);
    }
}

/// Ten symbols always fit into 64 bits; eleven symbols can reach beyond.
pub proof fn lemma_power_values()
    ensures
        power(10) == 839299365868340224,
        power(10) <= u64::MAX,
        power(11) == 52036560683837093888,
        power(11) > u64::MAX,
{
    reveal_with_fuel(power, 12);
}

/// The canonical code of `n` is canonical, denotes `n`, and has exactly as
/// many symbols as `n` has base-62 digits.
pub proof fn lemma_code_of(n: nat)
    ensures
        is_canonical(code_of(n)),
        value_of(code_of(n)) == n,
        n < power(code_of(n).len()),
        n > 0 ==> power((code_of(n).len() - 1) as nat) <= n,
    decreases n,
{
    lemma_alphabet();
    lemma_zero_symbol();
    let code = code_of(n);
    if n < 62 {
        assert(code.drop_last() =~= Seq::<char>::empty());
        assert(value_of(code.drop_last()) == 0);
        assert(index_of(symbol(n as int)) == Some(n));
        reveal_with_fuel(power, 2);
    } else {
        let head = code_of(n / 62);
        lemma_code_of(n / 62);
        lemma_value_push(head, symbol((n % 62) as int));
        assert(index_of(symbol((n % 62) as int)) == Some(n % 62));
        assert(code[0] == head[0]);
        assert forall|i: int| 0 <= i < code.len() implies is_symbol(#[trigger] code[i]) by {
            if i < head.len() {
                assert(code[i] == head[i]);
            }
        }
    }
}

/// The canonical code of a 64-bit value has between one and eleven symbols.
pub proof fn lemma_code_length(n: nat)
    requires
        n <= u64::MAX,
    ensures
        1 <= code_of(n).len() <= 11,
{
    let len = code_of(n).len();
    lemma_code_of(n);
    lemma_power_values();
    if len > 11 {
        lemma_power_monotonic(11, (len - 1) as nat);
    }
}

} // verus!
