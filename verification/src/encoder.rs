//! Encoding: from a value to its canonical code.

use crate::alphabet::{index_to_symbol, lemma_zero_symbol, symbol, BASE};
use crate::numeral::{code_of, is_canonical, lemma_code_length, lemma_code_of, value_of};
use vstd::prelude::*;

verus! {

/// The symbols of the digits in `digits`, last digit first.
spec fn symbols_reversed(digits: Seq<usize>) -> Seq<char> {
    Seq::new(digits.len(), |i: int| symbol(digits[digits.len() - 1 - i] as int))
}

/// Encodes `n` as its canonical base-62 code.
///
/// The result is the one code without a leading zero symbol that denotes `n`:
/// `"0"` for zero, and otherwise the base-62 digits of `n`, most significant
/// first. It never fails.
pub fn encode(n: u64) -> (code: String)
    ensures
        code@ == code_of(n as nat),
        is_canonical(code@),
        value_of(code@) == n,
        1 <= code@.len() <= 11,
{
    proof {
        lemma_code_of(n as nat);
        lemma_code_length(n as nat);
        lemma_zero_symbol();
    }
    if n == 0 {
        proof {
            reveal_strlit("0");
            assert("0"@ =~= seq![symbol(0)]);
        }
        return "0".to_owned();
    }
    // The digits of `n`, least significant first.
    let mut digits: Vec<usize> = Vec::new();
    let mut remained: u64 = n;
    while remained > 0
        invariant
            forall|j: int| 0 <= j < digits.len() ==> digits[j] < 62,
            remained > 0 ==> code_of(n as nat) == code_of(remained as nat)
                + symbols_reversed(digits@),
            remained == 0 ==> code_of(n as nat) == symbols_reversed(digits@),
        decreases remained,
    {
        let idx: usize = (remained % BASE) as usize;
        let ghost before = digits@;
        digits.push(idx);
        proof {
            let tail = symbols_reversed(before);
            let next = seq![symbol(idx as int)] + tail;
            assert(symbols_reversed(digits@) =~= next);
            if remained < 62 {
                assert(code_of(remained as nat) + tail =~= next);
            } else {
                assert(code_of(remained as nat) + tail =~= code_of((remained / 62) as nat) + next);
            }
        }
        remained = remained / BASE;
    }
    let mut code = String::new();
    let mut k: usize = digits.len();
    while k > 0
        invariant
            k <= digits.len(),
            forall|j: int| 0 <= j < digits.len() ==> digits[j] < 62,
            code@ == symbols_reversed(digits@).take(digits.len() - k),
        decreases k,
    {
        k = k - 1;
        code.append(index_to_symbol(digits[k]));
        assert(code@ =~= symbols_reversed(digits@).take(digits.len() - k));
    }
    assert(code@ =~= symbols_reversed(digits@));
    code
}

} // verus!
