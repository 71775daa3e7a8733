//! Decoding: from a code back to its value, with validation.

use crate::alphabet::{char_to_index, digit, index_in_runs, is_symbol, lemma_index_in_runs, BASE};
use crate::error::Error;
use crate::numeral::{
    is_code, lemma_power_monotonic, lemma_power_values, lemma_prefix_value,
    lemma_value_below_power, lemma_value_of_next, value_of,
};
use crate::order::{lemma_order_is_numeric, less_at, lex_less};
use vstd::prelude::*;

verus! {

/// The code of `u64::MAX`, the greatest code that can be decoded.
pub const MAX_CODE: &'static str = "LygHa16AHYF";

/// The number of symbols in `MAX_CODE`.
pub const MAX_CODE_LEN: usize = 11;

/// Whether the range test turns `code` away: it is longer than `MAX_CODE`, or
/// as long and sorts after it.
pub open spec fn exceeds_range(code: Seq<char>) -> bool {
    code.len() > MAX_CODE_LEN || (code.len() == MAX_CODE_LEN && lex_less(MAX_CODE@, code))
}

/// What decoding `code` gives. A character outside the alphabet is reported
/// first, wherever it stands; then the range test; a code that passes both
/// denotes a value that fits into 64 bits. The empty string passes both and
/// gives 0.
pub open spec fn decoded(code: Seq<char>) -> Result<u64, Error> {
    if !is_code(code) {
        Err(Error::InvalidCode)
    } else if exceeds_range(code) {
        Err(Error::CodeRangeExceeded)
    } else {
        Ok(value_of(code) as u64)
    }
}

/// One step of reading a code: if the first `k` characters denote `before`
/// and the next one is the symbol of the digit `d`, the first `k + 1`
/// characters denote `before * 62 + d`.
proof fn lemma_read_symbol(code: Seq<char>, k: int, d: nat, before: nat)
    requires
        0 <= k < code.len(),
        index_in_runs(code[k]) == Some(d),
        value_of(code.take(k)) == before,
    ensures
        is_symbol(code[k]),
        value_of(code.take(k + 1)) == before * 62 + d,
{
    lemma_index_in_runs(code[k]);
    lemma_value_of_next(code, k);
}

/// `MAX_CODE` is a code of eleven symbols that denotes `u64::MAX`.
pub proof fn lemma_max_code()
    ensures
        MAX_CODE@.len() == 11,
        is_code(MAX_CODE@),
        value_of(MAX_CODE@) == u64::MAX,
{
    reveal_strlit("LygHa16AHYF");
    let m = MAX_CODE@;
    assert(value_of(m.take(0)) == 0);
    lemma_read_symbol(m, 0, 21, 0);
    lemma_read_symbol(m, 1, 60, 21);
    lemma_read_symbol(m, 2, 42, 1362);
    lemma_read_symbol(m, 3, 17, 84486);
    lemma_read_symbol(m, 4, 36, 5238149);
    lemma_read_symbol(m, 5, 1, 324765274);
    lemma_read_symbol(m, 6, 6, 20135446989);
    lemma_read_symbol(m, 7, 10, 1248397713324);
    lemma_read_symbol(m, 8, 17, 77400658226098);
    lemma_read_symbol(m, 9, 34, 4798840810018093);
    lemma_read_symbol(m, 10, 15, 297528130221121800);
    assert(m.take(11) =~= m);
}

/// On codes, the range test turns away exactly those that are longer than
/// eleven symbols or denote more than `u64::MAX`.
pub proof fn lemma_exceeds_range(code: Seq<char>)
    requires
        is_code(code),
    ensures
        exceeds_range(code) <==> code.len() > 11 || value_of(code) > u64::MAX,
{
    lemma_max_code();
    lemma_value_below_power(code);
    lemma_power_values();
    if code.len() == 11 {
        lemma_order_is_numeric(MAX_CODE@, code);
    } else if code.len() < 11 {
        lemma_power_monotonic(code.len(), 10);
    }
}

/// Whether a string of eleven characters sorts after `MAX_CODE`.
fn sorts_after_max(code: &str) -> (r: bool)
    requires
        code@.len() == MAX_CODE_LEN,
    ensures
        r == lex_less(MAX_CODE@, code@),
{
    proof {
        lemma_max_code();
    }
    let mut i: usize = 0;
    while i < MAX_CODE_LEN
        invariant
            i <= MAX_CODE_LEN,
            code@.len() == MAX_CODE_LEN,
            MAX_CODE@.len() == MAX_CODE_LEN,
            MAX_CODE@.take(i as int) == code@.take(i as int),
        decreases MAX_CODE_LEN - i,
    {
        let bound: char = MAX_CODE.get_char(i);
        let c: char = code.get_char(i);
        if c != bound {
            proof {
                if bound < c {
                    assert(less_at(MAX_CODE@, code@, i as int));
                } else {
                    assert forall|k: int| !less_at(MAX_CODE@, code@, k) by {
                        if i < k < 11 {
                            assert(MAX_CODE@.take(k)[i as int] == bound);
                            assert(code@.take(k)[i as int] == c);
                        } else if 0 <= k < i {
                            assert(MAX_CODE@.take(i as int)[k] == code@.take(i as int)[k]);
                        }
                    }
                }
            }
            return bound < c;
        }
        assert(MAX_CODE@.take(i + 1) =~= MAX_CODE@.take(i as int).push(bound));
        assert(code@.take(i + 1) =~= code@.take(i as int).push(c));
        i = i + 1;
    }
    proof {
        assert(MAX_CODE@ =~= MAX_CODE@.take(11));
        assert(code@ =~= code@.take(11));
        assert(forall|k: int| !less_at(MAX_CODE@, code@, k));
    }
    false
}

/// Decodes a base-62 code into the value it denotes.
///
/// Leading zero symbols are accepted, and the empty string decodes to 0.
///
/// # Errors
///
/// `Error::InvalidCode` if any character is not a symbol of the alphabet.
/// Otherwise `Error::CodeRangeExceeded` if the code has more than eleven
/// symbols, or has eleven and denotes more than `u64::MAX`.
pub fn decode(code: &String) -> (r: Result<u64, Error>)
    ensures
        r == decoded(code@),
        r matches Ok(v) ==> v == value_of(code@),
        r == Err::<u64, Error>(Error::InvalidCode) <==> !is_code(code@),
        r == Err::<u64, Error>(Error::CodeRangeExceeded) <==> is_code(code@) && (code@.len() > 11
            || value_of(code@) > u64::MAX),
        code@.len() == 0 ==> r == Ok::<u64, Error>(0),
{
    let mut nums: Vec<usize> = Vec::new();
    for c in it: code.chars()
        invariant
            it.seq() == code@,
            nums.len() == it.index(),
            forall|j: int|
                0 <= j < nums.len() ==> is_symbol(#[trigger] code@[j]) && digit(code@[j])
                    == nums[j],
    {
        assert(c == code@[it.index()]);
        match char_to_index(c) {
            Ok(n) => nums.push(n),
            Err(e) => {
                return Err(e);
            },
        }
    }
    proof {
        assert(is_code(code@));
        lemma_exceeds_range(code@);
    }

    let code_len: usize = nums.len();
    if code_len > MAX_CODE_LEN || (code_len == MAX_CODE_LEN && sorts_after_max(code.as_str())) {
        return Err(Error::CodeRangeExceeded);
    }
    let mut result: u64 = 0;
    for i in 0..code_len
        invariant
            code_len == nums.len(),
            code_len == code@.len(),
            value_of(code@) <= u64::MAX,
            result == value_of(code@.take(i as int)),
            forall|j: int|
                0 <= j < nums.len() ==> is_symbol(#[trigger] code@[j]) && digit(code@[j])
                    == nums[j],
    {
        proof {
            lemma_value_of_next(code@, i as int);
            lemma_prefix_value(code@, i + 1);
        }
        result = result * BASE;
        result = result + nums[i] as u64;
    }
    assert(code@.take(code_len as int) =~= code@);
    Ok(result)
}

} // verus!
