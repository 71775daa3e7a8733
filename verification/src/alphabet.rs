//! The alphabet: 62 symbols in a fixed order, and the map from a symbol back
//! to its index.

use crate::error::Error;
use vstd::prelude::*;

verus! {

/// The radix of the numeral system, which is the number of symbols.
pub const BASE: u64 = 62;

/// The symbols in index order: digits, upper-case letters, lower-case letters.
pub const ALPHABET: &'static str = "0123456789ABCDEFGHIJKLMNOPQRSTUVWXYZabcdefghijklmnopqrstuvwxyz";

/// Distance from an index below 10 to the code point of its symbol.
const DIGIT_OFFSET: usize = 48;

/// Distance from an index in `10..36` to the code point of its symbol.
const UPPERCASE_OFFSET: usize = 55;

/// Distance from an index in `36..62` to the code point of its symbol.
const LOWERCASE_OFFSET: usize = 61;

/// The symbol that stands for the digit `i`, for `0 <= i < 62`.
pub open spec fn symbol(i: int) -> char {
    ALPHABET@[i]
}

/// Whether `c` is one of the 62 symbols.
pub open spec fn is_symbol(c: char) -> bool {
    ALPHABET@.contains(c)
}

/// The digit that `c` stands for, which is its position in the alphabet, or
/// `None` if `c` is not in the alphabet.
pub open spec fn index_of(c: char) -> Option<nat> {
    if is_symbol(c) {
        Some(ALPHABET@.index_of(c) as nat)
    } else {
        None
    }
}

/// The digit of a symbol as a number; 0 for any other character.
pub open spec fn digit(c: char) -> nat {
    match index_of(c) {
        Some(i) => i,
        None => 0,
    }
}

/// Where `c` stands if the alphabet is the three runs `0`-`9`, `A`-`Z` and
/// `a`-`z`, one after the other.
pub open spec fn index_in_runs(c: char) -> Option<nat> {
    if '0' <= c <= '9' {
        Some((c as int - '0' as int) as nat)
    } else if 'A' <= c <= 'Z' {
        Some((c as int - 'A' as int + 10) as nat)
    } else if 'a' <= c <= 'z' {
        Some((c as int - 'a' as int + 36) as nat)
    } else {
        None
    }
}

/// The alphabet is the three runs of digits, upper-case and lower-case
/// letters: it has 62 entries, each stands where the runs put it, and every
/// character of the runs stands in it.
pub proof fn lemma_alphabet_entries()
    ensures
        ALPHABET@.len() == 62,
        forall|i: int| 0 <= i < 62 ==> index_in_runs(#[trigger] ALPHABET@[i]) == Some(i as nat),
        forall|c: char| #[trigger] index_in_runs(c) matches Some(i) ==> ALPHABET@[i as int] == c,
{
    reveal_strlit("0123456789ABCDEFGHIJKLMNOPQRSTUVWXYZabcdefghijklmnopqrstuvwxyz");
}

/// A character's position in the alphabet is the one that the three runs
/// give, and a character outside the runs is not in the alphabet.
pub proof fn lemma_index_in_runs(c: char)
    ensures
        index_of(c) == index_in_runs(c),
{
    lemma_alphabet_entries();
}

/// The alphabet has 62 entries, no symbol occurs twice in it, and `index_of`
/// finds each entry's position.
pub proof fn lemma_alphabet()
    ensures
        ALPHABET@.len() == 62,
        ALPHABET@.no_duplicates(),
        forall|i: int| 0 <= i < 62 ==> index_of(#[trigger] symbol(i)) == Some(i as nat),
{
    lemma_alphabet_entries();
    assert forall|i: int| 0 <= i < 62 implies index_of(#[trigger] symbol(i)) == Some(
        i as nat,
    ) by {
        lemma_index_in_runs(symbol(i));
    }
}

/// A symbol is the alphabet's entry at its own index, and that index is below 62.
pub proof fn lemma_index_of(c: char)
    requires
        is_symbol(c),
    ensures
        digit(c) < 62,
        symbol(digit(c) as int) == c,
{
    lemma_alphabet_entries();
}

/// The alphabet is sorted: among symbols, the order of the characters is the
/// order of their digits.
pub proof fn lemma_symbol_order(a: char, b: char)
    requires
        is_symbol(a),
        is_symbol(b),
    ensures
        a < b <==> digit(a) < digit(b),
        a == b <==> digit(a) == digit(b),
{
    lemma_index_in_runs(a);
    lemma_index_in_runs(b);
}

/// The zero symbol is `0`: it is a symbol, and the only one whose digit is 0.
pub proof fn lemma_zero_symbol()
    ensures
        is_symbol('0'),
        symbol(0) == '0',
        forall|c: char| is_symbol(c) ==> (c == '0' <==> #[trigger] digit(c) == 0),
{
    lemma_index_in_runs('0');
    lemma_index_of('0');
    assert forall|c: char| is_symbol(c) implies (c == '0' <==> #[trigger] digit(c) == 0) by {
        lemma_symbol_order(c, '0');
    }
}

/// Maps a character to its digit, or reports that it is not a symbol.
pub fn char_to_index(c: char) -> (r: Result<usize, Error>)
    ensures
        r is Ok <==> is_symbol(c),
        r matches Ok(i) ==> i == digit(c) && i < 62 && symbol(i as int) == c,
        r matches Err(e) ==> e == Error::InvalidCode,
{
    proof {
        lemma_index_in_runs(c);
        if is_symbol(c) {
            lemma_index_of(c);
        }
    }
    if c >= '0' && c <= '9' {
        return Ok((c as usize) - DIGIT_OFFSET);
    } else if c >= 'A' && c <= 'Z' {
        return Ok((c as usize) - UPPERCASE_OFFSET);
    } else if c >= 'a' && c <= 'z' {
        return Ok((c as usize) - LOWERCASE_OFFSET);
    }
    Err(Error::InvalidCode)
}

/// The symbol of the digit `i`, as a string slice of one character.
pub fn index_to_symbol(i: usize) -> (s: &'static str)
    requires
        i < 62,
    ensures
        s@ == seq![symbol(i as int)],
{
    proof {
        lemma_alphabet_entries();
    }
    let s = ALPHABET.substring_ascii(i, i + 1);
    assert(s@ =~= seq![symbol(i as int)]);
    s
}

} // verus!
