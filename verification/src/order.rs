//! Lexicographic order on codes, and its agreement with the numeric order.
//!
//! Because the alphabet is sorted, two codes of the same length compare as
//! strings exactly as their values compare as numbers. The decoder's range
//! test rests on this.

use crate::alphabet::{lemma_index_of, lemma_symbol_order};
use crate::numeral::{is_code, lemma_prefix_is_code, value_of};
use vstd::prelude::*;

verus! {

/// Whether `a` and `b` agree before position `k` and `a` holds the smaller
/// character at `k`.
pub open spec fn less_at(a: Seq<char>, b: Seq<char>, k: int) -> bool {
    &&& 0 <= k < a.len()
    &&& k < b.len()
    &&& a.take(k) == b.take(k)
    &&& a[k] < b[k]
}

/// Whether `a` sorts strictly before `b` as a string: `a` is a proper prefix
/// of `b`, or `a` holds the smaller character where the two first differ.
pub open spec fn lex_less(a: Seq<char>, b: Seq<char>) -> bool {
    ||| a.len() < b.len() && b.take(a.len() as int) == a
    ||| exists|k: int| less_at(a, b, k)
}

/// For two strings of the same positive length, the order is decided by the
/// strings without their last characters, and by the last characters where
/// those are equal.
pub proof fn lemma_lex_less_by_last(a: Seq<char>, b: Seq<char>)
    requires
        a.len() == b.len(),
        a.len() > 0,
    ensures
        lex_less(a, b) <==> lex_less(a.drop_last(), b.drop_last()) || (a.drop_last()
            == b.drop_last() && a.last() < b.last()),
{
    let n = a.len() - 1;
    let a0 = a.drop_last();
    let b0 = b.drop_last();
    assert(a.take(n) =~= a0);
    assert(b.take(n) =~= b0);
    if lex_less(a, b) {
        let k = choose|k: int| less_at(a, b, k);
        if k < n {
            assert(a0.take(k) =~= a.take(k));
            assert(b0.take(k) =~= b.take(k));
            assert(less_at(a0, b0, k));
        }
    }
    if lex_less(a0, b0) {
        let k = choose|k: int| less_at(a0, b0, k);
        assert(a0.take(k) =~= a.take(k));
        assert(b0.take(k) =~= b.take(k));
        assert(less_at(a, b, k));
    }
    if a0 == b0 && a.last() < b.last() {
        assert(less_at(a, b, n));
    }
}

/// Two codes of the same length with the same value are the same code.
pub proof fn lemma_value_injective(a: Seq<char>, b: Seq<char>)
    requires
        is_code(a),
        is_code(b),
        a.len() == b.len(),
        value_of(a) == value_of(b),
    ensures
        a == b,
    decreases a.len(),
{
    if a.len() > 0 {
        let n = a.len() - 1;
        lemma_prefix_is_code(a, n);
        lemma_prefix_is_code(b, n);
        lemma_index_of(a.last());
        lemma_index_of(b.last());
        lemma_symbol_order(a.last(), b.last());
        lemma_value_injective(a.drop_last(), b.drop_last());
        assert(a =~= a.drop_last().push(a.last()));
        assert(b =~= b.drop_last().push(b.last()));
    } else {
        assert(a =~= b);
    }
}

/// Among codes of one length, the string order is the numeric order.
pub proof fn lemma_order_is_numeric(a: Seq<char>, b: Seq<char>)
    requires
        is_code(a),
        is_code(b),
        a.len() == b.len(),
    ensures
        lex_less(a, b) <==> value_of(a) < value_of(b),
    decreases a.len(),
{
    if a.len() > 0 {
        let n = a.len() - 1;
        let a0 = a.drop_last();
        let b0 = b.drop_last();
        lemma_prefix_is_code(a, n);
        lemma_prefix_is_code(b, n);
        lemma_index_of(a.last());
        lemma_index_of(b.last());
        lemma_symbol_order(a.last(), b.last());
        lemma_lex_less_by_last(a, b);
        lemma_order_is_numeric(a0, b0);
        if value_of(a0) == value_of(b0) {
            lemma_value_injective(a0, b0);
        }
    } else {
        assert(!lex_less(a, b)) by {
            assert(forall|k: int| !less_at(a, b, k));
        }
    }
}

} // verus!
