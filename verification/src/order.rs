//! The order of byte strings: byte by byte, a proper prefix before its
//! extensions. This is the order in which `str` and `[u8]` sort.

use vstd::prelude::*;

verus! {

/// How one value stands to another.
#[derive(Debug, Clone, Copy, PartialEq, Eq)]
pub enum Order {
    Less,
    Equal,
    Greater,
}

/// The first position from `from` on at which `a` and `b` differ or one of
/// them ends.
pub open spec fn mismatch(a: Seq<u8>, b: Seq<u8>, from: int) -> int
    decreases a.len() - from,
{
    if from < 0 || from >= a.len() || from >= b.len() || a[from] != b[from] {
        from
    } else {
        mismatch(a, b, from + 1)
    }
}

/// The order of `a` and `b`, decided where they first differ.
pub open spec fn lex_order(a: Seq<u8>, b: Seq<u8>) -> Order {
    let i = mismatch(a, b, 0);
    if i >= a.len() {
        if i >= b.len() {
            Order::Equal
        } else {
            Order::Less
        }
    } else if i >= b.len() {
        Order::Greater
    } else if a[i] < b[i] {
        Order::Less
    } else {
        Order::Greater
    }
}

/// `a` and `b` agree from `from` up to `mismatch(a, b, from)`, and not at it.
pub proof fn lemma_mismatch(a: Seq<u8>, b: Seq<u8>, from: int)
    requires
        0 <= from <= a.len(),
        from <= b.len(),
    ensures
        from <= mismatch(a, b, from) <= a.len(),
        mismatch(a, b, from) <= b.len(),
        forall|k: int| from <= k < mismatch(a, b, from) ==> a[k] == b[k],
        mismatch(a, b, from) < a.len() && mismatch(a, b, from) < b.len() ==> a[mismatch(a, b, from)]
            != b[mismatch(a, b, from)],
    decreases a.len() - from,
{
    if from < a.len() && from < b.len() && a[from] == b[from] {
        lemma_mismatch(a, b, from + 1);
    }
}

/// A position up to which `a` and `b` agree and at which they do not is
/// their first mismatch.
pub proof fn lemma_mismatch_is(a: Seq<u8>, b: Seq<u8>, from: int, at: int)
    requires
        0 <= from <= at <= a.len(),
        at <= b.len(),
        forall|k: int| from <= k < at ==> a[k] == b[k],
        at < a.len() && at < b.len() ==> a[at] != b[at],
    ensures
        mismatch(a, b, from) == at,
    decreases at - from,
{
    if from < at {
        lemma_mismatch_is(a, b, from + 1, at);
    }
}

/// Two byte strings are in the order `Equal` exactly when they are equal.
pub proof fn lemma_lex_equal(a: Seq<u8>, b: Seq<u8>)
    ensures
        lex_order(a, b) is Equal <==> a == b,
{
    lemma_mismatch(a, b, 0);
    if lex_order(a, b) is Equal {
        assert(a =~= b);
    }
}

/// Swapping the two byte strings swaps `Less` and `Greater`.
pub proof fn lemma_lex_flip(a: Seq<u8>, b: Seq<u8>)
    ensures
        lex_order(a, b) is Less <==> lex_order(b, a) is Greater,
        lex_order(a, b) is Equal <==> lex_order(b, a) is Equal,
{
    lemma_mismatch(a, b, 0);
    lemma_mismatch_is(b, a, 0, mismatch(a, b, 0));
}

/// `Less` is transitive.
pub proof fn lemma_lex_transitive(a: Seq<u8>, b: Seq<u8>, c: Seq<u8>)
    requires
        lex_order(a, b) is Less,
        lex_order(b, c) is Less,
    ensures
        lex_order(a, c) is Less,
{
    lemma_mismatch(a, b, 0);
    lemma_mismatch(b, c, 0);
    let i = mismatch(a, b, 0);
    let j = mismatch(b, c, 0);
    let at = if i <= j {
        i
    } else {
        j
    };
    lemma_mismatch_is(a, c, 0, at);
}

/// Compares two byte strings.
pub fn compare_bytes(a: &[u8], b: &[u8]) -> (order: Order)
    ensures
        order == lex_order(a@, b@),
{
    let mut i: usize = 0;
    while i < a.len() && i < b.len() && a[i] == b[i]
        invariant
            i <= a.len(),
            i <= b.len(),
            mismatch(a@, b@, 0) == mismatch(a@, b@, i as int),
        decreases a.len() - i,
    {
        i += 1;
    }
    if i >= a.len() {
        if i >= b.len() {
            Order::Equal
        } else {
            Order::Less
        }
    } else if i >= b.len() {
        Order::Greater
    } else if a[i] < b[i] {
        Order::Less
    } else {
        Order::Greater
    }
}

} // verus!
