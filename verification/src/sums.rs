//! Sums of sequences of natural numbers, and an overflow-aware adder.

use vstd::prelude::*;

verus! {

/// The sum of the numbers in `terms`.
pub open spec fn sum(terms: Seq<nat>) -> nat
    decreases terms.len(),
{
    if terms.len() == 0 {
        0
    } else {
        sum(terms.drop_last()) + terms.last()
    }
}

/// The sum of the first `i + 1` terms is the sum of the first `i` plus the
/// term at `i`.
pub proof fn lemma_sum_step(terms: Seq<nat>, i: int)
    requires
        0 <= i < terms.len(),
    ensures
        sum(terms.take(i + 1)) == sum(terms.take(i)) + terms[i],
{
    assert(terms.take(i + 1).drop_last() =~= terms.take(i));
}

/// No sum of leading terms exceeds the sum of all terms.
pub proof fn lemma_sum_prefix_le(terms: Seq<nat>, i: int)
    requires
        0 <= i <= terms.len(),
    ensures
        sum(terms.take(i)) <= sum(terms),
    decreases terms.len(),
{
    if i == terms.len() {
        assert(terms.take(i) =~= terms);
    } else {
        lemma_sum_prefix_le(terms.drop_last(), i);
        assert(terms.drop_last().take(i) =~= terms.take(i));
    }
}

/// No term exceeds the sum of all terms.
pub proof fn lemma_sum_term_le(terms: Seq<nat>, i: int)
    requires
        0 <= i < terms.len(),
    ensures
        terms[i] <= sum(terms),
{
    lemma_sum_step(terms, i);
    lemma_sum_prefix_le(terms, i + 1);
}


/// Inserting a term adds it to the sum.
pub proof fn lemma_sum_insert(terms: Seq<nat>, i: int, term: nat)
    requires
        0 <= i <= terms.len(),
    ensures
        sum(terms.insert(i, term)) == sum(terms) + term,
    decreases terms.len(),
{
    let longer = terms.insert(i, term);
    if i == terms.len() {
        assert(longer.drop_last() =~= terms);
    } else {
        lemma_sum_insert(terms.drop_last(), i, term);
        assert(longer.drop_last() =~= terms.drop_last().insert(i, term));
        assert(longer.last() == terms.last());
    }
}

/// Replacing a term changes the sum by the difference of the two terms.
pub proof fn lemma_sum_update(terms: Seq<nat>, i: int, term: nat)
    requires
        0 <= i < terms.len(),
    ensures
        sum(terms.update(i, term)) + terms[i] == sum(terms) + term,
    decreases terms.len(),
{
    let changed = terms.update(i, term);
    if i == terms.len() - 1 {
        assert(changed.drop_last() =~= terms.drop_last());
    } else {
        lemma_sum_update(terms.drop_last(), i, term);
        assert(changed.drop_last() =~= terms.drop_last().update(i, term));
        assert(changed.last() == terms.last());
    }
}

} // verus!
