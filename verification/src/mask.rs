//! Boolean-mask filtering of sequences, as specification functions, with the
//! lemmas that relate a filtered sequence to the original one.
//!
//! A mask is a sequence of booleans, one per element. Filtering retains
//! exactly the elements whose flag is true, preserving their relative order.

use vstd::prelude::*;

verus! {

/// How many flags of `keep` are true.
pub open spec fn count_true(keep: Seq<bool>) -> int
    decreases keep.len(),
{
    if keep.len() == 0 {
        0
    } else {
        count_true(keep.drop_last()) + if keep.last() {
            1int
        } else {
            0int
        }
    }
}

/// The elements of `s` whose flag in `keep` is true, in their original order.
/// Meaningful when `s` and `keep` have the same length; an empty `s` yields
/// an empty result whatever the mask says.
pub open spec fn filter_by<A>(s: Seq<A>, keep: Seq<bool>) -> Seq<A>
    decreases keep.len(),
{
    if keep.len() == 0 || s.len() == 0 {
        Seq::empty()
    } else {
        let init = filter_by(s.drop_last(), keep.drop_last());
        if keep.last() {
            init.push(s.last())
        } else {
            init
        }
    }
}

/// The original index of the `j`-th retained element under the mask `keep`.
pub open spec fn kept_index(keep: Seq<bool>, j: int) -> int
    decreases keep.len(),
{
    if keep.len() == 0 {
        0
    } else if keep.last() && j == count_true(keep) - 1 {
        keep.len() - 1
    } else {
        kept_index(keep.drop_last(), j)
    }
}

pub proof fn lemma_count_true_le(keep: Seq<bool>)
    ensures
        0 <= count_true(keep) <= keep.len(),
    decreases keep.len(),
{
    if keep.len() > 0 {
        lemma_count_true_le(keep.drop_last());
    }
}

pub proof fn lemma_filter_by_len<A>(s: Seq<A>, keep: Seq<bool>)
    requires
        s.len() == keep.len(),
    ensures
        filter_by(s, keep).len() == count_true(keep),
    decreases keep.len(),
{
    if keep.len() > 0 {
        lemma_filter_by_len(s.drop_last(), keep.drop_last());
    }
}

/// If every flag is true, the count of retained elements is the whole length,
/// and conversely.
pub proof fn lemma_count_true_all(keep: Seq<bool>)
    ensures
        (forall|i: int| 0 <= i < keep.len() ==> keep[i]) <==> count_true(keep) == keep.len(),
    decreases keep.len(),
{
    lemma_count_true_le(keep);
    if keep.len() > 0 {
        lemma_count_true_le(keep.drop_last());
        lemma_count_true_all(keep.drop_last());
        assert(forall|i: int| 0 <= i < keep.len() - 1 ==> keep.drop_last()[i] == keep[i]);
        if count_true(keep) == keep.len() {
            assert(keep.last());
            assert(count_true(keep.drop_last()) == keep.len() - 1);
        }
        if forall|i: int| 0 <= i < keep.len() ==> keep[i] {
            assert(keep[keep.len() - 1]);
        }
    }
}

/// Order-preserving compaction: the `j`-th retained element of a filtered
/// sequence is the original element at its pre-filter index, that index
/// carries a true flag, and those indices are within bounds.
pub proof fn lemma_filter_by_index<A>(s: Seq<A>, keep: Seq<bool>, j: int)
    requires
        s.len() == keep.len(),
        0 <= j < count_true(keep),
    ensures
        0 <= kept_index(keep, j) < keep.len(),
        keep[kept_index(keep, j)],
        filter_by(s, keep)[j] == s[kept_index(keep, j)],
    decreases keep.len(),
{
    lemma_filter_by_len(s, keep);
    lemma_count_true_le(keep);
    if keep.len() > 0 {
        lemma_filter_by_len(s.drop_last(), keep.drop_last());
        if keep.last() && j == count_true(keep) - 1 {
            assert(filter_by(s, keep)[j] == s.last());
        } else {
            lemma_filter_by_index(s.drop_last(), keep.drop_last(), j);
            assert(s.drop_last()[kept_index(keep.drop_last(), j)]
                == s[kept_index(keep.drop_last(), j)]);
        }
    }
}

/// The pre-filter indices of retained elements are strictly increasing:
/// filtering keeps the original relative order.
pub proof fn lemma_kept_index_increasing(keep: Seq<bool>, j1: int, j2: int)
    requires
        0 <= j1 < j2 < count_true(keep),
    ensures
        kept_index(keep, j1) < kept_index(keep, j2),
    decreases keep.len(),
{
    lemma_count_true_le(keep);
    if keep.last() && j2 == count_true(keep) - 1 {
        if keep.last() && j1 == count_true(keep) - 1 {
            assert(false);
        } else {
            lemma_kept_index_in_bounds(keep.drop_last(), j1);
        }
    } else {
        lemma_kept_index_increasing(keep.drop_last(), j1, j2);
    }
}

pub proof fn lemma_kept_index_in_bounds(keep: Seq<bool>, j: int)
    requires
        0 <= j < count_true(keep),
    ensures
        0 <= kept_index(keep, j) < keep.len(),
        keep[kept_index(keep, j)],
    decreases keep.len(),
{
    lemma_count_true_le(keep);
    if keep.len() > 0 {
        if keep.last() && j == count_true(keep) - 1 {
        } else {
            lemma_kept_index_in_bounds(keep.drop_last(), j);
        }
    }
}

/// An all-true mask filters a sequence to itself.
pub proof fn lemma_filter_by_all_true<A>(s: Seq<A>, keep: Seq<bool>)
    requires
        s.len() == keep.len(),
        count_true(keep) == keep.len(),
    ensures
        filter_by(s, keep) == s,
    decreases keep.len(),
{
    lemma_count_true_le(keep);
    if keep.len() > 0 {
        lemma_count_true_le(keep.drop_last());
        assert(keep.last());
        lemma_filter_by_all_true(s.drop_last(), keep.drop_last());
        assert(filter_by(s, keep) =~= s);
    }
}

/// Under an all-true mask every element keeps its index.
pub proof fn lemma_kept_index_all_true(keep: Seq<bool>, j: int)
    requires
        count_true(keep) == keep.len(),
        0 <= j < keep.len(),
    ensures
        kept_index(keep, j) == j,
    decreases keep.len(),
{
    lemma_count_true_le(keep);
    lemma_count_true_le(keep.drop_last());
    assert(keep.last());
    if j == keep.len() - 1 {
    } else {
        lemma_kept_index_all_true(keep.drop_last(), j);
    }
}

/// Appending one element to a sequence and its mask extends the filtered
/// result by that element exactly when its flag is true. This is the step a
/// compacting loop takes.
pub proof fn lemma_filter_by_push<A>(s: Seq<A>, keep: Seq<bool>, x: A, b: bool)
    requires
        s.len() == keep.len(),
    ensures
        count_true(keep.push(b)) == count_true(keep) + if b {
            1int
        } else {
            0int
        },
        filter_by(s.push(x), keep.push(b)) == if b {
            filter_by(s, keep).push(x)
        } else {
            filter_by(s, keep)
        },
{
    assert(keep.push(b).drop_last() =~= keep);
    assert(s.push(x).drop_last() =~= s);
    if s.len() == 0 && !b {
        assert(filter_by(s.push(x), keep.push(b)) =~= filter_by(s, keep));
    }
}

} // verus!
