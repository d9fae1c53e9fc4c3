//! The basis selector: choosing the starting point of a replication plan.
//!
//! The destination applies incremental streams only in creation order, so
//! the only safe starting point is the most recent entry already present on
//! both sides.  Anything older that the destination is missing is left
//! alone rather than repaired by destroying newer destination state.

use vstd::prelude::*;

use crate::timeline::{timeline_sorted, MergedEntry};

verus! {

/// The index of the latest timeline entry present on both sides, found by
/// scanning from the latest entry backward.
pub open spec fn basis_spec(t: Seq<MergedEntry>) -> Option<int>
    decreases t.len(),
{
    if t.len() == 0 {
        None
    } else if t.last().destination is Some {
        Some(t.len() - 1)
    } else {
        basis_spec(t.drop_last())
    }
}

/// The backward scan finds the unique index that is present on both sides
/// with nothing present after it.
pub proof fn lemma_basis_spec_at(t: Seq<MergedEntry>, i: int)
    requires
        0 <= i < t.len(),
        t[i].destination is Some,
        forall|j: int| i < j < t.len() ==> (#[trigger] t[j]).destination is None,
    ensures
        basis_spec(t) == Some(i),
    decreases t.len(),
{
    if i == t.len() - 1 {
    } else {
        assert(t.last().destination is None);
        lemma_basis_spec_at(t.drop_last(), i);
    }
}

/// When no entry is present on both sides the scan finds nothing.
pub proof fn lemma_basis_spec_none(t: Seq<MergedEntry>)
    requires
        forall|j: int| 0 <= j < t.len() ==> (#[trigger] t[j]).destination is None,
    ensures
        basis_spec(t) is None,
    decreases t.len(),
{
    if t.len() > 0 {
        lemma_basis_spec_none(t.drop_last());
    }
}

/// What the scan's outcome says about the timeline.
pub proof fn lemma_basis_spec_props(t: Seq<MergedEntry>)
    ensures
        match basis_spec(t) {
            Some(i) => 0 <= i < t.len() && t[i].destination is Some && (forall|j: int|
                i < j < t.len() ==> (#[trigger] t[j]).destination is None),
            None => forall|j: int| 0 <= j < t.len() ==> (#[trigger] t[j]).destination is None,
        },
    decreases t.len(),
{
    if t.len() > 0 && t.last().destination is None {
        lemma_basis_spec_props(t.drop_last());
        match basis_spec(t.drop_last()) {
            Some(i) => {
                assert forall|j: int| i < j < t.len() implies (#[trigger] t[j]).destination
                    is None by {
                    if j < t.len() - 1 {
                        assert(t.drop_last()[j] == t[j]);
                    }
                }
            },
            None => {
                assert forall|j: int| 0 <= j < t.len() implies (#[trigger] t[j]).destination
                    is None by {
                    if j < t.len() - 1 {
                        assert(t.drop_last()[j] == t[j]);
                    }
                }
            },
        }
    }
}

/// Selects the replication basis: the latest timeline entry present on both
/// sides, or nothing when the destination holds none of the source's
/// entries (a brand-new destination, so the plan starts from the very first
/// entry with a full stream).
///
/// On an ordered timeline the selected entry carries the greatest creation
/// ordinal among all entries present on both sides, so it is always a legal
/// incremental starting point.
pub fn select_basis(t: &Vec<MergedEntry>) -> (r: Option<usize>)
    ensures
        match r {
            Some(i) => {
                &&& i < t@.len()
                &&& t@[i as int].destination is Some
                &&& forall|j: int|
                    i < j < t@.len() ==> (#[trigger] t@[j]).destination is None
                &&& basis_spec(t@) == Some(i as int)
            },
            None => {
                &&& forall|j: int| 0 <= j < t@.len() ==> (#[trigger] t@[j]).destination is None
                &&& basis_spec(t@) is None
            },
        },
        timeline_sorted(t@) ==> match r {
            Some(i) => forall|j: int|
                0 <= j < t@.len() && (#[trigger] t@[j]).destination is Some
                    ==> crate::strutil::lex_le(
                    t@[j].source.create_ordinal@,
                    t@[i as int].source.create_ordinal@,
                ),
            None => true,
        },
{
    let mut k = t.len();
    while k > 0
        invariant
            k <= t@.len(),
            forall|j: int| k <= j < t@.len() ==> (#[trigger] t@[j]).destination is None,
        decreases k,
    {
        k = k - 1;
        if t[k].destination.is_some() {
            proof {
                lemma_basis_spec_at(t@, k as int);
                if timeline_sorted(t@) {
                    crate::timeline::lemma_timeline_ordinals_nondecreasing(t@);
                }
            }
            return Some(k);
        }
    }
    proof {
        lemma_basis_spec_none(t@);
    }
    None
}

} // verus!
