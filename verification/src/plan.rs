//! The transfer planner: walking the timeline forward from the basis and
//! deciding which entries need a transfer.
//!
//! Entries already present on both sides need no transfer but become the
//! incremental reference for what follows; bookmarks without a destination
//! match are skipped outright (they cannot be sent, and with the matching
//! snapshot absent they cannot serve as a reference either); every other
//! entry is sent incrementally from the previous reference, or as a full
//! stream when no reference has been established yet.

use vstd::prelude::*;

use crate::basis::basis_spec;
use crate::record::RecordKind;
use crate::timeline::MergedEntry;

verus! {

/// One planned transfer: the snapshot to send and the reference it is sent
/// incrementally from (`None` means a full stream).
#[derive(Debug)]
pub struct TransferStep {
    pub snapshot_name: String,
    pub from_reference: Option<String>,
}

/// A planned transfer, by the character sequences involved.
pub ghost struct PlanStep {
    pub name: Seq<char>,
    pub from: Option<Seq<char>>,
}

/// The transfer a step performs, by the character sequences involved.
pub open spec fn step_view(s: TransferStep) -> PlanStep {
    PlanStep {
        name: s.snapshot_name@,
        from: match s.from_reference {
            Some(f) => Some(f@),
            None => None,
        },
    }
}

/// The transfers a plan performs, in order.
pub open spec fn plan_view(p: Seq<TransferStep>) -> Seq<PlanStep> {
    Seq::new(p.len(), |i: int| step_view(p[i]))
}

/// The planner's walk over a timeline suffix, carrying the name of the
/// previous usable entry as the incremental reference.
pub open spec fn plan_from(t: Seq<MergedEntry>, prev: Option<Seq<char>>) -> Seq<PlanStep>
    decreases t.len(),
{
    if t.len() == 0 {
        Seq::empty()
    } else {
        let e = t[0];
        if e.destination is Some {
            plan_from(t.drop_first(), Some(e.source.name@))
        } else if e.source.kind is Bookmark {
            plan_from(t.drop_first(), prev)
        } else {
            seq![PlanStep { name: e.source.name@, from: prev }] + plan_from(
                t.drop_first(),
                Some(e.source.name@),
            )
        }
    }
}

/// Where the walk starts: at the basis when one was selected, else at the
/// very beginning.
pub open spec fn plan_start(basis: Option<usize>) -> int {
    match basis {
        Some(i) => i as int,
        None => 0,
    }
}

/// Plans the transfers for a timeline and a selected basis: the walk starts
/// at the basis (inclusive) — or at the first entry when there is none —
/// with no incremental reference established.
pub fn plan_transfers(t: &Vec<MergedEntry>, basis: Option<usize>) -> (p: Vec<TransferStep>)
    requires
        basis matches Some(i) ==> i < t@.len(),
    ensures
        plan_view(p@) == plan_from(t@.skip(plan_start(basis)), None::<Seq<char>>),
{
    let start: usize = match basis {
        Some(i) => i,
        None => 0,
    };
    let ghost total = plan_from(t@.skip(start as int), None::<Seq<char>>);
    let mut p: Vec<TransferStep> = Vec::new();
    let mut prev: Option<usize> = None;
    let n = t.len();
    let mut i: usize = start;
    proof {
        assert(plan_view(p@) =~= Seq::<PlanStep>::empty());
    }
    while i < n
        invariant
            start <= i <= n,
            n == t@.len(),
            match prev {
                Some(q) => q < i,
                None => true,
            },
            plan_view(p@) + plan_from(t@.skip(i as int), prev_view(t@, prev)) =~= total,
        decreases n - i,
    {
        let ghost pv = prev_view(t@, prev);
        let ghost suffix = t@.skip(i as int);
        proof {
            assert(suffix[0] == t@[i as int]);
            assert(suffix.drop_first() =~= t@.skip(i + 1));
        }
        let e = &t[i];
        if e.destination.is_some() {
            prev = Some(i);
        } else if matches!(e.source.kind, RecordKind::Bookmark) {
            // cannot be sent, and cannot serve as a reference here
        } else {
            let from_reference = match prev {
                Some(q) => Some(t[q].source.name.clone()),
                None => None,
            };
            let step = TransferStep { snapshot_name: e.source.name.clone(), from_reference };
            proof {
                assert(step_view(step) == PlanStep { name: e.source.name@, from: pv });
            }
            let ghost p_old = p@;
            p.push(step);
            proof {
                assert(plan_view(p@) =~= plan_view(p_old) + seq![
                    PlanStep { name: t@[i as int].source.name@, from: pv },
                ]);
                assert(plan_view(p_old) + plan_from(suffix, pv) =~= total);
                assert(plan_from(suffix, pv) =~= seq![
                    PlanStep { name: t@[i as int].source.name@, from: pv },
                ] + plan_from(t@.skip(i + 1), Some(t@[i as int].source.name@)));
                assert(plan_view(p@) + plan_from(t@.skip(i + 1), Some(t@[i as int].source.name@))
                    =~= total);
            }
            prev = Some(i);
        }
        i = i + 1;
    }
    proof {
        assert(plan_from(t@.skip(n as int), prev_view(t@, prev)) =~= Seq::<PlanStep>::empty());
        assert(plan_view(p@) =~= total);
    }
    p
}

/// The incremental reference the walk holds when `prev` marks the last
/// usable entry.
pub open spec fn prev_view(t: Seq<MergedEntry>, prev: Option<usize>) -> Option<Seq<char>> {
    match prev {
        Some(q) => Some(t[q as int].source.name@),
        None => None,
    }
}

/// A bookmark with no destination match leaves no trace on the plan: it
/// produces no transfer and does not move the incremental reference, so the
/// walk plans exactly as if the entry were not there.
pub proof fn lemma_bookmark_skip(t: Seq<MergedEntry>, prev: Option<Seq<char>>, i: int)
    requires
        0 <= i < t.len(),
        t[i].source.kind is Bookmark,
        t[i].destination is None,
    ensures
        plan_from(t.remove(i), prev) == plan_from(t, prev),
    decreases t.len(),
{
    t.remove_ensures(i);
    if i == 0 {
        assert(t.remove(0) =~= t.drop_first());
    } else {
        assert(t.remove(i)[0] == t[0]);
        assert(t.remove(i).drop_first() =~= t.drop_first().remove(i - 1));
        assert(t.drop_first()[i - 1] == t[i]);
        let e = t[0];
        if e.destination is Some {
            lemma_bookmark_skip(t.drop_first(), Some(e.source.name@), i - 1);
        } else if e.source.kind is Bookmark {
            lemma_bookmark_skip(t.drop_first(), prev, i - 1);
        } else {
            lemma_bookmark_skip(t.drop_first(), Some(e.source.name@), i - 1);
        }
    }
}

/// On a timeline whose every entry is either present on both sides or a
/// bookmark, the walk plans no transfer at all.
pub proof fn lemma_plan_from_settled(t: Seq<MergedEntry>, prev: Option<Seq<char>>)
    requires
        forall|i: int|
            0 <= i < t.len() ==> (#[trigger] t[i]).destination is Some || t[i].source.kind
                is Bookmark,
    ensures
        plan_from(t, prev) == Seq::<PlanStep>::empty(),
    decreases t.len(),
{
    if t.len() > 0 {
        assert(forall|i: int|
            0 <= i < t.drop_first().len() ==> #[trigger] t.drop_first()[i] == t[i + 1]);
        let e = t[0];
        if e.destination is Some {
            lemma_plan_from_settled(t.drop_first(), Some(e.source.name@));
        } else {
            lemma_plan_from_settled(t.drop_first(), prev);
        }
    }
}

/// Where the walk starts given the backward scan's outcome.
pub open spec fn start_of(basis: Option<int>) -> int {
    match basis {
        Some(i) => i,
        None => 0,
    }
}

/// The timeline as a following run would list it after every planned
/// transfer succeeded: from the walk's starting point on, every snapshot
/// entry is present on both sides.  Only presence matters to the planner,
/// so the source record stands in for the received copy.
pub open spec fn after_pass(t: Seq<MergedEntry>, start: int) -> Seq<MergedEntry> {
    Seq::new(
        t.len(),
        |i: int|
            if i >= start && t[i].source.kind is Snapshot && t[i].destination is None {
                MergedEntry { guid: t[i].guid, source: t[i].source, destination: Some(t[i].source) }
            } else {
                t[i]
            },
    )
}

/// Re-running the pass after a fully successful pass plans no transfer:
/// every entry the first walk covered is then present on both sides, the
/// new basis lands at or after the old starting point, and what follows it
/// is settled.
pub proof fn lemma_second_pass_plans_nothing(t: Seq<MergedEntry>)
    ensures
        ({
            let t2 = after_pass(t, start_of(basis_spec(t)));
            plan_from(t2.skip(start_of(basis_spec(t2))), None::<Seq<char>>)
                == Seq::<PlanStep>::empty()
        }),
{
    crate::basis::lemma_basis_spec_props(t);
    let start = start_of(basis_spec(t));
    let t2 = after_pass(t, start);
    crate::basis::lemma_basis_spec_props(t2);
    match basis_spec(t2) {
        Some(b2) => {
            assert(b2 >= start) by {
                match basis_spec(t) {
                    Some(b) => {
                        assert(t2[b].destination is Some);
                        if b2 < b {
                            assert(t2[b].destination is None);
                        }
                    },
                    None => {},
                }
            }
            let s = t2.skip(b2);
            assert forall|k: int|
                0 <= k < s.len() implies (#[trigger] s[k]).destination is Some || s[k].source.kind
                is Bookmark by {
                assert(s[k] == t2[b2 + k]);
                if k > 0 {
                    let j = b2 + k;
                    assert(t2[j].destination is None);
                    assert(t2[j].source == t[j].source);
                    if t[j].source.kind is Snapshot {
                        if t[j].destination is None {
                            assert(t2[j].destination is Some);
                        } else {
                            assert(t2[j] == t[j]);
                        }
                        assert(false);
                    }
                }
            }
            lemma_plan_from_settled(s, None::<Seq<char>>);
        },
        None => {
            match basis_spec(t) {
                Some(b) => {
                    assert(t2[b].destination is Some);
                    assert(t2[b].destination is None);
                },
                None => {
                    let s = t2.skip(0);
                    assert forall|k: int|
                        0 <= k < s.len() implies (#[trigger] s[k]).destination is Some
                        || s[k].source.kind is Bookmark by {
                        assert(s[k] == t2[k]);
                        assert(t2[k].destination is None);
                        assert(t2[k].source == t[k].source);
                        if t[k].source.kind is Snapshot {
                            assert(t[k].destination is None);
                            assert(t2[k].destination is Some);
                            assert(false);
                        }
                    }
                    lemma_plan_from_settled(s, None::<Seq<char>>);
                },
            }
        },
    }
}

} // verus!
