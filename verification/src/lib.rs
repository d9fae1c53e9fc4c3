//! Incremental, resumable replication planning for snapshot-capable storage.
//!
//! The library models the listing records of a source and a destination
//! dataset, merges the two views by snapshot identity into an ordered
//! timeline, selects the incremental transfer basis, and plans the sequence
//! of pairwise transfers.  Running the external commands that produce the
//! listings and carry the streams is left to the caller.

use vstd::prelude::*;

use crate::basis::{basis_spec, select_basis};
use crate::plan::{plan_from, plan_start, plan_transfers, plan_view, TransferStep};
use crate::record::Record;
use crate::timeline::{
    distinct_guids, guid_in, merge_records, rec_in, record_key_in, source_in, timeline_sorted,
    MergedEntry,
};

pub mod basis;
pub mod classify;
pub mod flags;
pub mod logfmt;
pub mod paths;
pub mod plan;
pub mod pool;
pub mod record;
pub mod resume;
pub mod strutil;
pub mod timeline;
pub mod zpool_model;

verus! {

/// Options controlling one replication pass.
#[derive(Debug, Clone, Copy)]
pub struct ZcopyOpts {
    pub dry_run: bool,
    pub verbose: bool,
    pub resumable: bool,
}

impl Default for ZcopyOpts {
    /// By default nothing is simulated, output is quiet, and interrupted
    /// receives may be resumed.
    fn default() -> (r: Self)
        ensures
            !r.dry_run,
            !r.verbose,
            r.resumable,
    {
        ZcopyOpts { dry_run: false, verbose: false, resumable: true }
    }
}

/// Everything one replication pass decides from the two sides' listings:
/// the merged timeline, the selected basis, and the transfers to run.
#[derive(Debug)]
pub struct ReplicationPlan {
    pub timeline: Vec<MergedEntry>,
    pub basis: Option<usize>,
    pub steps: Vec<TransferStep>,
}

/// Plans one replication pass from the parsed listings of the two sides:
/// merges them into the ordered timeline, selects the basis, and walks the
/// timeline forward from it into the transfer steps.
pub fn plan_replication(src: &Vec<Record>, dst: Vec<Record>) -> (r: ReplicationPlan)
    ensures
        timeline_sorted(r.timeline@),
        forall|i: int|
            0 <= i < r.timeline@.len() ==> (#[trigger] r.timeline@[i]).guid@
                == r.timeline@[i].source.guid@,
        forall|i: int|
            0 <= i < r.timeline@.len() ==> rec_in(src@, (#[trigger] r.timeline@[i]).source),
        forall|j: int| 0 <= j < src@.len() ==> record_key_in(r.timeline@, #[trigger] src@[j]),
        forall|i: int|
            0 <= i < r.timeline@.len() ==> ((#[trigger] r.timeline@[i]).destination matches Some(d)
                ==> rec_in(dst@, d) && d.guid@ == r.timeline@[i].guid@),
        distinct_guids(src@) ==> forall|i: int|
            0 <= i < r.timeline@.len() ==> (((#[trigger] r.timeline@[i]).destination is Some)
                == guid_in(dst@, r.timeline@[i].guid@)),
        distinct_guids(src@) ==> forall|j: int|
            0 <= j < src@.len() ==> source_in(r.timeline@, #[trigger] src@[j]),
        match r.basis {
            Some(i) => {
                &&& i < r.timeline@.len()
                &&& r.timeline@[i as int].destination is Some
                &&& forall|j: int|
                    i < j < r.timeline@.len() ==> (#[trigger] r.timeline@[j]).destination is None
                &&& basis_spec(r.timeline@) == Some(i as int)
            },
            None => {
                &&& forall|j: int|
                    0 <= j < r.timeline@.len() ==> (#[trigger] r.timeline@[j]).destination is None
                &&& basis_spec(r.timeline@) is None
            },
        },
        plan_view(r.steps@) == plan_from(
            r.timeline@.skip(plan_start(r.basis)),
            None::<Seq<char>>,
        ),
{
    let timeline = merge_records(src, dst);
    let basis = select_basis(&timeline);
    let steps = plan_transfers(&timeline, basis);
    ReplicationPlan { timeline, basis, steps }
}

} // verus!
