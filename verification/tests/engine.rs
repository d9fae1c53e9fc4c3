//! Planning scenarios: merging, basis selection and transfer planning on
//! concrete record sets.

use zoop::basis::select_basis;
use zoop::plan::{plan_transfers, TransferStep};
use zoop::plan_replication;
use zoop::record::{Record, RecordKind};
use zoop::timeline::{merge_records, MergedEntry};

fn snap(name: &str, ord: &str, guid: &str) -> Record {
    Record {
        kind: RecordKind::Snapshot,
        name: name.to_string(),
        create_ordinal: ord.to_string(),
        guid: guid.to_string(),
    }
}

fn bookmark(name: &str, ord: &str, guid: &str) -> Record {
    Record {
        kind: RecordKind::Bookmark,
        name: name.to_string(),
        create_ordinal: ord.to_string(),
        guid: guid.to_string(),
    }
}

fn run_plan(src: Vec<Record>, dst: Vec<Record>) -> (Vec<MergedEntry>, Option<usize>, Vec<TransferStep>) {
    let timeline = merge_records(&src, dst);
    let basis = select_basis(&timeline);
    let steps = plan_transfers(&timeline, basis);
    (timeline, basis, steps)
}

fn step_names(steps: &[TransferStep]) -> Vec<(String, Option<String>)> {
    steps
        .iter()
        .map(|s| (s.snapshot_name.clone(), s.from_reference.clone()))
        .collect()
}

#[test]
fn scenario_empty_destination() {
    // source s1(ord=10,g1), s2(ord=20,g2); destination empty
    let src = vec![snap("s1", "10", "g1"), snap("s2", "20", "g2")];
    let (timeline, basis, steps) = run_plan(src, vec![]);
    assert_eq!(timeline.len(), 2);
    assert_eq!(basis, None);
    assert_eq!(
        step_names(&steps),
        vec![
            ("s1".to_string(), None),
            ("s2".to_string(), Some("s1".to_string())),
        ]
    );
}

#[test]
fn scenario_shared_first_snapshot() {
    // source s1..s3; destination holds s1 (same identity g1)
    let src = vec![
        snap("s1", "10", "g1"),
        snap("s2", "20", "g2"),
        snap("s3", "30", "g3"),
    ];
    let dst = vec![snap("d1", "7", "g1")];
    let (_, basis, steps) = run_plan(src, dst);
    assert_eq!(basis, Some(0));
    assert_eq!(
        step_names(&steps),
        vec![
            ("s2".to_string(), Some("s1".to_string())),
            ("s3".to_string(), Some("s2".to_string())),
        ]
    );
}

#[test]
fn scenario_unrelated_destination_snapshot() {
    // the destination-only snapshot x(g9) is dropped during the merge and
    // the plan proceeds as with an empty destination
    let src = vec![snap("s1", "10", "g1"), snap("s2", "20", "g2")];
    let dst = vec![snap("x", "15", "g9")];
    let (timeline, basis, steps) = run_plan(src, dst);
    assert_eq!(timeline.len(), 2);
    assert!(timeline.iter().all(|e| e.guid != "g9"));
    assert_eq!(basis, None);
    assert_eq!(
        step_names(&steps),
        vec![
            ("s1".to_string(), None),
            ("s2".to_string(), Some("s1".to_string())),
        ]
    );
}

#[test]
fn scenario_gap_before_latest_shared() {
    // the destination kept s1 and s3 but dropped s2: the scan starts at s3,
    // the gap is left alone and nothing needs a transfer
    let src = vec![
        snap("s1", "10", "g1"),
        snap("s2", "20", "g2"),
        snap("s3", "30", "g3"),
    ];
    let dst = vec![snap("d1", "7", "g1"), snap("d3", "9", "g3")];
    let (_, basis, steps) = run_plan(src, dst);
    assert_eq!(basis, Some(2));
    assert!(steps.is_empty());
}

#[test]
fn bookmark_is_skipped_and_keeps_cursor() {
    // a bookmark without a destination match produces no transfer and does
    // not move the incremental reference
    let src = vec![
        snap("s1", "10", "g1"),
        bookmark("ds#b2", "20", "g2"),
        snap("s3", "30", "g3"),
    ];
    let dst = vec![snap("d1", "7", "g1")];
    let (_, basis, steps) = run_plan(src, dst);
    assert_eq!(basis, Some(0));
    assert_eq!(
        step_names(&steps),
        vec![("s3".to_string(), Some("s1".to_string()))]
    );
}

#[test]
fn merge_keeps_every_source_identity_once() {
    let src = vec![
        snap("s2", "20", "g2"),
        snap("s1", "10", "g1"),
        snap("s3", "30", "g3"),
    ];
    let dst = vec![snap("y", "5", "g8"), snap("d2", "6", "g2")];
    let timeline = merge_records(&src, dst);
    let mut guids: Vec<&str> = timeline.iter().map(|e| e.guid.as_str()).collect();
    guids.sort();
    assert_eq!(guids, vec!["g1", "g2", "g3"]);
    // the matched identity carries its destination record, the others none
    for e in &timeline {
        if e.guid == "g2" {
            assert!(e.destination.is_some());
        } else {
            assert!(e.destination.is_none());
        }
    }
}

#[test]
fn merge_orders_by_source_ordinal() {
    let src = vec![
        snap("s3", "30", "g3"),
        snap("s1", "10", "g1"),
        snap("s2", "20", "g2"),
    ];
    let timeline = merge_records(&src, vec![]);
    let ordinals: Vec<&str> = timeline
        .iter()
        .map(|e| e.source.create_ordinal.as_str())
        .collect();
    assert_eq!(ordinals, vec!["10", "20", "30"]);
}

#[test]
fn merge_breaks_ordinal_ties_by_identity() {
    let src = vec![snap("b", "10", "gb"), snap("a", "10", "ga")];
    let timeline = merge_records(&src, vec![]);
    let names: Vec<&str> = timeline.iter().map(|e| e.source.name.as_str()).collect();
    assert_eq!(names, vec!["a", "b"]);
}

#[test]
fn second_pass_plans_nothing() {
    // after a successful pass the destination holds every transferred
    // snapshot; planning again finds nothing to do
    let src = vec![
        snap("s1", "10", "g1"),
        snap("s2", "20", "g2"),
        snap("s3", "30", "g3"),
    ];
    let dst = vec![snap("d1", "7", "g1")];
    let (_, basis, steps) = run_plan(src.clone(), dst.clone());
    assert_eq!(basis, Some(0));
    assert_eq!(steps.len(), 2);

    // the destination now also lists what was transferred, under its own
    // creation ordinals
    let mut dst2 = dst;
    for (i, step) in steps.iter().enumerate() {
        let guid = src
            .iter()
            .find(|r| r.name == step.snapshot_name)
            .unwrap()
            .guid
            .clone();
        dst2.push(Record {
            kind: RecordKind::Snapshot,
            name: format!("r{}", i),
            create_ordinal: format!("9{}", i),
            guid,
        });
    }
    let (_, basis2, steps2) = run_plan(src, dst2);
    assert_eq!(basis2, Some(2));
    assert!(steps2.is_empty());
}

#[test]
fn full_history_resync_after_empty_destination() {
    // a single snapshot source against an empty destination sends one full
    // stream
    let src = vec![snap("only", "42", "g1")];
    let (_, basis, steps) = run_plan(src, vec![]);
    assert_eq!(basis, None);
    assert_eq!(step_names(&steps), vec![("only".to_string(), None)]);
}

#[test]
fn planning_pipeline_matches_its_stages() {
    let src = vec![
        snap("s1", "10", "g1"),
        snap("s2", "20", "g2"),
        snap("s3", "30", "g3"),
    ];
    let dst = vec![snap("d2", "5", "g2")];
    let plan = plan_replication(&src, dst.clone());
    let (timeline, basis, steps) = run_plan(src, dst);
    assert_eq!(plan.timeline.len(), timeline.len());
    assert_eq!(plan.basis, basis);
    assert_eq!(plan.basis, Some(1));
    assert_eq!(step_names(&plan.steps), step_names(&steps));
    assert_eq!(
        step_names(&plan.steps),
        vec![("s3".to_string(), Some("s2".to_string()))]
    );
}

#[test]
fn empty_source_plans_nothing() {
    let (timeline, basis, steps) = run_plan(vec![], vec![snap("d", "1", "g1")]);
    assert!(timeline.is_empty());
    assert_eq!(basis, None);
    assert!(steps.is_empty());
}
