//! The resume gate, the outcome classifier, parsing and the small helpers.

use zoop::classify::{classify_failure, CommandFailure};
use zoop::flags::transfer_flags;
use zoop::logfmt::{level_to_msg_prefix, LogLevel};
use zoop::paths::derive_destination;
use zoop::pool::{pools_from_output, single_pool_from_output, Error};
use zoop::record::{records_from_rows, RecordKind, RowError};
use zoop::resume::{resume_decision, sole_cell, ResumeAction};
use zoop::strutil::{contains_str, str_compare, Comparison};
use zoop::ZcopyOpts;

#[test]
fn resume_sentinel_proceeds() {
    assert!(matches!(resume_decision("-"), ResumeAction::Proceed));
}

#[test]
fn resume_token_is_passed_verbatim() {
    match resume_decision("1-abc-def-0") {
        ResumeAction::Resume(t) => assert_eq!(t, "1-abc-def-0"),
        ResumeAction::Proceed => panic!("token must be resumed"),
    }
}

#[test]
fn sole_cell_extracts_single_value() {
    let rows = vec![vec!["1-abc".to_string()]];
    assert_eq!(sole_cell(&rows), Some("1-abc".to_string()));
    assert_eq!(sole_cell(&vec![]), None);
    let two_cells = vec![vec!["a".to_string(), "b".to_string()]];
    assert_eq!(sole_cell(&two_cells), None);
    let two_rows = vec![vec!["a".to_string()], vec!["b".to_string()]];
    assert_eq!(sole_cell(&two_rows), None);
}

#[test]
fn classify_no_such_path() {
    let r = classify_failure("cannot open 'tank/data': dataset does not exist", 1);
    assert!(matches!(r, CommandFailure::NoSuchPath));
}

#[test]
fn classify_resume_vanished() {
    let r = classify_failure(
        "cannot resume send: incremental source 0xabc no longer exists",
        1,
    );
    assert!(matches!(r, CommandFailure::CannotResumeVanished));
}

#[test]
fn classify_resume_other() {
    let r = classify_failure("cannot resume send: stream is corrupt", 1);
    assert!(matches!(r, CommandFailure::CannotResumeOther));
}

#[test]
fn classify_stream_read_failure() {
    let r = classify_failure("cannot receive: failed to read from stream", 1);
    assert!(matches!(r, CommandFailure::ReceiveStreamReadFailure));
}

#[test]
fn classify_new_filesystem_conflict() {
    let r = classify_failure(
        "cannot receive new filesystem stream: destination has snapshots",
        1,
    );
    assert!(matches!(r, CommandFailure::ReceiveNewFilesystemConflict));
}

#[test]
fn classify_unrecognized_keeps_text_and_status() {
    let r = classify_failure("some inexplicable failure", 42);
    match r {
        CommandFailure::GenericProcessFailure { diagnostic, status } => {
            assert_eq!(diagnostic, "some inexplicable failure");
            assert_eq!(status, 42);
        }
        _ => panic!("must stay generic"),
    }
}

#[test]
fn classify_missing_object_wins_over_resume_text() {
    let r = classify_failure(
        "cannot resume send: dataset 'tank/x' does not exist",
        1,
    );
    assert!(matches!(r, CommandFailure::NoSuchPath));
}

#[test]
fn rows_parse_in_field_order() {
    let rows = vec![
        vec![
            "8405881".to_string(),
            "tank/data@a".to_string(),
            "g-one".to_string(),
            "snapshot".to_string(),
        ],
        vec![
            "8405990".to_string(),
            "tank/data#b".to_string(),
            "g-two".to_string(),
            "bookmark".to_string(),
            "extra-cell-ignored".to_string(),
        ],
    ];
    let recs = records_from_rows(&rows).unwrap();
    assert_eq!(recs.len(), 2);
    assert_eq!(recs[0].kind, RecordKind::Snapshot);
    assert_eq!(recs[0].create_ordinal, "8405881");
    assert_eq!(recs[0].name, "tank/data@a");
    assert_eq!(recs[0].guid, "g-one");
    assert_eq!(recs[1].kind, RecordKind::Bookmark);
    assert_eq!(recs[1].name, "tank/data#b");
}

#[test]
fn rows_with_missing_fields_are_rejected() {
    let rows = vec![
        vec![
            "1".to_string(),
            "n".to_string(),
            "g".to_string(),
            "snapshot".to_string(),
        ],
        vec!["2".to_string(), "m".to_string()],
    ];
    assert_eq!(
        records_from_rows(&rows).unwrap_err(),
        RowError::MissingFields { row: 1 }
    );
}

#[test]
fn rows_with_unknown_kind_are_rejected() {
    let rows = vec![vec![
        "1".to_string(),
        "n".to_string(),
        "g".to_string(),
        "filesystem".to_string(),
    ]];
    assert_eq!(
        records_from_rows(&rows).unwrap_err(),
        RowError::UnknownKind { row: 0 }
    );
}

#[test]
fn records_from_rows_rejects_wrong_result() {
    let rows = vec![vec![
        "1".to_string(),
        "n".to_string(),
        "g".to_string(),
        "snapshot".to_string(),
    ]];
    let recs = records_from_rows(&rows).unwrap();
    assert_ne!(recs[0].name, "g");
    assert_ne!(recs[0].guid, "n");
}

#[test]
fn destination_path_replaces_prefix() {
    assert_eq!(
        derive_destination("tank/src", "backup/dst", "tank/src/home"),
        Some("backup/dst/home".to_string())
    );
    assert_eq!(
        derive_destination("tank/src", "backup/dst", "tank/src"),
        Some("backup/dst".to_string())
    );
    assert_eq!(derive_destination("tank/src", "backup/dst", "other/fs"), None);
}

#[test]
fn default_opts_resume_quietly() {
    let opts = ZcopyOpts::default();
    assert!(!opts.dry_run);
    assert!(!opts.verbose);
    assert!(opts.resumable);
}

#[test]
fn flags_follow_options() {
    let (send, recv) = transfer_flags(&ZcopyOpts::default());
    assert!(send.embed_data && send.compressed && send.large_block && send.raw);
    assert!(!send.verbose);
    assert!(recv.force && recv.resumable);
    assert!(!recv.dry_run && !recv.verbose);

    let opts = ZcopyOpts { dry_run: true, verbose: true, resumable: false };
    let (send, recv) = transfer_flags(&opts);
    assert!(send.verbose);
    assert!(recv.dry_run && recv.verbose && !recv.resumable);
}

#[test]
fn level_prefixes_match_journal_priorities() {
    assert_eq!(level_to_msg_prefix(LogLevel::Error), "<3>");
    assert_eq!(level_to_msg_prefix(LogLevel::Warn), "<4>");
    assert_eq!(level_to_msg_prefix(LogLevel::Info), "<6>");
    assert_eq!(level_to_msg_prefix(LogLevel::Debug), "<7>");
    assert_eq!(level_to_msg_prefix(LogLevel::Trace), "<7>");
}

#[test]
fn pool_listing_splits_lines() {
    let pools = pools_from_output("tank\nbackup\n");
    let names: Vec<&str> = pools.iter().map(|p| p.0.as_str()).collect();
    assert_eq!(names, vec!["tank", "backup"]);
}

#[test]
fn pool_listing_trims_and_strips_carriage_returns() {
    let pools = pools_from_output("tank\r\nbackup\n \t\n");
    let names: Vec<&str> = pools.iter().map(|p| p.0.as_str()).collect();
    assert_eq!(names, vec!["tank", "backup"]);
    assert!(pools_from_output("").is_empty());
    assert!(pools_from_output(" \n\t").is_empty());
}

#[test]
fn single_pool_takes_first_line() {
    let p = single_pool_from_output("tank\nbackup\n").unwrap();
    assert_eq!(p.0, "tank");
    let e = single_pool_from_output("\n").unwrap_err();
    assert_eq!(e.message(), "Pool not found");
    let e2: Error = single_pool_from_output("").unwrap_err();
    assert_eq!(e2.message(), "Pool not found");
}

#[test]
fn string_comparison_is_lexicographic() {
    assert!(matches!(str_compare("10", "20"), Comparison::Less));
    assert!(matches!(str_compare("10", "10"), Comparison::Equal));
    assert!(matches!(str_compare("9", "10"), Comparison::Greater));
    assert!(matches!(str_compare("", "a"), Comparison::Less));
    assert!(contains_str("cannot open: does not exist", "does not exist"));
    assert!(!contains_str("short", "much longer needle"));
}
