//! The library-side face of the snapshot command: default construction
//! and a listing that must parse.

use zoop::record::records_from_rows;
use zoop::ZcopyOpts;

#[test]
fn zfs() {
    let _ = ZcopyOpts::default();
}

#[test]
fn zfs_list() {
    let rows = vec![vec![
        "8405881".to_string(),
        "tank@a".to_string(),
        "g1".to_string(),
        "snapshot".to_string(),
    ]];
    let _ = records_from_rows(&rows).expect("list failed");
}
