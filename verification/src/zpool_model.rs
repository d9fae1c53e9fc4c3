//! The data model of a structured pool listing: the output header and the
//! per-pool and per-device entries it describes.

use std::collections::BTreeMap;

use vstd::prelude::*;

verus! {

/// A structured pool listing: the reporting command's version header and
/// the pools it lists.
#[derive(Debug)]
pub struct ZpoolList {
    pub output_version: ZpoolListOutputVersion,
    pub pools: Vec<ZpoolListPool>,
}

/// The version header of a structured pool listing.
#[derive(Debug)]
pub struct ZpoolListOutputVersion {
    pub command: String,
    pub vers_major: u32,
    pub vers_minor: u32,
}

/// One listed pool with its identity, state and devices.
#[derive(Debug)]
pub struct ZpoolListPool {
    pub name: String,
    pub kind: String,
    pub state: String,
    pub pool_guid: String,
    pub txg: String,
    pub spa_version: String,
    pub zpl_version: String,
    pub properties: BTreeMap<String, ZpoolListVdevProperty>,
    pub vdev: BTreeMap<String, ZpoolListVdev>,
}

/// One device of a listed pool.
#[derive(Debug)]
pub struct ZpoolListVdev {
    pub name: String,
    pub vdev_type: String,
    pub guid: String,
    pub class: String,
    pub state: String,
    pub properties: BTreeMap<String, ZpoolListVdevProperty>,
}

/// One property of a listed device.
#[derive(Debug)]
pub struct ZpoolListVdevProperty {
    pub name: String,
    pub value: String,
    pub source: ZpoolListVdevPropertySource,
}

/// Where a listed device property's value came from.
#[derive(Debug)]
pub struct ZpoolListVdevPropertySource {
    pub kind: String,
    pub data: String,
}

/// One pool property to set, as a name and value pair.
#[derive(Debug)]
pub struct PoolProperty {
    pub property: String,
    pub value: String,
}

} // verus!
