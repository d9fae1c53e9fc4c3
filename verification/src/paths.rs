//! Destination path derivation for the recursive driver: each descendant
//! of the source dataset maps to the destination dataset plus the same
//! suffix.

use vstd::prelude::*;

use crate::strutil::has_prefix;

verus! {

/// Derives the destination dataset for one descendant of the source
/// dataset: the source prefix is replaced by the destination prefix.
/// A descendant that does not start with the source prefix yields nothing.
pub fn derive_destination(src_prefix: &str, dest_prefix: &str, child: &str) -> (r: Option<String>)
    ensures
        (r is Some) <==> has_prefix(child@, src_prefix@),
        r matches Some(d) ==> d@ == dest_prefix@ + child@.skip(src_prefix@.len() as int),
{
    if crate::strutil::starts_with_str(child, src_prefix) {
        let n = src_prefix.unicode_len();
        let len = child.unicode_len();
        let suffix = child.substring_char(n, len);
        proof {
            assert(suffix@ =~= child@.skip(src_prefix@.len() as int));
        }
        let mut d = dest_prefix.to_owned();
        d.append(suffix);
        Some(d)
    } else {
        None
    }
}

} // verus!
