//! The flag sets a replication pass hands to the sending and receiving
//! commands, derived from the pass options.

use vstd::prelude::*;

use crate::ZcopyOpts;

verus! {

/// Flags for the sending side of a transfer.
#[derive(Debug, PartialEq, Eq, Structural, Clone, Copy)]
pub struct SendFlags {
    pub embed_data: bool,
    pub compressed: bool,
    pub large_block: bool,
    pub raw: bool,
    pub verbose: bool,
}

/// Flags for the receiving side of a transfer.
#[derive(Debug, PartialEq, Eq, Structural, Clone, Copy)]
pub struct RecvFlags {
    pub force: bool,
    pub resumable: bool,
    pub dry_run: bool,
    pub verbose: bool,
}

/// The flags used for every transfer of a pass, resumed or normal: the
/// stream always carries embedded, compressed, large-block, raw data; the
/// receive always forces; resumability, dry-run and verbosity follow the
/// pass options.
pub fn transfer_flags(opts: &ZcopyOpts) -> (r: (SendFlags, RecvFlags))
    ensures
        r.0 == (SendFlags {
            embed_data: true,
            compressed: true,
            large_block: true,
            raw: true,
            verbose: opts.verbose,
        }),
        r.1 == (RecvFlags {
            force: true,
            resumable: opts.resumable,
            dry_run: opts.dry_run,
            verbose: opts.verbose,
        }),
{
    let send = SendFlags {
        embed_data: true,
        compressed: true,
        large_block: true,
        raw: true,
        verbose: opts.verbose,
    };
    let recv = RecvFlags {
        force: true,
        resumable: opts.resumable,
        dry_run: opts.dry_run,
        verbose: opts.verbose,
    };
    (send, recv)
}

} // verus!
