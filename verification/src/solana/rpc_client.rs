//! The snapshot slots a node reports and the address of its full snapshot.

use vstd::prelude::*;

verus! {

/// The newest full and incremental snapshot slots of a node.
#[derive(Debug, Clone, Copy, PartialEq, Eq)]
pub struct HighestSnapshotSlot {
    pub full: u64,
    pub incremental: u64,
}

/// The name under which a node serves its newest full snapshot.
pub open spec fn full_snapshot_file() -> Seq<char> {
    "snapshot.tar.bz2"@
}

/// A node serves its newest full snapshot as `snapshot.tar.bz2` under its
/// RPC address.
pub proof fn lemma_full_snapshot_file()
    ensures
        full_snapshot_file() == "snapshot.tar.bz2"@,
{
}

/// The address of the newest full snapshot of the node at `base_url`
/// (`base_url` ends with `/`, as the network URLs do).
pub fn full_snapshot_url(base_url: &str) -> (r: String)
    ensures
        r@ == base_url@ + full_snapshot_file(),
{
    let mut r = base_url.to_owned();
    r.append("snapshot.tar.bz2");
    r
}

} // verus!
