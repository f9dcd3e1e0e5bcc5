//! How the server is set up.
use vstd::prelude::*;

verus! {

/// Snapshot fetching mode
#[derive(Debug, Clone, Copy, PartialEq, Eq, Structural)]
pub enum SnapshotMode {
    /// Use docker exec to call hl-node inside container
    Docker,
    /// Call hl-node directly (for systemctl/bare metal setups)
    Direct,
}

impl Default for SnapshotMode {
    fn default() -> (r: Self)
        ensures
            r == SnapshotMode::Docker,
    {
        SnapshotMode::Docker
    }
}

} // verus!
