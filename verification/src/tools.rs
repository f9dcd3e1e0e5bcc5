//! What the programs around the server compute: comparing a replay with a snapshot, following a user,
//! looking into a snapshot, and watching a node.
pub mod node_sync;
pub mod replay_verify;
pub mod rmp_inspect;
pub mod tool_laws;
pub mod user_trace;
