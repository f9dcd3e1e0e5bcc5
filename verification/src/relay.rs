//! A relay that shares one upstream subscription among all clients that want it.
pub mod client;
pub mod limits;
pub mod reducer;
pub mod relay_laws;
pub mod upstream;
