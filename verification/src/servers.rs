//! Serving clients.
pub mod session_laws;
pub mod subscription;
pub mod websocket_server;
