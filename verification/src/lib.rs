//! The core of a peer-to-peer cluster node: ring membership with heartbeat
//! failure detection, typed wire operations and replicated file placement.
//! All state lives in one context value that the caller threads through.
//! The functions here compute on plain values and hand back what is to be
//! sent, written or fetched; sockets and files are their caller's affair.

pub mod clock;
pub mod component_manager;
pub mod constants;
pub mod dispatch;
pub mod easyhash;
pub mod error;
pub mod filesystem;
pub mod heartbeat;
pub mod ident;
pub mod laws;
pub mod modular;
pub mod node;
pub mod operation;
pub mod ring;
pub mod table;
