//! Freight data server: the verified core of the asset-delivery protocol.
//!
//! The library holds the wire format (framing, the XOR stream cipher, the
//! big-endian reader and writer), the request dispatch, the configuration
//! and path templates, the data cache and the session bookkeeping.
//! Network and file I/O live outside it.

pub mod buffer;
pub mod clock;
pub mod config;
pub mod data;
pub mod handler;
pub mod metrics;
pub mod protocol;
pub mod session;
pub mod session_mgr;
pub mod table;
pub mod text;
