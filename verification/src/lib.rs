//! A storage adapter that keeps SQL-style tables on a chat platform:
//! one channel per table, one pinned message for the table's schema,
//! and one ordinary message per row, keyed by the platform-assigned
//! message identifier.
//!
//! Everything the adapter decides is verified here against an explicit
//! model of the remote platform (`remote`): which channel a table name
//! resolves to, how schemas and rows are encoded and decoded, which
//! messages count as rows, in what order a scan returns them, and which
//! calls fail with which error. The asynchronous transport that carries
//! these decisions to the real platform lives outside the library.

pub mod codec;
pub mod decode;
pub mod encode;
pub mod error;
pub mod laws;
pub mod name;
pub mod numeral;
pub mod remote;
pub mod roundtrip;
pub mod store;
pub mod value;
