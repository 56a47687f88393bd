//! Core of an audio-clip upload service: the rules by which a multipart upload
//! becomes a stored record, and by which a metadata query is answered.
//!
//! Nothing here touches a socket, a file or a database. The code that does is
//! driven by this library: it asks what to do next, does it, and reports what
//! happened.

pub mod fields;
pub mod filter;
pub mod ingest;
pub mod name_set;
pub mod order;
pub mod record;
pub mod response;
pub mod store;
pub mod upload;
