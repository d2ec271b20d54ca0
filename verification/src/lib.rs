//! Storage logic of the placement center: column-family routing, the record
//! format that values are stored in, prefix scans, and the raft state kept
//! beside them. Reading and writing the database itself is the caller's part.
pub mod errors;
pub mod storage;
pub mod log_config;
pub mod tools;
