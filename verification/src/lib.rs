//! A verified client library for mirroring a remote key-value namespace into
//! local files.
//!
//! The library covers everything the tool decides or computes: assembling the
//! startup configuration, substring filtering of key names, building request
//! URLs, the authorization header and output file names, decoding the key
//! listing returned by the remote store, and the sequential state machine that
//! drives one download run. All network and file system work is performed by
//! the surrounding binary, which only executes the commands this library
//! issues.

pub mod config;
pub mod endpoints;
pub mod listing;
pub mod matching;
pub mod orchestrator;
