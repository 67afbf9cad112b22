//! Verified core of a content-addressed image-cache node.
//!
//! The library holds the node's serving and cache logic: file descriptors
//! and their on-disk names, keyed request signatures, the server-command
//! decision pipeline, the LRU cache index with bounded eviction, the index
//! persistence format, credential parsing, the single-flight fetch table,
//! and the control-loop schedule. I/O (sockets, disk, TLS) lives outside,
//! in a thin shell that hands the library plain values.
use vstd::prelude::*;

pub mod auth;
pub mod bytesutil;
pub mod control;
pub mod credential;
pub mod cache;
pub mod digest;
pub mod fileid;
pub mod logger;
pub mod lru_persist;
pub mod rpc;
pub mod singleflight;
pub mod servercmd;
pub mod split;

verus! {

} // verus!
