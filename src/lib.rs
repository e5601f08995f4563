//! Core of a local file server that mimics a model/dataset hosting API:
//! path security, byte ranges, sidecar metadata, bounded TTL caches and
//! per-client access logs.
pub mod text;
pub mod paths;
pub mod range;
pub mod cache;
pub mod sidecar;
pub mod json;
pub mod headers;
pub mod serve;
pub mod routes;
pub mod access;
pub mod request;
pub mod repo;
pub mod listing;
pub mod paths_info;
pub mod state;
pub mod hashing;
