//! Client-side transport layer for the Docker Engine HTTP API.
//!
//! The crate covers the protocol logic a Docker client needs once a raw
//! connection is available: building request paths, query strings and
//! registry-auth headers, classifying responses, splitting a byte stream
//! into JSON progress events, decoding those events, demultiplexing the
//! stdout/stderr frame protocol used by attach/logs/exec, and serializing
//! directory trees into tar archives for build-context upload.

pub mod chunk;
pub mod errors;
pub mod options;
pub mod params;
pub mod auth;
pub mod framer;
pub mod images;
pub mod json;
pub mod rep;
pub mod tar;
pub mod text;
pub mod mux;
pub mod transport;
