//! The verified core of a personal media server that streams transcoded
//! video chunks to a browser client.
//!
//! A chunk request names a source file, a start timestamp and a duration;
//! the server probes the file's tracks, runs one external encoder per track,
//! and serializes the buffers into a single length-prefixed binary envelope.
//! This crate holds everything about that pipeline that can be stated and
//! proved: the track inventory and its id numbering ([`probe`]), the encoder
//! plan and chunk assembly ([`chunk`]), the fixed encoder argument lists
//! ([`encoder`]), the envelope's byte-exact serialization and its decoder
//! ([`envelope`]), the persisted watch-history map ([`library`]), the
//! freshness rule and key scheme of the external-API cache ([`cache`]), the
//! filename-sorted file listing ([`files`]), and the server's request
//! records and error bodies ([`server`]). Process spawning, file and network
//! I/O stay outside, in the surrounding application.

use vstd::prelude::*;

pub mod cache;
pub mod chunk;
pub mod encoder;
pub mod envelope;
pub mod files;
pub mod library;
pub mod probe;
pub mod server;
pub mod text;

verus! {

} // verus!
