//! Verified core of a GStreamer/Zenoh streaming plugin: payload compression
//! framing, attachment metadata encoding, pad naming, URI handling, session
//! sharing and the element state machines.

pub mod compression;
pub mod connectivity;
pub mod demux;
pub mod element;
pub mod error;
pub mod metadata;
pub mod receive;
pub mod session;
pub mod text;
pub mod uri;
pub mod zenohsink;
pub mod zenohsrc;
