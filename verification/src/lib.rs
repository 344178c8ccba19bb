//! From an SDP description to the payloads of an AES67 stream: the stream
//! descriptor and its parser, the reading of RTP packets and the watch over
//! their sequence numbers, and the controller that keeps one receive loop
//! per session.

pub mod descriptor;
pub mod error;
pub mod pattern;
pub mod render;
pub mod rtp;
pub mod sdp;
pub mod session;
pub mod stream;
pub mod text;

pub use descriptor::{BitDepth, Ipv4Address, PacketTime, SessionDescriptor};

