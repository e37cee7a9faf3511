//! Remote-administration transport: packet formats, session negotiation,
//! reassembly, jitter buffering and pairing, with their contracts.
pub mod counting;
pub mod outside;
pub mod stream;
pub mod tcp;
pub mod text;
pub mod time;
pub mod transport;
pub mod wire;
