//! The transport's formats, state machines and rules, one module for each.
pub mod adaptation;
pub mod application;
pub mod audio_datagram;
pub mod clipboard;
pub mod configuration;
pub mod datagram;
pub mod file_transfer;
pub mod identity;
pub mod input;
pub mod pairing;
pub mod protocol;
pub mod quic;
pub mod recovery;
pub mod reliable;
pub mod session;
pub mod statistics;
pub mod video_datagram;
