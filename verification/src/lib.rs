//! The rules of a room-based audio server: rooms and where they are kept, the signaling
//! conversation with each client, who can produce and consume what, and how the audio of a track
//! is cut into chunks that are transcribed.
//!
//! Nothing here waits or does I/O. Where a rule needs the media layer, it says what is to be done
//! and takes the outcome in; the server around this library does it.

pub mod application;
pub mod domain;
pub mod infrastructure;
pub mod laws;
pub mod rtp;
pub mod session;
pub mod sfu;
pub mod signaling;
pub mod stats;
pub mod table;
pub mod text;
pub mod transcription;
