//! Latency capture for a streaming market-data feed.
//!
//! The crate models the wire schema of the feed (subscription requests,
//! acknowledgement frames, book-update frames, and the sequencer envelope)
//! as byte-level grammars, and verifies the codec that converts between
//! frame text and typed values, together with the capture state machine
//! that decides, frame by frame, what is persisted and when the capture
//! becomes faulted.  Socket and file handling live outside the library.

pub mod bytes;
pub mod lit;
pub mod messages;
pub mod codec;
pub mod capture;
