//! Push-to-talk dictation: speech in, text out.
//!
//! Hold a button, speak, release: what was said is transcribed once and handed
//! to whoever polls for it. This crate holds the decisions of that pipeline and
//! proves what they promise:
//!
//! - [`capture`]: what is asked of the audio graph, and what its buffers hold;
//! - [`sample`]: how loud samples are, and what counts as silence;
//! - [`recognizer`]: when an utterance is over, and whether to decode it;
//! - [`transcript`]: how a transcript is tidied;
//! - [`stt`]: the life of sessions, their threads and their inboxes;
//! - [`lifecycle`]: what holds of every course that they can take;
//! - [`config`] and [`error`]: how dictation is set up, and how it fails.
//!
//! The audio graph, the speech model, threads and the clock stay outside.

pub mod capture;
pub mod config;
pub mod error;
pub mod lifecycle;
pub mod recognizer;
pub mod sample;
pub mod stt;
pub mod transcript;
