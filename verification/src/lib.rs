//! A personal task tracker with pomodoro-style time tracking.
//!
//! Tasks own ordered sequences of work sessions; the library computes
//! elapsed and remaining time, enforces the single-open-session
//! invariant, and encodes/decodes the whole task store to the JSON
//! file format used for persistence.

pub mod time;
pub mod model;
pub mod store;
pub mod codec;
pub mod encode;
pub mod decode;
pub mod roundtrip;
