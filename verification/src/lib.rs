//! Telemetry-to-presence core: decodes a line-oriented flight telemetry
//! protocol, composes a human-readable status from each sample, and
//! tracks whether a session is active or idle.
//!
//! One datagram is one command line: `bye` ends the session, `telem`
//! carries a five-field sample, and everything else is malformed and
//! ignored. Airspeed and altitude travel as decimal numerals and are
//! stored as exact thousandths, so decoding, composition and the session
//! step are all pure, fully specified functions.

pub mod compose;
pub mod decode;
pub mod numbers;
pub mod session;
pub mod text;
pub mod vehicles;
