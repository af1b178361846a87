//! Capture, timeline and replay engine for input-device event recordings.
//!
//! The library holds the decisions of the recorder and the player as verified
//! state machines; reading devices, writing files and waiting on the clock are
//! left to the caller, which feeds the machines plain values.

pub mod descriptor;
pub mod devices;
pub mod generate;
pub mod record;
pub mod replay;
