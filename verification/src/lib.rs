//! Motion inference from WiFi signal strength, and the line protocol that
//! carries its results to a display process.
//!
//! The sensor side feeds each scan to a [`tracker::BaselineTracker`], which
//! keeps a smoothed signal level per network name and raises the motion flag
//! when a level jumps; [`sensor::Sensor`] numbers the cycles and
//! [`codec::encode`] writes each cycle's record as one line. The host side
//! cuts the bytes it receives into lines ([`reassembler`]), reads the lines
//! back ([`codec::decode`]), and keeps the latest record and a log
//! ([`ingest`], [`state`]); [`display`] holds what the screen decides from
//! them.

pub mod codec;
pub mod display;
pub mod echo;
pub mod ingest;
pub mod name;
mod parse;
pub mod reassembler;
pub mod record;
pub mod sensor;
pub mod state;
pub mod text;
pub mod tracker;
