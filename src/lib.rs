//! Tailing engine: the decisions behind following a file, or the newest file
//! of a directory, and the state kept by the front ends that show the lines.
//!
//! The library is pure: the threads, channels, change notifications and file
//! reads live with the caller, which hands each outcome to these types and
//! carries out what they answer.

pub mod cadence;
pub mod text;
pub mod message;
pub mod events;
pub mod filewatch;
pub mod dirwatch;
pub mod client;
pub mod tailor;
pub mod severity;
pub mod lines;
pub mod ranges;
pub mod recents;
pub mod panels;
