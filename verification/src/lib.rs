//! Core logic of a terminal-automation daemon: input encoding, screen
//! segmentation and UI-element detection, region geometry, the request
//! protocol with its error taxonomy, and the session registry rules.
//!
//! Everything here is pure computation over plain values; the surrounding
//! process (sockets, PTYs, the ANSI emulator) hands bytes and text in and
//! carries bytes and responses out.
#![verifier::loop_isolation(false)]

pub mod chars;
pub mod classify;
pub mod elements;
pub mod error;
pub mod grid;
pub mod input;
pub mod paths;
pub mod protocol;
pub mod refs;
pub mod region;
pub mod segment;
pub mod server;
pub mod session;
pub mod snapshot;
pub mod style;
pub mod width;
