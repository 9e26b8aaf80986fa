//! Incremental framing of newline-delimited messages read from a byte stream.
//!
//! The framing algorithm lives once, in [`framer::Framer`], a synchronous state
//! object. Pull, push and poll shaped readers are thin layers over it.
pub mod adapters;
pub mod buffer;
pub mod frame;
pub mod forward;
pub mod framer;
pub mod message;
pub mod pages;
pub mod source;
