//! Pixel glitch effects for live video.
//!
//! A filter maps an expression over the pixels of every frame. Remote clients can change the
//! expression for good or for a while, switch filters on and off, and ask for their state.

pub mod command;
pub mod eval;
pub mod filter;
pub mod frame;
pub mod module;
pub mod request;
pub mod snapshot;
