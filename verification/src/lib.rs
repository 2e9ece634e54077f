//! A verified core for a command-line client of a remote time-tracking
//! service: the entry model, the wire codec for entry payloads, the timer
//! lifecycle decisions (status, start, stop, swap, shift), and the
//! projection of the configured project catalog into selection lists.
//!
//! Network transport, terminal prompts and file reading live outside this
//! crate; they hand plain values in and carry the computed requests out.

pub mod entry;
pub mod json;
pub mod codec;
pub mod rfc3339;
pub mod toggl;
pub mod config;
pub mod domain;
pub mod catalog;
pub mod textenc;
