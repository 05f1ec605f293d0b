//! Read, record and watch the [EDDN](https://github.com/EDCD/EDDN) feed
//!
//! A [`network::Network`] decides what to do with a gateway's socket and a
//! [`spool::reader::Spool`] with a recording of one; both hand over
//! [`frame::Frame`]s, and [`frame::Frame::read`] is the one place that reads
//! them, so a spool and a subscription cannot come to different answers about
//! the same bytes. [`gui`] keeps and words what a viewer shows.
//!
//! Nothing here touches a socket, a file or a clock. What was heard, found or
//! read off a clock is handed in, and what to do next is handed back. Times of
//! day are [`moment::Moment`]s; lengths of time and readings of a monotonic
//! clock are counts of nanoseconds.

use vstd::prelude::*;

pub mod connection;
pub mod envelope;
pub mod error;
pub mod frame;
pub mod galaxy;
pub mod gui;
pub mod journal;
pub mod json;
pub mod message;
pub mod moment;
pub mod names;
pub mod network;
pub mod position;
pub mod progress;
pub mod reporter;
pub mod schema;
pub mod spool;
pub mod text;
pub mod window;

verus! {

/// The gateway's address.
pub const URL: &'static str = "tcp://eddn.edcd.io:9500";

} // verus!
