//! A recorded feed: the wire written down, and read back as itself
//!
//! One subscription, any number of consumers. Frames go down exactly as the
//! gateway sent them, with the receipt time beside each: a message that cannot
//! be read today is still in the spool after the parser is fixed.
//!
//! ```text
//! spool/
//!   2026091917.eddn      segments, named for the UTC hour they were opened
//!   2026091918.eddn
//!   cursors/galos-db     consumer positions, one file each
//!   cursors/galos-index
//! ```
//!
//! A record is `u32 len`, `i64 received_at` in nanoseconds, then the frame.
//!
//! **A torn tail is ignored, not an error.** A record whose length runs past the
//! end of a segment ends the read there and the reader comes back to the same
//! offset. Nothing on the write path is fsynced, so a killed recorder loses the
//! partial record and nothing else: the next one to open the segment cuts it
//! away before it writes.
//!
//! Delivery is **at least once, in wire order**: a consumer commits its cursor
//! after the work it covers is durable, so a kill replays the tail.

pub mod cursor;
pub mod reader;
pub mod record;
pub mod recorder;
pub mod replay;
pub mod run;
pub mod segment;
