//! What a viewer of the feed shows, short of drawing it

pub mod app;
pub mod cadence;
pub mod category;
pub mod columns;
pub mod detail;
pub mod feed;
pub mod history;
pub mod log;
pub mod rows;
pub mod spans;
pub mod tally;
