//! Decoders for the daily-observation ("CDO") and station-metadata fixed-width
//! text formats of a climate archive.

pub mod calendar;
pub mod columns;
pub mod numbers;
pub mod errors;
pub mod daily;
pub mod dispatch;
pub mod station;
