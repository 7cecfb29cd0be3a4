//! Growable, cache-line sized buffers of plain-data values and their frozen,
//! shared counterpart, with the choice of how the statistics of a parquet
//! column are read.

pub mod buffer;
pub mod datatypes;
pub mod error;
pub mod io;
pub mod types;
