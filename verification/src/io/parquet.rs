//! The parquet format.

pub mod read;
