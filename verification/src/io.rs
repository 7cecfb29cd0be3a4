//! Reading from file formats.

pub mod parquet;
