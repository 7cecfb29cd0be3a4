//! Reading parquet.

pub mod statistics;
