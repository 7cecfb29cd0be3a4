//! How the statistics that parquet keeps of a column are read.

use crate::datatypes::DataType;
use crate::error::ArrowError;
use parquet2::schema::types::PhysicalType;
use vstd::prelude::*;

verus! {

/// The physical type of a parquet column, as the parquet reader has it:
/// its variants are read as they are declared there.
#[verifier::external_type_specification]
pub struct ExPhysicalType(parquet2::schema::types::PhysicalType);

/// Which of the readers of statistics takes the statistics of a column.
#[derive(Clone, Copy, Debug, PartialEq, Eq, Structural)]
pub enum StatisticsReader {
    /// Integers of 32 bits; the logical type follows from the column's
    /// annotations.
    Int32,
    /// Integers of 64 bits; the logical type follows from the column's
    /// annotations.
    Int64,
    /// Byte strings of any length; the logical type follows from the
    /// column's annotations.
    ByteArray,
    /// Booleans.
    Boolean,
    /// Numbers taken as they are, of this logical type.
    Primitive(DataType),
    /// Byte strings of one length; the logical type follows from the
    /// column's annotations.
    FixedLen,
}

/// The reader for statistics of each physical type; there is none for
/// `Int96`.
pub open spec fn spec_reader_for(physical_type: PhysicalType) -> Option<StatisticsReader> {
    match physical_type {
        PhysicalType::Int32 => Some(StatisticsReader::Int32),
        PhysicalType::Int64 => Some(StatisticsReader::Int64),
        PhysicalType::ByteArray => Some(StatisticsReader::ByteArray),
        PhysicalType::Boolean => Some(StatisticsReader::Boolean),
        PhysicalType::Float => Some(StatisticsReader::Primitive(DataType::Float32)),
        PhysicalType::Double => Some(StatisticsReader::Primitive(DataType::Float64)),
        PhysicalType::FixedLenByteArray(_) => Some(StatisticsReader::FixedLen),
        PhysicalType::Int96 => None,
    }
}

/// What is said where there is no reader.
pub open spec fn not_supported() -> Seq<char> {
    "Reading Fixed-len array statistics is not yet supported"@
}

/// The reader for the statistics of a column of physical type
/// `physical_type`, or the error that says that there is none.
pub fn deserialize_statistics(physical_type: &PhysicalType) -> (reader: Result<
    StatisticsReader,
    ArrowError,
>)
    ensures
        match reader {
            Ok(reader) => spec_reader_for(*physical_type) == Some(reader),
            Err(ArrowError::NotYetImplemented(text)) => spec_reader_for(*physical_type) is None
                && text@ == not_supported(),
        },
{
    match physical_type {
        PhysicalType::Int32 => Ok(StatisticsReader::Int32),
        PhysicalType::Int64 => Ok(StatisticsReader::Int64),
        PhysicalType::ByteArray => Ok(StatisticsReader::ByteArray),
        PhysicalType::Boolean => Ok(StatisticsReader::Boolean),
        PhysicalType::Float => Ok(StatisticsReader::Primitive(DataType::Float32)),
        PhysicalType::Double => Ok(StatisticsReader::Primitive(DataType::Float64)),
        PhysicalType::FixedLenByteArray(_) => Ok(StatisticsReader::FixedLen),
        _ => Err(
            ArrowError::NotYetImplemented(
                "Reading Fixed-len array statistics is not yet supported".to_string(),
            ),
        ),
    }
}

/// Statistics of a column, read into this library's terms.
pub trait Statistics: std::fmt::Debug {
    /// The logical type of the statistics.
    fn data_type(&self) -> &DataType;

    /// The number of nulls, where it is known.
    fn null_count(&self) -> Option<i64>;
}

} // verus!
