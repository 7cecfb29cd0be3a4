use arrow2::datatypes::DataType;
use arrow2::error::ArrowError;
use arrow2::io::parquet::read::statistics::deserialize_statistics;
use arrow2::io::parquet::read::statistics::Statistics;
use arrow2::io::parquet::read::statistics::StatisticsReader;
use parquet2::schema::types::PhysicalType;

#[derive(Debug)]
struct Counted {
    data_type: DataType,
    null_count: Option<i64>,
}

impl Statistics for Counted {
    fn data_type(&self) -> &DataType {
        &self.data_type
    }

    fn null_count(&self) -> Option<i64> {
        self.null_count
    }
}

#[test]
fn each_physical_type_has_its_reader() {
    assert_eq!(deserialize_statistics(&PhysicalType::Int32).unwrap(), StatisticsReader::Int32);
    assert_eq!(deserialize_statistics(&PhysicalType::Int64).unwrap(), StatisticsReader::Int64);
    assert_eq!(
        deserialize_statistics(&PhysicalType::ByteArray).unwrap(),
        StatisticsReader::ByteArray
    );
    assert_eq!(deserialize_statistics(&PhysicalType::Boolean).unwrap(), StatisticsReader::Boolean);
    assert_eq!(
        deserialize_statistics(&PhysicalType::Float).unwrap(),
        StatisticsReader::Primitive(DataType::Float32)
    );
    assert_eq!(
        deserialize_statistics(&PhysicalType::Double).unwrap(),
        StatisticsReader::Primitive(DataType::Float64)
    );
    assert_eq!(
        deserialize_statistics(&PhysicalType::FixedLenByteArray(12)).unwrap(),
        StatisticsReader::FixedLen
    );
}

#[test]
fn int96_has_no_reader() {
    match deserialize_statistics(&PhysicalType::Int96) {
        Err(ArrowError::NotYetImplemented(text)) => {
            assert_eq!(text, "Reading Fixed-len array statistics is not yet supported")
        }
        Ok(_) => panic!("there is no reader for Int96"),
    }
    let error = deserialize_statistics(&PhysicalType::Int96).unwrap_err();
    assert_eq!(
        error.message(),
        "Not yet implemented: Reading Fixed-len array statistics is not yet supported"
    );
}

#[test]
fn fixed_length_statistics_have_one_reader_whatever_the_length() {
    assert_eq!(
        deserialize_statistics(&PhysicalType::FixedLenByteArray(0)).unwrap(),
        StatisticsReader::FixedLen
    );
    assert_eq!(
        deserialize_statistics(&PhysicalType::FixedLenByteArray(usize::MAX)).unwrap(),
        StatisticsReader::FixedLen
    );
}

#[test]
fn statistics_tell_their_type_and_nulls() {
    let left = Counted { data_type: DataType::Int32, null_count: Some(1) };
    let other: Box<dyn Statistics> =
        Box::new(Counted { data_type: DataType::FixedSizeBinary(4), null_count: None });
    assert_eq!(left.null_count(), Some(1));
    assert_eq!(left.data_type(), &DataType::Int32);
    assert_eq!(other.data_type(), &DataType::FixedSizeBinary(4));
    assert_eq!(other.null_count(), None);
    assert!(left.data_type() != other.data_type());
}
