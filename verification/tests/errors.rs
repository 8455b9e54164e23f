use crabformer::errors::{DataError, ModelError};

#[test]
fn error_texts() {
    assert_eq!(DataError::Io("x".to_string()).to_string(), "I/O error: x");
    assert_eq!(DataError::FileError("f".to_string()).to_string(), "File error: f");
    assert_eq!(
        ModelError::DataError(DataError::FileError("f".to_string())).to_string(),
        "Data error: File error: f"
    );
    assert_eq!(
        ModelError::EmptyCache { name: "L".to_string() }.to_string(),
        "L: layer parameter cache is empty"
    );
    assert_eq!(
        ModelError::DimensionMismatch("d".to_string()).to_string(),
        "Dimension mismatch: d"
    );
    assert_eq!(ModelError::OptimizerError("o".to_string()).to_string(), "Optimizer error: o");
    assert_eq!(
        ModelError::SerializationError("s".to_string()).to_string(),
        "Serialization error: s"
    );
    assert_eq!(ModelError::IOError("i".to_string()).to_string(), "I/O error: i");
}
