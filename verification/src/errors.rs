use vstd::prelude::*;
use vstd::string::*;

verus! {

/// Errors of reading training data.
#[derive(Debug)]
pub enum DataError {
    /// Reading failed, or the data ended where it could not.
    Io(String),
    /// A data file could not be opened or inspected.
    FileError(String),
}

/// Errors of building, training, saving or loading a model.
#[derive(Debug)]
pub enum ModelError {
    /// Dimensions that do not fit together.
    DimensionMismatch(String),
    /// A layer's cache was read before it was filled.
    EmptyCache { name: String },
    /// Reading the training data failed.
    DataError(DataError),
    /// The optimizer could not run.
    OptimizerError(String),
    /// A model could not be written or read as text.
    SerializationError(String),
    /// A file could not be written or read.
    IOError(String),
}

/// The text of a data error.
pub open spec fn data_error_text(e: DataError) -> Seq<char> {
    match e {
        DataError::Io(m) => "I/O error: "@ + m@,
        DataError::FileError(m) => "File error: "@ + m@,
    }
}

/// The text of a model error.
pub open spec fn model_error_text(e: ModelError) -> Seq<char> {
    match e {
        ModelError::DimensionMismatch(m) => "Dimension mismatch: "@ + m@,
        ModelError::EmptyCache { name } => name@ + ": layer parameter cache is empty"@,
        ModelError::DataError(d) => "Data error: "@ + data_error_text(d),
        ModelError::OptimizerError(m) => "Optimizer error: "@ + m@,
        ModelError::SerializationError(m) => "Serialization error: "@ + m@,
        ModelError::IOError(m) => "I/O error: "@ + m@,
    }
}

/// `prefix` followed by `m`.
fn prefixed(prefix: &str, m: &String) -> (s: String)
    ensures
        s@ == prefix@ + m@,
{
    let mut s = prefix.to_owned();
    s.append(m.as_str());
    s
}

impl DataError {
    /// The error's text.
    pub fn to_string(&self) -> (s: String)
        ensures
            s@ == data_error_text(*self),
    {
        match self {
            DataError::Io(m) => prefixed("I/O error: ", m),
            DataError::FileError(m) => prefixed("File error: ", m),
        }
    }
}

impl ModelError {
    /// The error's text.
    pub fn to_string(&self) -> (s: String)
        ensures
            s@ == model_error_text(*self),
    {
        match self {
            ModelError::DimensionMismatch(m) => prefixed("Dimension mismatch: ", m),
            ModelError::EmptyCache { name } => {
                let mut s = name.clone();
                s.append(": layer parameter cache is empty");
                s
            },
            ModelError::DataError(d) => {
                let t = d.to_string();
                prefixed("Data error: ", &t)
            },
            ModelError::OptimizerError(m) => prefixed("Optimizer error: ", m),
            ModelError::SerializationError(m) => prefixed("Serialization error: ", m),
            ModelError::IOError(m) => prefixed("I/O error: ", m),
        }
    }
}

} // verus!
