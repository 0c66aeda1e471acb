//! Errors of the library.
use vstd::prelude::*;

verus! {

/// What can go wrong in indexing, syncing or searching.
#[derive(Debug)]
pub enum RpmSearchError {
    Io(String),
    XmlParse(String),
    Database(String),
    Embedding(String),
    ModelLoad(String),
    Config(String),
    Storage(String),
    InvalidPackage(String),
    Fetch(String),
    Parse(String),
}

impl RpmSearchError {
    /// The message that describes the error.
    pub fn message(&self) -> (r: String)
        ensures
            r@ == match self {
                RpmSearchError::Io(m) => "IO error: "@ + m@,
                RpmSearchError::XmlParse(m) => "XML parsing error: "@ + m@,
                RpmSearchError::Database(m) => "Database error: "@ + m@,
                RpmSearchError::Embedding(m) => "Embedding error: "@ + m@,
                RpmSearchError::ModelLoad(m) => "Model loading error: "@ + m@,
                RpmSearchError::Config(m) => "Configuration error: "@ + m@,
                RpmSearchError::Storage(m) => "Storage error: "@ + m@,
                RpmSearchError::InvalidPackage(m) => "Invalid package data: "@ + m@,
                RpmSearchError::Fetch(m) => "Fetch error: "@ + m@,
                RpmSearchError::Parse(m) => "Parse error: "@ + m@,
            },
    {
        let (prefix, m) = match self {
            RpmSearchError::Io(m) => ("IO error: ", m),
            RpmSearchError::XmlParse(m) => ("XML parsing error: ", m),
            RpmSearchError::Database(m) => ("Database error: ", m),
            RpmSearchError::Embedding(m) => ("Embedding error: ", m),
            RpmSearchError::ModelLoad(m) => ("Model loading error: ", m),
            RpmSearchError::Config(m) => ("Configuration error: ", m),
            RpmSearchError::Storage(m) => ("Storage error: ", m),
            RpmSearchError::InvalidPackage(m) => ("Invalid package data: ", m),
            RpmSearchError::Fetch(m) => ("Fetch error: ", m),
            RpmSearchError::Parse(m) => ("Parse error: ", m),
        };
        let mut s = String::from_str(prefix);
        s.append(m.as_str());
        s
    }
}

} // verus!
