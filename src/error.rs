//! Error values of extraction and of the canonical store.

use vstd::prelude::*;

verus! {

/// Why a source file, or one row of it, could not be extracted.
#[derive(Debug, Clone, PartialEq, Eq)]
pub enum ExtractionError {
    /// The file could not be read.
    Io(String),
    /// The file format was invalid or corrupted.
    InvalidFormat(String),
    /// The database could not be opened or queried.
    Database(String),
    /// A value could not be parsed.
    Parse(String),
    /// The file is a database without the expected tables.
    UnsupportedSchema(String),
    /// Any other failure.
    Other(String),
}

/// The text that describes an extraction error.
pub open spec fn extraction_error_text(e: ExtractionError) -> Seq<char> {
    match e {
        ExtractionError::Io(m) => "IO error: "@ + m@,
        ExtractionError::InvalidFormat(m) => "Invalid format: "@ + m@,
        ExtractionError::Database(m) => "Database error: "@ + m@,
        ExtractionError::Parse(m) => "Parse error: "@ + m@,
        ExtractionError::UnsupportedSchema(m) => "Unsupported schema: "@ + m@,
        ExtractionError::Other(m) => "Error: "@ + m@,
    }
}

impl ExtractionError {
    /// An equal error.
    pub fn duplicate(&self) -> (r: ExtractionError)
        ensures
            r == *self,
    {
        match self {
            ExtractionError::Io(m) => ExtractionError::Io(m.clone()),
            ExtractionError::InvalidFormat(m) => ExtractionError::InvalidFormat(m.clone()),
            ExtractionError::Database(m) => ExtractionError::Database(m.clone()),
            ExtractionError::Parse(m) => ExtractionError::Parse(m.clone()),
            ExtractionError::UnsupportedSchema(m) => ExtractionError::UnsupportedSchema(m.clone()),
            ExtractionError::Other(m) => ExtractionError::Other(m.clone()),
        }
    }

    /// Human-readable description of the error.
    pub fn message(&self) -> (r: String)
        ensures
            r@ == extraction_error_text(*self),
    {
        match self {
            ExtractionError::Io(m) => String::from_str("IO error: ").concat(m.as_str()),
            ExtractionError::InvalidFormat(m) => String::from_str("Invalid format: ").concat(m.as_str()),
            ExtractionError::Database(m) => String::from_str("Database error: ").concat(m.as_str()),
            ExtractionError::Parse(m) => String::from_str("Parse error: ").concat(m.as_str()),
            ExtractionError::UnsupportedSchema(m) => String::from_str("Unsupported schema: ").concat(
                m.as_str(),
            ),
            ExtractionError::Other(m) => String::from_str("Error: ").concat(m.as_str()),
        }
    }
}

/// A source file whose extraction failed as a whole.
#[derive(Debug, Clone)]
pub struct FailedFile {
    /// Path of the file.
    pub path: String,
    /// What went wrong.
    pub error: ExtractionError,
}

impl FailedFile {
    pub fn new(path: String, error: ExtractionError) -> (r: FailedFile)
        ensures
            r.path == path,
            r.error == error,
    {
        FailedFile { path, error }
    }

    /// `Failed to process '<path>': <error>`.
    pub fn description(&self) -> (r: String)
        ensures
            r@ == "Failed to process '"@ + self.path@ + "': "@ + extraction_error_text(self.error),
    {
        let text = String::from_str("Failed to process '").concat(self.path.as_str()).concat("': ");
        let msg = self.error.message();
        text.concat(msg.as_str())
    }
}

/// Why an operation on the canonical store failed as a whole.
#[derive(Debug, Clone, PartialEq, Eq)]
pub enum DatabaseError {
    /// The store could not be opened.
    Connection(String),
    /// A query failed.
    Query(String),
    /// A transaction could not be opened or committed.
    Transaction(String),
    /// Stored data could not be decoded.
    Data(String),
    /// A table is missing.
    Schema(String),
    /// The schema could not be created or updated.
    Migration(String),
    /// The store's lock could not be taken.
    Lock(String),
    /// The file system failed.
    Io(String),
    /// Any other failure.
    Other(String),
}

/// The text that describes a store error.
pub open spec fn database_error_text(e: DatabaseError) -> Seq<char> {
    match e {
        DatabaseError::Connection(m) => "Database connection error: "@ + m@,
        DatabaseError::Query(m) => "Query error: "@ + m@,
        DatabaseError::Transaction(m) => "Transaction error: "@ + m@,
        DatabaseError::Data(m) => "Data error: "@ + m@,
        DatabaseError::Schema(m) => "Schema error: "@ + m@,
        DatabaseError::Migration(m) => "Migration error: "@ + m@,
        DatabaseError::Lock(m) => "Lock error: "@ + m@,
        DatabaseError::Io(m) => "I/O error: "@ + m@,
        DatabaseError::Other(m) => "Database error: "@ + m@,
    }
}

impl DatabaseError {
    /// Human-readable description of the error.
    pub fn message(&self) -> (r: String)
        ensures
            r@ == database_error_text(*self),
    {
        match self {
            DatabaseError::Connection(m) => String::from_str("Database connection error: ").concat(
                m.as_str(),
            ),
            DatabaseError::Query(m) => String::from_str("Query error: ").concat(m.as_str()),
            DatabaseError::Transaction(m) => String::from_str("Transaction error: ").concat(m.as_str()),
            DatabaseError::Data(m) => String::from_str("Data error: ").concat(m.as_str()),
            DatabaseError::Schema(m) => String::from_str("Schema error: ").concat(m.as_str()),
            DatabaseError::Migration(m) => String::from_str("Migration error: ").concat(m.as_str()),
            DatabaseError::Lock(m) => String::from_str("Lock error: ").concat(m.as_str()),
            DatabaseError::Io(m) => String::from_str("I/O error: ").concat(m.as_str()),
            DatabaseError::Other(m) => String::from_str("Database error: ").concat(m.as_str()),
        }
    }
}

} // verus!
