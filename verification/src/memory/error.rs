//! What can go wrong with memory.
use vstd::prelude::*;
use crate::text::cat2;

verus! {

/// A failure of memory; those of other parts by what they say.
#[derive(Debug)]
pub enum MemoryError {
    Sqlite(String),
    Pool(String),
    Embedding(String),
    NotFound(String),
    Io(String),
    Serde(String),
    Lock(String),
}

impl MemoryError {
    /// The failure as a text.
    pub open spec fn text(&self) -> Seq<char> {
        match *self {
            MemoryError::Sqlite(s) => "SQLite error: "@ + s@,
            MemoryError::Pool(s) => "Connection pool error: "@ + s@,
            MemoryError::Embedding(s) => "Embedding failed: "@ + s@,
            MemoryError::NotFound(s) => "Entry not found: "@ + s@,
            MemoryError::Io(s) => "IO error: "@ + s@,
            MemoryError::Serde(s) => "Serialisation error: "@ + s@,
            MemoryError::Lock(s) => "Internal lock error: "@ + s@,
        }
    }

    /// The failure as a text.
    pub fn to_text(&self) -> (r: String)
        ensures
            r@ == self.text(),
    {
        match self {
            MemoryError::Sqlite(s) => cat2("SQLite error: ", s.as_str()),
            MemoryError::Pool(s) => cat2("Connection pool error: ", s.as_str()),
            MemoryError::Embedding(s) => cat2("Embedding failed: ", s.as_str()),
            MemoryError::NotFound(s) => cat2("Entry not found: ", s.as_str()),
            MemoryError::Io(s) => cat2("IO error: ", s.as_str()),
            MemoryError::Serde(s) => cat2("Serialisation error: ", s.as_str()),
            MemoryError::Lock(s) => cat2("Internal lock error: ", s.as_str()),
        }
    }
}

} // verus!
