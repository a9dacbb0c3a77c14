//! The error type shared by every fallible operation of the library.

use vstd::prelude::*;
use vstd::string::*;

verus! {

/// What can go wrong in the context store.
#[derive(Debug)]
pub enum A3SError {
    /// A malformed address text.
    InvalidPathway(String),
    /// A lookup that found no node.
    NodeNotFound(String),
    DirectoryNotEmpty(String),
    AlreadyExists(String),
    Storage(String),
    Embedding(String),
    DigestGeneration(String),
    Ingest(String),
    Retrieval(String),
    Session(String),
    Config(String),
    NotInitialized,
    Internal(String),
}

/// The result type of the library.
pub type Result<T> = std::result::Result<T, A3SError>;

impl A3SError {
    /// The heading under which a variant is reported.
    pub open spec fn heading(&self) -> Seq<char> {
        match self {
            A3SError::InvalidPathway(_) => "Invalid pathway: "@,
            A3SError::NodeNotFound(_) => "Node not found: "@,
            A3SError::DirectoryNotEmpty(_) => "Directory not empty: "@,
            A3SError::AlreadyExists(_) => "Already exists: "@,
            A3SError::Storage(_) => "Storage error: "@,
            A3SError::Embedding(_) => "Embedding error: "@,
            A3SError::DigestGeneration(_) => "Digest generation error: "@,
            A3SError::Ingest(_) => "Ingest error: "@,
            A3SError::Retrieval(_) => "Retrieval error: "@,
            A3SError::Session(_) => "Session error: "@,
            A3SError::Config(_) => "Configuration error: "@,
            A3SError::NotInitialized => "Not initialized"@,
            A3SError::Internal(_) => "Internal error: "@,
        }
    }

    /// The detail that a variant carries; empty for `NotInitialized`.
    pub open spec fn detail(&self) -> Seq<char> {
        match self {
            A3SError::InvalidPathway(m) => m@,
            A3SError::NodeNotFound(m) => m@,
            A3SError::DirectoryNotEmpty(m) => m@,
            A3SError::AlreadyExists(m) => m@,
            A3SError::Storage(m) => m@,
            A3SError::Embedding(m) => m@,
            A3SError::DigestGeneration(m) => m@,
            A3SError::Ingest(m) => m@,
            A3SError::Retrieval(m) => m@,
            A3SError::Session(m) => m@,
            A3SError::Config(m) => m@,
            A3SError::NotInitialized => Seq::empty(),
            A3SError::Internal(m) => m@,
        }
    }

    /// The full report: heading followed by detail.
    pub open spec fn report(&self) -> Seq<char> {
        self.heading() + self.detail()
    }

    fn heading_str(&self) -> (r: &'static str)
        ensures
            r@ == self.heading(),
    {
        match self {
            A3SError::InvalidPathway(_) => "Invalid pathway: ",
            A3SError::NodeNotFound(_) => "Node not found: ",
            A3SError::DirectoryNotEmpty(_) => "Directory not empty: ",
            A3SError::AlreadyExists(_) => "Already exists: ",
            A3SError::Storage(_) => "Storage error: ",
            A3SError::Embedding(_) => "Embedding error: ",
            A3SError::DigestGeneration(_) => "Digest generation error: ",
            A3SError::Ingest(_) => "Ingest error: ",
            A3SError::Retrieval(_) => "Retrieval error: ",
            A3SError::Session(_) => "Session error: ",
            A3SError::Config(_) => "Configuration error: ",
            A3SError::NotInitialized => "Not initialized",
            A3SError::Internal(_) => "Internal error: ",
        }
    }

    /// The human-readable report of this error.
    pub fn to_string(&self) -> (r: String)
        ensures
            r@ == self.report(),
    {
        let mut out = String::from_str(self.heading_str());
        match self {
            A3SError::InvalidPathway(m) => out.append(m.as_str()),
            A3SError::NodeNotFound(m) => out.append(m.as_str()),
            A3SError::DirectoryNotEmpty(m) => out.append(m.as_str()),
            A3SError::AlreadyExists(m) => out.append(m.as_str()),
            A3SError::Storage(m) => out.append(m.as_str()),
            A3SError::Embedding(m) => out.append(m.as_str()),
            A3SError::DigestGeneration(m) => out.append(m.as_str()),
            A3SError::Ingest(m) => out.append(m.as_str()),
            A3SError::Retrieval(m) => out.append(m.as_str()),
            A3SError::Session(m) => out.append(m.as_str()),
            A3SError::Config(m) => out.append(m.as_str()),
            A3SError::NotInitialized => {
                assert(out@ + Seq::<char>::empty() == out@);
            },
            A3SError::Internal(m) => out.append(m.as_str()),
        }
        out
    }
}

impl From<String> for A3SError {
    fn from(s: String) -> (e: A3SError)
        ensures
            e == A3SError::Internal(s),
    {
        A3SError::Internal(s)
    }
}

impl vstd::std_specs::convert::FromSpecImpl<String> for A3SError {
    open spec fn obeys_from_spec() -> bool {
        true
    }

    open spec fn from_spec(s: String) -> A3SError {
        A3SError::Internal(s)
    }
}

impl vstd::std_specs::convert::FromSpecImpl<&str> for A3SError {
    open spec fn obeys_from_spec() -> bool {
        false
    }

    open spec fn from_spec(s: &str) -> A3SError {
        A3SError::NotInitialized
    }
}

impl From<&str> for A3SError {
    fn from(s: &str) -> (e: A3SError)
        ensures
            e is Internal,
            e.detail() == s@,
    {
        A3SError::Internal(String::from_str(s))
    }
}

} // verus!
