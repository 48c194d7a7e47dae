//! The common error type of the node.

use vstd::prelude::*;

verus! {

/// Common error type for all operations.
#[derive(Debug)]
pub enum Error {
    /// Error related to chunk operations.
    Chunk(String),
    /// Error related to storage operations.
    Storage(String),
    /// Error related to network operations.
    Network(String),
    /// Error related to authentication.
    Authentication(String),
    /// Error related to authorization.
    Authorization(String),
    /// Error related to accounting.
    Accounting(String),
    /// A resource is not found.
    NotFound(String),
    /// A resource already exists.
    AlreadyExists(String),
    /// An operation is invalid.
    InvalidOperation(String),
    /// An operation timed out.
    Timeout(String),
    /// Error related to I/O operations.
    Io(String),
    /// Error related to configuration.
    Configuration(String),
    /// Error related to blockchain operations.
    Blockchain(String),
    /// Other errors.
    Other(String),
}

/// `String::from` of std on a string slice is trusted to give a text of the
/// same characters.
pub assume_specification<'a>[ <String as core::convert::From<&'a str>>::from ](s: &str) -> (text:
    String)
    ensures
        text@ == s@,
;

impl Error {
    /// Creates a new chunk error.
    pub fn chunk<T: Into<String>>(msg: T) -> (error: Error)
        ensures
            error matches Error::Chunk(text) && call_ensures(<T as Into<String>>::into, (msg,), text),
    {
        Error::Chunk(msg.into())
    }

    /// Creates a new storage error.
    pub fn storage<T: Into<String>>(msg: T) -> (error: Error)
        ensures
            error matches Error::Storage(text) && call_ensures(<T as Into<String>>::into, (msg,), text),
    {
        Error::Storage(msg.into())
    }

    /// Creates a new network error.
    pub fn network<T: Into<String>>(msg: T) -> (error: Error)
        ensures
            error matches Error::Network(text) && call_ensures(<T as Into<String>>::into, (msg,), text),
    {
        Error::Network(msg.into())
    }

    /// Creates a new authentication error.
    pub fn authentication<T: Into<String>>(msg: T) -> (error: Error)
        ensures
            error matches Error::Authentication(text) && call_ensures(<T as Into<String>>::into, (msg,), text),
    {
        Error::Authentication(msg.into())
    }

    /// Creates a new authorization error.
    pub fn authorization<T: Into<String>>(msg: T) -> (error: Error)
        ensures
            error matches Error::Authorization(text) && call_ensures(<T as Into<String>>::into, (msg,), text),
    {
        Error::Authorization(msg.into())
    }

    /// Creates a new accounting error.
    pub fn accounting<T: Into<String>>(msg: T) -> (error: Error)
        ensures
            error matches Error::Accounting(text) && call_ensures(<T as Into<String>>::into, (msg,), text),
    {
        Error::Accounting(msg.into())
    }

    /// Creates a new not-found error.
    pub fn not_found<T: Into<String>>(msg: T) -> (error: Error)
        ensures
            error matches Error::NotFound(text) && call_ensures(<T as Into<String>>::into, (msg,), text),
    {
        Error::NotFound(msg.into())
    }

    /// Creates a new already-exists error.
    pub fn already_exists<T: Into<String>>(msg: T) -> (error: Error)
        ensures
            error matches Error::AlreadyExists(text) && call_ensures(<T as Into<String>>::into, (msg,), text),
    {
        Error::AlreadyExists(msg.into())
    }

    /// Creates a new invalid-operation error.
    pub fn invalid_operation<T: Into<String>>(msg: T) -> (error: Error)
        ensures
            error matches Error::InvalidOperation(text) && call_ensures(<T as Into<String>>::into, (msg,), text),
    {
        Error::InvalidOperation(msg.into())
    }

    /// Creates a new timeout error.
    pub fn timeout<T: Into<String>>(msg: T) -> (error: Error)
        ensures
            error matches Error::Timeout(text) && call_ensures(<T as Into<String>>::into, (msg,), text),
    {
        Error::Timeout(msg.into())
    }

    /// Creates a new I/O error.
    pub fn io<T: Into<String>>(msg: T) -> (error: Error)
        ensures
            error matches Error::Io(text) && call_ensures(<T as Into<String>>::into, (msg,), text),
    {
        Error::Io(msg.into())
    }

    /// Creates a new other error.
    pub fn other<T: Into<String>>(msg: T) -> (error: Error)
        ensures
            error matches Error::Other(text) && call_ensures(<T as Into<String>>::into, (msg,), text),
    {
        Error::Other(msg.into())
    }

    /// The text a message of this kind starts with.
    pub open spec fn prefix(self) -> Seq<char> {
        match self {
            Error::Chunk(_) => "Chunk error: "@,
            Error::Storage(_) => "Storage error: "@,
            Error::Network(_) => "Network error: "@,
            Error::Authentication(_) => "Authentication error: "@,
            Error::Authorization(_) => "Authorization error: "@,
            Error::Accounting(_) => "Accounting error: "@,
            Error::NotFound(_) => "Not found: "@,
            Error::AlreadyExists(_) => "Already exists: "@,
            Error::InvalidOperation(_) => "Invalid operation: "@,
            Error::Timeout(_) => "Timeout: "@,
            Error::Io(_) => "IO error: "@,
            Error::Configuration(_) => "Configuration error: "@,
            Error::Blockchain(_) => "Blockchain error: "@,
            Error::Other(_) => "Other error: "@,
        }
    }

    /// The message the error was created with.
    pub open spec fn detail(self) -> Seq<char> {
        match self {
            Error::Chunk(text) => text@,
            Error::Storage(text) => text@,
            Error::Network(text) => text@,
            Error::Authentication(text) => text@,
            Error::Authorization(text) => text@,
            Error::Accounting(text) => text@,
            Error::NotFound(text) => text@,
            Error::AlreadyExists(text) => text@,
            Error::InvalidOperation(text) => text@,
            Error::Timeout(text) => text@,
            Error::Io(text) => text@,
            Error::Configuration(text) => text@,
            Error::Blockchain(text) => text@,
            Error::Other(text) => text@,
        }
    }

    /// The error as text: what kind it is, then its message.
    pub fn message(&self) -> (text: String)
        ensures
            text@ == self.prefix() + self.detail(),
    {
        let (prefix, detail): (&str, &String) = match self {
            Error::Chunk(text) => ("Chunk error: ", text),
            Error::Storage(text) => ("Storage error: ", text),
            Error::Network(text) => ("Network error: ", text),
            Error::Authentication(text) => ("Authentication error: ", text),
            Error::Authorization(text) => ("Authorization error: ", text),
            Error::Accounting(text) => ("Accounting error: ", text),
            Error::NotFound(text) => ("Not found: ", text),
            Error::AlreadyExists(text) => ("Already exists: ", text),
            Error::InvalidOperation(text) => ("Invalid operation: ", text),
            Error::Timeout(text) => ("Timeout: ", text),
            Error::Io(text) => ("IO error: ", text),
            Error::Configuration(text) => ("Configuration error: ", text),
            Error::Blockchain(text) => ("Blockchain error: ", text),
            Error::Other(text) => ("Other error: ", text),
        };
        let mut text: String = String::from(prefix);
        text.append(detail.as_str());
        text
    }
}

/// How an error is told: what kind it is, and then what it was created with.
pub proof fn errors_tell_their_kind(text: String)
    ensures
        Error::Chunk(text).prefix() == "Chunk error: "@,
        Error::Chunk(text).detail() == text@,
        Error::Storage(text).prefix() == "Storage error: "@,
        Error::Storage(text).detail() == text@,
        Error::Network(text).prefix() == "Network error: "@,
        Error::Network(text).detail() == text@,
        Error::Authentication(text).prefix() == "Authentication error: "@,
        Error::Authentication(text).detail() == text@,
        Error::Authorization(text).prefix() == "Authorization error: "@,
        Error::Authorization(text).detail() == text@,
        Error::Accounting(text).prefix() == "Accounting error: "@,
        Error::Accounting(text).detail() == text@,
        Error::NotFound(text).prefix() == "Not found: "@,
        Error::NotFound(text).detail() == text@,
        Error::AlreadyExists(text).prefix() == "Already exists: "@,
        Error::AlreadyExists(text).detail() == text@,
        Error::InvalidOperation(text).prefix() == "Invalid operation: "@,
        Error::InvalidOperation(text).detail() == text@,
        Error::Timeout(text).prefix() == "Timeout: "@,
        Error::Timeout(text).detail() == text@,
        Error::Io(text).prefix() == "IO error: "@,
        Error::Io(text).detail() == text@,
        Error::Configuration(text).prefix() == "Configuration error: "@,
        Error::Configuration(text).detail() == text@,
        Error::Blockchain(text).prefix() == "Blockchain error: "@,
        Error::Blockchain(text).detail() == text@,
        Error::Other(text).prefix() == "Other error: "@,
        Error::Other(text).detail() == text@,
{
}

} // verus!
