use vstd::prelude::*;
use vstd::std_specs::convert::FromSpecImpl;
use vstd::string::*;

verus! {

/// An I/O failure of the standard library, carried through unread.
#[verifier::external_type_specification]
#[verifier::external_body]
pub struct ExIoError(std::io::Error);

/// What can go wrong in this library.
#[derive(Debug)]
pub enum Error {
    /// An asset was not found.
    AssetNotFound(String),
    /// The client closed the connection before a whole request arrived.
    ConnectionClosed,
    /// The request does not start with a known method, in capitals.
    UnknownHTTPMethod(String),
    /// The request path is missing.
    ParsePath,
    /// The version is not `HTTP/1.1`.
    ParseVersion,
    /// A line does not end in a line break.
    ExpectedCRLF,
    /// A header name holds a byte that it may not hold.
    ParseHeaderName,
    /// The headers are larger than this library accepts.
    ParseHeaderValue,
    /// The request is malformed.
    ParseError,
    /// A session value could not be decoded.
    SessionDecode,
    /// An I/O failure.
    IO(std::io::Error),
    /// Anything else.
    Other(String),
}

impl Error {
    /// What this error says to a reader.
    pub open spec fn message(&self) -> Seq<char> {
        match self {
            Error::UnknownHTTPMethod(reason) => reason@,
            Error::ConnectionClosed => "Connection Closed By Client"@,
            Error::ParsePath => "Error Parsing HTTP Path"@,
            Error::ParseVersion => "Error Parsing HTTP Version"@,
            Error::ExpectedCRLF => "Expected CRLF in HTTP Request"@,
            Error::ParseHeaderName => "Error Parsing HTTP Header name"@,
            Error::ParseHeaderValue => "Error Parsing HTTP Header value"@,
            Error::ParseError => "Error Parsing HTTP Request"@,
            Error::SessionDecode => "Error Decoding Session Value"@,
            Error::AssetNotFound(_) => "Can't Find Asset"@,
            Error::IO(_) => "io::Error While Parsing HTTP Request"@,
            Error::Other(reason) => reason@,
        }
    }

    /// The message of this error as a string.
    pub fn to_string(&self) -> (text: String)
        ensures
            text@ == self.message(),
    {
        match self {
            Error::UnknownHTTPMethod(reason) => reason.clone(),
            Error::ConnectionClosed => "Connection Closed By Client".to_owned(),
            Error::ParsePath => "Error Parsing HTTP Path".to_owned(),
            Error::ParseVersion => "Error Parsing HTTP Version".to_owned(),
            Error::ExpectedCRLF => "Expected CRLF in HTTP Request".to_owned(),
            Error::ParseHeaderName => "Error Parsing HTTP Header name".to_owned(),
            Error::ParseHeaderValue => "Error Parsing HTTP Header value".to_owned(),
            Error::ParseError => "Error Parsing HTTP Request".to_owned(),
            Error::SessionDecode => "Error Decoding Session Value".to_owned(),
            Error::AssetNotFound(_) => "Can't Find Asset".to_owned(),
            Error::IO(_) => "io::Error While Parsing HTTP Request".to_owned(),
            Error::Other(reason) => reason.clone(),
        }
    }
}

/// The text of a string as a debugger shows it: in quotes, with what cannot
/// be shown as it is escaped.
pub uninterp spec fn quoted(s: Seq<char>) -> Seq<char>;

/// `format!("{:?}", s)` for a string. Not verified: the contract only gives
/// the result a name.
#[verifier::external_body]
fn debug_quoted(s: &str) -> (text: String)
    ensures
        text@ == quoted(s@),
{
    format!("{:?}", s)
}

impl Error {
    /// How this error is shown to a debugger: the name of its kind, and
    /// what it carries, in brackets.
    pub open spec fn debug_text(self) -> Seq<char> {
        match self {
            Error::AssetNotFound(s) => "AssetNotFound("@ + quoted(s@) + ")"@,
            Error::ConnectionClosed => "ConnectionClosed"@,
            Error::UnknownHTTPMethod(s) => "UnknownHTTPMethod("@ + quoted(s@) + ")"@,
            Error::ParsePath => "ParsePath"@,
            Error::ParseVersion => "ParseVersion"@,
            Error::ExpectedCRLF => "ExpectedCRLF"@,
            Error::ParseHeaderName => "ParseHeaderName"@,
            Error::ParseHeaderValue => "ParseHeaderValue"@,
            Error::ParseError => "ParseError"@,
            Error::SessionDecode => "SessionDecode"@,
            Error::IO(_) => "IO(..)"@,
            Error::Other(s) => "Other("@ + quoted(s@) + ")"@,
        }
    }

    /// How this error is shown to a debugger, as a string. Of an I/O
    /// failure only the kind is shown.
    pub fn debug_string(&self) -> (text: String)
        ensures
            text@ == self.debug_text(),
    {
        match self {
            Error::AssetNotFound(s) => {
                let mut text = "AssetNotFound(".to_owned();
                text.append(debug_quoted(s.as_str()).as_str());
                text.append(")");
                text
            },
            Error::ConnectionClosed => "ConnectionClosed".to_owned(),
            Error::UnknownHTTPMethod(s) => {
                let mut text = "UnknownHTTPMethod(".to_owned();
                text.append(debug_quoted(s.as_str()).as_str());
                text.append(")");
                text
            },
            Error::ParsePath => "ParsePath".to_owned(),
            Error::ParseVersion => "ParseVersion".to_owned(),
            Error::ExpectedCRLF => "ExpectedCRLF".to_owned(),
            Error::ParseHeaderName => "ParseHeaderName".to_owned(),
            Error::ParseHeaderValue => "ParseHeaderValue".to_owned(),
            Error::ParseError => "ParseError".to_owned(),
            Error::SessionDecode => "SessionDecode".to_owned(),
            Error::IO(_) => "IO(..)".to_owned(),
            Error::Other(s) => {
                let mut text = "Other(".to_owned();
                text.append(debug_quoted(s.as_str()).as_str());
                text.append(")");
                text
            },
        }
    }
}

impl From<std::io::Error> for Error {
    /// An I/O failure as an error of this library.
    fn from(err: std::io::Error) -> (e: Error) {
        Error::IO(err)
    }
}

impl FromSpecImpl<std::io::Error> for Error {
    open spec fn obeys_from_spec() -> bool {
        true
    }

    open spec fn from_spec(err: std::io::Error) -> Error {
        Error::IO(err)
    }
}

impl PartialEq for Error {
    /// Two errors are equal when they are of the same kind and carry the same
    /// text. An I/O failure equals nothing, not even itself.
    fn eq(&self, other: &Self) -> (same: bool) {
        match (self, other) {
            (Error::AssetNotFound(s), Error::AssetNotFound(o)) => *s == *o,
            (Error::UnknownHTTPMethod(s), Error::UnknownHTTPMethod(o)) => *s == *o,
            (Error::Other(s), Error::Other(o)) => *s == *o,
            (Error::ConnectionClosed, Error::ConnectionClosed) => true,
            (Error::ParsePath, Error::ParsePath) => true,
            (Error::ParseVersion, Error::ParseVersion) => true,
            (Error::ExpectedCRLF, Error::ExpectedCRLF) => true,
            (Error::ParseHeaderName, Error::ParseHeaderName) => true,
            (Error::ParseHeaderValue, Error::ParseHeaderValue) => true,
            (Error::ParseError, Error::ParseError) => true,
            (Error::SessionDecode, Error::SessionDecode) => true,
            _ => false,
        }
    }
}

impl vstd::std_specs::cmp::PartialEqSpecImpl for Error {
    open spec fn obeys_eq_spec() -> bool {
        true
    }

    open spec fn eq_spec(&self, other: &Self) -> bool {
        match (self, other) {
            (Error::AssetNotFound(s), Error::AssetNotFound(o)) => s@ == o@,
            (Error::UnknownHTTPMethod(s), Error::UnknownHTTPMethod(o)) => s@ == o@,
            (Error::Other(s), Error::Other(o)) => s@ == o@,
            (Error::ConnectionClosed, Error::ConnectionClosed) => true,
            (Error::ParsePath, Error::ParsePath) => true,
            (Error::ParseVersion, Error::ParseVersion) => true,
            (Error::ExpectedCRLF, Error::ExpectedCRLF) => true,
            (Error::ParseHeaderName, Error::ParseHeaderName) => true,
            (Error::ParseHeaderValue, Error::ParseHeaderValue) => true,
            (Error::ParseError, Error::ParseError) => true,
            (Error::SessionDecode, Error::SessionDecode) => true,
            _ => false,
        }
    }
}

} // verus!
