//! Error types of the download core.
//!
//! Every failure is a [`CondowError`]: a kind out of a closed set plus a
//! human-readable message. The kind decides whether the retry layer may
//! try the operation again.

use vstd::prelude::*;

verus! {

/// The closed set of failure kinds.
#[derive(Clone, Copy, Debug, PartialEq, Eq, Structural)]
pub enum CondowErrorKind {
    /// The requested range is not valid (for example start past end).
    InvalidRange,
    /// The object does not exist.
    NotFound,
    /// The caller may not read the object.
    AccessDenied,
    /// The remote store failed on its side.
    Remote,
    /// An I/O failure while transferring bytes.
    Io,
    /// Any other failure.
    Other,
}

impl CondowErrorKind {
    /// A transient kind may be retried; a terminal kind may not.
    pub open spec fn is_retryable_spec(self) -> bool {
        self is Io || self is Remote
    }

    /// Returns whether an error of this kind is worth another attempt.
    pub fn is_retryable(&self) -> (r: bool)
        ensures
            r == self.is_retryable_spec(),
    {
        matches!(self, CondowErrorKind::Io | CondowErrorKind::Remote)
    }
}

/// An error of the download core: a kind and a message.
#[derive(Debug)]
pub struct CondowError {
    kind: CondowErrorKind,
    msg: String,
}

impl CondowError {
    /// The kind of this error.
    pub closed spec fn kind_spec(self) -> CondowErrorKind {
        self.kind
    }

    /// The message of this error.
    pub closed spec fn msg_spec(self) -> Seq<char> {
        self.msg@
    }

    /// Builds an error of the given kind.
    pub fn new(kind: CondowErrorKind, msg: &str) -> (r: Self)
        ensures
            r.kind_spec() == kind,
            r.msg_spec() == msg@,
    {
        CondowError { kind, msg: msg.to_owned() }
    }

    /// Builds an `InvalidRange` error.
    pub fn new_invalid_range(msg: &str) -> (r: Self)
        ensures
            r.kind_spec() == CondowErrorKind::InvalidRange,
            r.msg_spec() == msg@,
    {
        Self::new(CondowErrorKind::InvalidRange, msg)
    }

    /// Builds a `NotFound` error.
    pub fn new_not_found(msg: &str) -> (r: Self)
        ensures
            r.kind_spec() == CondowErrorKind::NotFound,
            r.msg_spec() == msg@,
    {
        Self::new(CondowErrorKind::NotFound, msg)
    }

    /// Builds an `AccessDenied` error.
    pub fn new_access_denied(msg: &str) -> (r: Self)
        ensures
            r.kind_spec() == CondowErrorKind::AccessDenied,
            r.msg_spec() == msg@,
    {
        Self::new(CondowErrorKind::AccessDenied, msg)
    }

    /// Builds a `Remote` error.
    pub fn new_remote(msg: &str) -> (r: Self)
        ensures
            r.kind_spec() == CondowErrorKind::Remote,
            r.msg_spec() == msg@,
    {
        Self::new(CondowErrorKind::Remote, msg)
    }

    /// Builds an `Io` error.
    pub fn new_io(msg: &str) -> (r: Self)
        ensures
            r.kind_spec() == CondowErrorKind::Io,
            r.msg_spec() == msg@,
    {
        Self::new(CondowErrorKind::Io, msg)
    }

    /// Builds an `Other` error.
    pub fn new_other(msg: &str) -> (r: Self)
        ensures
            r.kind_spec() == CondowErrorKind::Other,
            r.msg_spec() == msg@,
    {
        Self::new(CondowErrorKind::Other, msg)
    }

    /// The kind of this error.
    pub fn kind(&self) -> (r: CondowErrorKind)
        ensures
            r == self.kind_spec(),
    {
        self.kind
    }

    /// The message of this error.
    pub fn msg(&self) -> (r: &str)
        ensures
            r@ == self.msg_spec(),
    {
        self.msg.as_str()
    }

    /// Returns whether this error is worth another attempt.
    pub fn is_retryable(&self) -> (r: bool)
        ensures
            r == self.kind_spec().is_retryable_spec(),
    {
        self.kind.is_retryable()
    }
}

/// An I/O failure on a byte stream, before it is classified.
#[derive(Debug)]
pub struct IoError(pub String);

/// The failures of a range download, tagged by kind, each with its
/// message.
#[derive(Debug)]
pub enum DownloadRangeError {
    /// The requested range is not valid.
    InvalidRange(String),
    /// The object does not exist.
    NotFound(String),
    /// The caller may not read the object.
    AccessDenied(String),
    /// The remote store failed on its side.
    Remote(String),
    /// An I/O failure while transferring bytes.
    Io(String),
    /// Any other failure.
    Other(String),
}

/// The failures of a whole-object download: as the range failures, but
/// a whole-object request has no range to be invalid.
#[derive(Debug)]
pub enum DownloadFileError {
    /// The object does not exist.
    NotFound(String),
    /// The caller may not read the object.
    AccessDenied(String),
    /// The remote store failed on its side.
    Remote(String),
    /// An I/O failure while transferring bytes.
    Io(String),
    /// Any other failure.
    Other(String),
}

/// The failures a stream can deliver.
#[derive(Debug)]
pub enum StreamError {
    /// The requested range is not valid.
    InvalidRange(String),
    /// The object does not exist.
    NotFound(String),
    /// The caller may not read the object.
    AccessDenied(String),
    /// The remote store failed on its side.
    Remote(String),
    /// An I/O failure while transferring bytes.
    Io(String),
    /// Any other failure.
    Other(String),
}

/// The failures of a size query.
#[derive(Debug)]
pub enum GetSizeError {
    /// The object does not exist.
    NotFound(String),
    /// The caller may not read the object.
    AccessDenied(String),
    /// The remote store failed on its side.
    Remote(String),
    /// An I/O failure while transferring bytes.
    Io(String),
    /// Any other failure.
    Other(String),
}

impl vstd::std_specs::convert::FromSpecImpl<DownloadFileError> for DownloadRangeError {
    open spec fn obeys_from_spec() -> bool {
        true
    }

    open spec fn from_spec(v: DownloadFileError) -> DownloadRangeError {
        match v {
            DownloadFileError::NotFound(msg) => DownloadRangeError::NotFound(msg),
            DownloadFileError::AccessDenied(msg) => DownloadRangeError::AccessDenied(msg),
            DownloadFileError::Remote(msg) => DownloadRangeError::Remote(msg),
            DownloadFileError::Io(msg) => DownloadRangeError::Io(msg),
            DownloadFileError::Other(msg) => DownloadRangeError::Other(msg),
        }
    }
}

impl From<DownloadFileError> for DownloadRangeError {
    /// A whole-object failure is the same failure of the range download.
    fn from(v: DownloadFileError) -> (r: DownloadRangeError) {
        match v {
            DownloadFileError::NotFound(msg) => DownloadRangeError::NotFound(msg),
            DownloadFileError::AccessDenied(msg) => DownloadRangeError::AccessDenied(msg),
            DownloadFileError::Remote(msg) => DownloadRangeError::Remote(msg),
            DownloadFileError::Io(msg) => DownloadRangeError::Io(msg),
            DownloadFileError::Other(msg) => DownloadRangeError::Other(msg),
        }
    }
}

impl vstd::std_specs::convert::FromSpecImpl<DownloadRangeError> for DownloadFileError {
    open spec fn obeys_from_spec() -> bool {
        true
    }

    open spec fn from_spec(v: DownloadRangeError) -> DownloadFileError {
        match v {
            DownloadRangeError::InvalidRange(msg) => DownloadFileError::Other(msg),
            DownloadRangeError::NotFound(msg) => DownloadFileError::NotFound(msg),
            DownloadRangeError::AccessDenied(msg) => DownloadFileError::AccessDenied(msg),
            DownloadRangeError::Remote(msg) => DownloadFileError::Remote(msg),
            DownloadRangeError::Io(msg) => DownloadFileError::Io(msg),
            DownloadRangeError::Other(msg) => DownloadFileError::Other(msg),
        }
    }
}

impl From<DownloadRangeError> for DownloadFileError {
    /// A range failure maps to the same whole-object failure; an invalid
    /// range has no counterpart there and degrades to `Other`.
    fn from(v: DownloadRangeError) -> (r: DownloadFileError) {
        match v {
            DownloadRangeError::InvalidRange(msg) => DownloadFileError::Other(msg),
            DownloadRangeError::NotFound(msg) => DownloadFileError::NotFound(msg),
            DownloadRangeError::AccessDenied(msg) => DownloadFileError::AccessDenied(msg),
            DownloadRangeError::Remote(msg) => DownloadFileError::Remote(msg),
            DownloadRangeError::Io(msg) => DownloadFileError::Io(msg),
            DownloadRangeError::Other(msg) => DownloadFileError::Other(msg),
        }
    }
}

impl vstd::std_specs::convert::FromSpecImpl<GetSizeError> for DownloadRangeError {
    open spec fn obeys_from_spec() -> bool {
        true
    }

    open spec fn from_spec(v: GetSizeError) -> DownloadRangeError {
        match v {
            GetSizeError::NotFound(msg) => DownloadRangeError::NotFound(msg),
            GetSizeError::AccessDenied(msg) => DownloadRangeError::AccessDenied(msg),
            GetSizeError::Remote(msg) => DownloadRangeError::Remote(msg),
            GetSizeError::Io(msg) => DownloadRangeError::Io(msg),
            GetSizeError::Other(msg) => DownloadRangeError::Other(msg),
        }
    }
}

impl From<GetSizeError> for DownloadRangeError {
    /// A size-query failure is the same failure of the range download.
    fn from(v: GetSizeError) -> (r: DownloadRangeError) {
        match v {
            GetSizeError::NotFound(msg) => DownloadRangeError::NotFound(msg),
            GetSizeError::AccessDenied(msg) => DownloadRangeError::AccessDenied(msg),
            GetSizeError::Remote(msg) => DownloadRangeError::Remote(msg),
            GetSizeError::Io(msg) => DownloadRangeError::Io(msg),
            GetSizeError::Other(msg) => DownloadRangeError::Other(msg),
        }
    }
}

impl vstd::std_specs::convert::FromSpecImpl<DownloadRangeError> for StreamError {
    open spec fn obeys_from_spec() -> bool {
        true
    }

    open spec fn from_spec(v: DownloadRangeError) -> StreamError {
        match v {
            DownloadRangeError::InvalidRange(msg) => StreamError::InvalidRange(msg),
            DownloadRangeError::NotFound(msg) => StreamError::NotFound(msg),
            DownloadRangeError::AccessDenied(msg) => StreamError::AccessDenied(msg),
            DownloadRangeError::Remote(msg) => StreamError::Remote(msg),
            DownloadRangeError::Io(msg) => StreamError::Io(msg),
            DownloadRangeError::Other(msg) => StreamError::Other(msg),
        }
    }
}

impl From<DownloadRangeError> for StreamError {
    /// A range failure surfaces unchanged on the stream.
    fn from(v: DownloadRangeError) -> (r: StreamError) {
        match v {
            DownloadRangeError::InvalidRange(msg) => StreamError::InvalidRange(msg),
            DownloadRangeError::NotFound(msg) => StreamError::NotFound(msg),
            DownloadRangeError::AccessDenied(msg) => StreamError::AccessDenied(msg),
            DownloadRangeError::Remote(msg) => StreamError::Remote(msg),
            DownloadRangeError::Io(msg) => StreamError::Io(msg),
            DownloadRangeError::Other(msg) => StreamError::Other(msg),
        }
    }
}

} // verus!
