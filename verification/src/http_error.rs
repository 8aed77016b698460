//! The HTTP error of the server and the (status, code, message) triple it
//! is answered with.

use vstd::prelude::*;
use vstd::string::StringExecFns;
use vstd::std_specs::convert::FromSpecImpl;
use crate::chars::decimal;
use crate::epub::{epub_error_text, EpubError};

verus! {

/// A failure of the translation / TTS / upstream service layer.
#[derive(Debug, Clone, PartialEq, Eq)]
pub enum ServiceFailure {
    /// A batch of this many characters is too long.
    TextTooLong(usize),
    /// The call timed out; the elapsed limit as debug text (such as `5s`).
    Timeout(String),
    /// The network call failed.
    Network(String),
    /// The upstream answered with an error.
    Upstream(String),
}

/// A failure of the store.
#[derive(Debug, Clone, PartialEq, Eq)]
pub enum DbFailure {
    /// No record under this key.
    NotFound(String),
    /// Any other store failure, with its message.
    Other(String),
}

/// All errors that can arise while handling an HTTP request.
#[derive(Debug)]
pub enum AppHttpError {
    /// A service-layer error.
    Service(ServiceFailure),
    /// A store error.
    Db(DbFailure),
    /// An EPUB-layer error.
    Epub(EpubError),
    /// The request was malformed.
    BadRequest(String),
    /// The requested resource was not found.
    NotFound(String),
    /// An unexpected internal error.
    Internal(String),
}

impl From<ServiceFailure> for AppHttpError {
    fn from(e: ServiceFailure) -> (r: Self) {
        AppHttpError::Service(e)
    }
}

impl FromSpecImpl<ServiceFailure> for AppHttpError {
    open spec fn obeys_from_spec() -> bool {
        true
    }

    open spec fn from_spec(v: ServiceFailure) -> Self {
        AppHttpError::Service(v)
    }
}

impl From<DbFailure> for AppHttpError {
    fn from(e: DbFailure) -> (r: Self) {
        AppHttpError::Db(e)
    }
}

impl FromSpecImpl<DbFailure> for AppHttpError {
    open spec fn obeys_from_spec() -> bool {
        true
    }

    open spec fn from_spec(v: DbFailure) -> Self {
        AppHttpError::Db(v)
    }
}

impl From<EpubError> for AppHttpError {
    fn from(e: EpubError) -> (r: Self) {
        AppHttpError::Epub(e)
    }
}

impl FromSpecImpl<EpubError> for AppHttpError {
    open spec fn obeys_from_spec() -> bool {
        true
    }

    open spec fn from_spec(v: EpubError) -> Self {
        AppHttpError::Epub(v)
    }
}

/// The (status, code, message) an error is answered with.
pub open spec fn response_of(e: AppHttpError) -> (u16, Seq<char>, Seq<char>) {
    match e {
        AppHttpError::Service(ServiceFailure::TextTooLong(n)) => (
            413,
            "TEXT_TOO_LONG"@,
            "batch too long: "@ + decimal(n as nat),
        ),
        AppHttpError::Service(ServiceFailure::Timeout(d)) => (504, "TIMEOUT"@, "timed out: "@ + d@),
        AppHttpError::Service(ServiceFailure::Network(m)) => (502, "BAD_GATEWAY"@, m@),
        AppHttpError::Service(ServiceFailure::Upstream(m)) => (502, "UPSTREAM"@, m@),
        AppHttpError::Db(DbFailure::NotFound(k)) => (404, "NOT_FOUND"@, "not found: "@ + k@),
        AppHttpError::Db(DbFailure::Other(m)) => (500, "DB_ERROR"@, m@),
        AppHttpError::Epub(e) => (400, "EPUB_ERROR"@, epub_error_text(e@)),
        AppHttpError::BadRequest(m) => (400, "BAD_REQUEST"@, m@),
        AppHttpError::NotFound(m) => (404, "NOT_FOUND"@, m@),
        AppHttpError::Internal(m) => (500, "INTERNAL"@, m@),
    }
}

/// `prefix` followed by `rest`.
fn joined(prefix: &str, rest: &str) -> (r: String)
    ensures
        r@ == prefix@ + rest@,
{
    let mut r = String::from_str(prefix);
    r.append(rest);
    r
}

impl AppHttpError {
    /// The HTTP status, machine-readable code and message this error is
    /// answered with.
    pub fn response_parts(&self) -> (r: (u16, String, String))
        ensures
            (r.0, r.1@, r.2@) == response_of(*self),
    {
        match self {
            AppHttpError::Service(ServiceFailure::TextTooLong(n)) => {
                let mut v: Vec<char> = Vec::new();
                crate::chars::push_decimal(&mut v, *n);
                assert(v@ =~= decimal(*n as nat));
                let d = crate::chars::string_from_chars(v.as_slice());
                (413, String::from_str("TEXT_TOO_LONG"), joined("batch too long: ", d.as_str()))
            },
            AppHttpError::Service(ServiceFailure::Timeout(d)) => {
                (504, String::from_str("TIMEOUT"), joined("timed out: ", d.as_str()))
            },
            AppHttpError::Service(ServiceFailure::Network(m)) => {
                (502, String::from_str("BAD_GATEWAY"), m.clone())
            },
            AppHttpError::Service(ServiceFailure::Upstream(m)) => {
                (502, String::from_str("UPSTREAM"), m.clone())
            },
            AppHttpError::Db(DbFailure::NotFound(k)) => {
                (404, String::from_str("NOT_FOUND"), joined("not found: ", k.as_str()))
            },
            AppHttpError::Db(DbFailure::Other(m)) => (500, String::from_str("DB_ERROR"), m.clone()),
            AppHttpError::Epub(e) => (400, String::from_str("EPUB_ERROR"), e.message()),
            AppHttpError::BadRequest(m) => (400, String::from_str("BAD_REQUEST"), m.clone()),
            AppHttpError::NotFound(m) => (404, String::from_str("NOT_FOUND"), m.clone()),
            AppHttpError::Internal(m) => (500, String::from_str("INTERNAL"), m.clone()),
        }
    }
}

} // verus!
