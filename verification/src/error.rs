//! Errors of the upload handlers and of the web front end, and the HTTP
//! status each one is answered with.

use vstd::prelude::*;

verus! {

/// An error of the storage layer.
#[derive(Debug, PartialEq, Eq)]
pub enum GarageError {
    /// A remote call did not answer in time.
    Timeout,
    /// A remote node answered with an error.
    RemoteError(String),
    /// Too few nodes answered: required, sent, successes, and the errors seen.
    Quorum(usize, usize, usize, Vec<String>),
    /// Any other internal failure.
    Message(String),
}

/// An error of the S3 upload handlers.
#[derive(Debug, PartialEq, Eq)]
pub enum ApiError {
    /// Error internal to the storage layer.
    InternalError(GarageError),
    /// The object or upload does not exist.
    NotFound,
    /// The request body is not well-formed XML.
    InvalidXml(String),
    /// A header holds something other than visible ASCII.
    InvalidHeader,
    /// The request body is not valid UTF-8.
    InvalidUtf8,
    /// The request is malformed or does not match what is stored.
    BadRequest(String),
}

/// What the S3 API answers for one of its own errors, as the web front end
/// reads it: the status code and the headers to add to the reply.
#[derive(Debug, PartialEq, Eq)]
pub struct ApiErrorReply {
    pub status: u16,
    pub headers: Vec<(String, String)>,
}

/// Errors of the web front end.
#[derive(Debug, PartialEq, Eq)]
pub enum Error {
    /// An error received from the S3 API.
    ApiError(ApiErrorReply),
    /// Error internal to the storage layer.
    InternalError(GarageError),
    /// The file does not exist.
    NotFound,
    /// The request contained an invalid UTF-8 sequence in its path or in
    /// other parameters.
    InvalidUtf8,
    /// The client sent a header with an invalid value.
    InvalidHeader,
    /// The client sent a request without host, or with an unsupported method.
    BadRequest(String),
}

/// The HTTP status of a web front-end error: 404 for a missing file, the API's
/// own status for an API error, 503 when the storage layer timed out, got a
/// remote error or missed its quorum, 500 for other internal errors, and 400
/// otherwise.
pub open spec fn status_of(e: Error) -> u16 {
    match e {
        Error::NotFound => 404,
        Error::ApiError(r) => r.status,
        Error::InternalError(g) => match g {
            GarageError::Timeout | GarageError::RemoteError(_) | GarageError::Quorum(..) => 503,
            _ => 500,
        },
        _ => 400,
    }
}

impl Error {
    /// Transforms the error into an HTTP status code.
    pub fn http_status_code(&self) -> (r: u16)
        ensures
            r == status_of(*self),
    {
        match self {
            Error::NotFound => 404,
            Error::ApiError(e) => e.status,
            Error::InternalError(GarageError::Timeout)
            | Error::InternalError(GarageError::RemoteError(_))
            | Error::InternalError(GarageError::Quorum(..)) => 503,
            Error::InternalError(_) => 500,
            _ => 400,
        }
    }

    /// Adds to a reply's headers those the error calls for: an API error's
    /// own headers, after those already there; nothing for other errors.
    pub fn add_headers(&self, header_map: &mut Vec<(String, String)>)
        ensures
            match *self {
                Error::ApiError(e) => final(header_map)@ == old(header_map)@ + e.headers@,
                _ => final(header_map)@ == old(header_map)@,
            },
    {
        match self {
            Error::ApiError(e) => {
                let mut i: usize = 0;
                while i < e.headers.len()
                    invariant
                        i <= e.headers@.len(),
                        header_map@ == old(header_map)@ + e.headers@.take(i as int),
                    decreases e.headers@.len() - i,
                {
                    let (name, value) = &e.headers[i];
                    header_map.push((name.clone(), value.clone()));
                    assert(e.headers@.take(i + 1) =~= e.headers@.take(i as int).push(e.headers@[i as int]));
                    i = i + 1;
                }
                assert(e.headers@.take(e.headers@.len() as int) =~= e.headers@);
            },
            _ => {},
        }
    }
}

} // verus!
