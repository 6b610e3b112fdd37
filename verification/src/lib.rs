//! Verified core of the S3 object upload path of an object store: checksum
//! validation, upload identifiers, content-defined chunking of request bodies,
//! multipart bookkeeping and error-to-status mapping.

pub mod chunker;
pub mod codec;
pub mod digest;
pub mod error;
pub mod headers;
pub mod multipart;
pub mod object;
pub mod s3_put;
pub mod xml;
