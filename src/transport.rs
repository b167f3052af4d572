//! The transport's error types, carried unchanged inside this library's own
//! errors. Their contents are opaque here.
use vstd::prelude::*;

verus! {

/// `quinn::ConnectionError`: why a connection was lost.
#[verifier::external_type_specification]
#[verifier::external_body]
pub struct ExConnectionError(quinn::ConnectionError);

/// `quinn::WriteError`: why a write to a stream failed.
#[verifier::external_type_specification]
#[verifier::external_body]
pub struct ExWriteError(quinn::WriteError);

/// `std::io::Error`: why reading a framed stream failed.
#[verifier::external_type_specification]
#[verifier::external_body]
pub struct ExIoError(std::io::Error);

} // verus!
