//! Errors of the library.
use vstd::prelude::*;
use crate::text::owned;

verus! {

/// What can go wrong.
pub enum IamReconError {
    Io(String),
    Json(String),
    AwsSdk(String),
    InvalidArn(String),
    VersionMismatch { stored: String, current: String },
    NodeNotFound(String),
    InvalidQuery(String),
    Regex(String),
    Other(String),
}

/// An error reported by the AWS SDK, with its message.
pub fn aws_err(message: &str) -> (r: IamReconError)
    ensures
        r matches IamReconError::AwsSdk(m) && m@ == message@,
{
    IamReconError::AwsSdk(owned(message))
}

} // verus!
