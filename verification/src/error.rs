//! The library's error.
use vstd::prelude::*;

verus! {

/// `std::io::Error`, carried through as an opaque value.
#[verifier::external_type_specification]
#[verifier::external_body]
pub struct ExIoError(std::io::Error);

/// An error of LaX: a message for the user, or a failed filesystem operation.
#[derive(Debug)]
pub enum LaxError {
    Msg(String),
    Io(std::io::Error),
}

pub type LaxResult<T> = Result<T, LaxError>;

/// The error is the message `m`.
pub open spec fn is_msg(e: LaxError, m: Seq<char>) -> bool {
    e matches LaxError::Msg(s) && s@ == m
}

/// The result is an error with message `m`.
pub open spec fn err_msg<T>(r: LaxResult<T>, m: Seq<char>) -> bool {
    r matches Err(e) && is_msg(e, m)
}

impl LaxError {
    /// An error with the message `m`.
    pub fn msg(m: String) -> (e: LaxError)
        ensures
            is_msg(e, m@),
    {
        LaxError::Msg(m)
    }
}

} // verus!
