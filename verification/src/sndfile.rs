//! What libsndfile says, and what is made of it.
//!
//! The handle itself and the calls on it belong to the program; this is the
//! header it parses, as plain values, and the decisions that follow a call.

use vstd::prelude::*;

pub mod ffi;

verus! {

/// What libsndfile said went wrong.
#[derive(Debug, Clone, PartialEq, Eq)]
pub struct SndFileError {
    pub message: String,
}

impl SndFileError {
    /// The error as text.
    pub fn to_text(&self) -> (r: String)
        ensures
            r@ == self.message@,
    {
        self.message.clone()
    }
}

/// What a read of frames came to. A short read is not an error: it is the end
/// of the track. A short read with an error set on the handle is the medium
/// going away, and the count cannot tell the two apart.
pub fn frames_read(got: i64, error: i32, message: SndFileError) -> (r: Result<i64, SndFileError>)
    ensures
        r == (if error != ffi::SF_ERR_NO_ERROR {
            Err::<i64, SndFileError>(message)
        } else {
            Ok(got)
        }),
{
    if error != ffi::SF_ERR_NO_ERROR {
        return Err(message);
    }
    Ok(got)
}

/// Where an absolute seek landed, in frames: a negative answer is a failure.
pub fn frame_sought(at: i64, message: SndFileError) -> (r: Result<u64, SndFileError>)
    ensures
        r == (if at < 0 {
            Err::<u64, SndFileError>(message)
        } else {
            Ok(at as u64)
        }),
{
    if at < 0 {
        return Err(message);
    }
    Ok(at as u64)
}

} // verus!
