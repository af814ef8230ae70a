use vstd::prelude::*;

verus! {

/// Why a request to librbd, or the preparation of its arguments, failed.
#[derive(Debug)]
pub enum RbdError {
    /// librbd (or librados) answered with this negative return code.
    Api(i32),
    /// A string argument, whose bytes are kept, holds a NUL byte at this
    /// byte offset, so it cannot be handed to librbd as a C string.
    InteriorNul(usize, Vec<u8>),
    /// Bytes handed back by librbd that are not valid UTF-8.
    InvalidUtf8(Vec<u8>),
}

/// What a librbd return code means: a negative code is a failure that
/// carries the code, anything else is success.
pub open spec fn status_of(code: i32) -> Result<(), RbdError> {
    if code < 0 {
        Err(RbdError::Api(code))
    } else {
        Ok(())
    }
}

/// Turns the return code of a librbd call and the value the call produced
/// into the call's result.
pub fn returned<T>(code: i32, value: T) -> (r: Result<T, RbdError>)
    ensures
        code < 0 ==> r == Err::<T, RbdError>(RbdError::Api(code)),
        code >= 0 ==> r == Ok::<T, RbdError>(value),
{
    if code < 0 {
        Err(RbdError::Api(code))
    } else {
        Ok(value)
    }
}

/// Reads a C boolean the way librbd writes it: only the value 1 is true.
pub fn flag_from_c(value: i32) -> (r: bool)
    ensures
        r == (value == 1),
{
    value == 1
}

} // verus!
