use vstd::prelude::*;

verus! {

/// The errno value ERANGE (34 on Linux and the BSDs, where librbd runs).
pub open spec fn range_error() -> i32 {
    34
}

/// The errno value ENOENT (2 on Linux and the BSDs, where librbd runs).
pub open spec fn no_entry_error() -> i32 {
    2
}

/// `nix::errno::Errno::ERANGE` as a number. nix defines the variant as
/// `libc::ERANGE`, which libc fixes at 34 on Linux and the BSDs.
#[verifier::external_body]
pub(crate) fn range_errno() -> (code: i32)
    ensures
        code == range_error(),
{
    nix::errno::Errno::ERANGE as i32
}

/// `nix::errno::Errno::ENOENT` as a number. nix defines the variant as
/// `libc::ENOENT`, which libc fixes at 2 on Linux and the BSDs.
#[verifier::external_body]
pub(crate) fn no_entry_errno() -> (code: i32)
    ensures
        code == no_entry_error(),
{
    nix::errno::Errno::ENOENT as i32
}

} // verus!
