use vstd::prelude::*;

verus! {

/// The error numbers that the library reports, named after their POSIX
/// counterparts.
#[derive(Debug, Clone, Copy, PartialEq, Eq, Structural)]
pub enum Errno {
    /// Unknown error (value 0); used when the help text was requested.
    UnknownErrno,
    EINVAL,
    ENOENT,
    ENOSPC,
    EEXIST,
    EIO,
    ENODEV,
    E2BIG,
    EOPNOTSUPP,
    ENOTDIR,
    EISDIR,
}

} // verus!
