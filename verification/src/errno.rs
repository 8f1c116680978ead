//! Kernel error numbers.
use vstd::prelude::*;

verus! {

/// Error returned by kernel operations.
#[derive(Clone, Copy, Debug, PartialEq, Eq, Structural)]
pub enum Errno {
    Perm,
    NoEnt,
    Io,
    BadFd,
    NoMem,
    Busy,
    Exist,
    NotDir,
    Inval,
    NoSpace,
    Pipe,
    Range,
    NoSys,
}

} // verus!
