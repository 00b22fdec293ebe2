//! Errors of the BPF side of the library.
use vstd::prelude::*;

verus! {

/// `EINVAL` on Linux: invalid argument.
pub const EINVAL: i32 = 22;

/// `ENOTSUP` on Linux (the same code as `EOPNOTSUPP`): operation not supported.
pub const ENOTSUP: i32 = 95;

/// What can go wrong when handling a BPF object.
#[derive(Debug, Clone, Copy, PartialEq, Eq)]
pub enum BpfError {
    /// An error reported by libbpf, carried by its OS error code.
    LibBPFError { error: i32 },
    /// An OS error code returned by a syscall.
    OsError { errno: u32 },
    /// The kernel does not support the BPF object.
    Unsupported,
}

} // verus!
