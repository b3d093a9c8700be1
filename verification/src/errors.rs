use vstd::prelude::*;

verus! {

/// Failure taxonomy of the transport primitives.
///
/// Interrupted system calls are retried inside the wait primitives and
/// never surface here.  Logic-invariant violations observed while a
/// channel is running are prevented by construction; a peer that
/// attaches to a region whose header does not satisfy the ring
/// invariants is handed `CorruptHeader` instead.
#[derive(Debug)]
pub enum Error {
    /// An owner tried to create a named object that already exists.
    AlreadyExists,
    /// A peer tried to attach to a named object that does not exist.
    NotFound,
    /// A peer attached to a region smaller than required
    /// (bytes required, bytes present).
    SizeMismatch(usize, usize),
    /// An attached region does not hold a well-formed ring header.
    CorruptHeader,
    /// The requested capacity does not fit the 32-bit index width.
    CapacityOverflow(u32),
    /// An operating-system primitive failed for a reason other than
    /// interruption: the errno value and its description.
    Errno(i32, String),
}

impl Error {
    /// The errno value and description of an operating-system failure.
    pub fn into_errno(self) -> (r: (i32, String))
        requires
            self is Errno,
        ensures
            self == Error::Errno(r.0, r.1),
    {
        match self {
            Error::Errno(code, msg) => (code, msg),
            _ => {
                proof {
                    assert(false);
                }
                (0, String::new())
            },
        }
    }
}

} // verus!
