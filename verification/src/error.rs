//! The errors a request can end in.
use crate::types::ObjectId;
use vstd::prelude::*;

verus! {

/// The kinds of I/O failure that the service itself reports.
#[derive(Debug, Clone, Copy, PartialEq, Eq, Structural)]
pub enum IoErrorKind {
    AddrNotAvailable,
    Other,
}

/// Why a request or a message could not be handled.
#[derive(Debug, Clone, Copy, PartialEq, Eq)]
pub enum WaylandError {
    /// The operating system refused something.
    Io(IoErrorKind),
    /// A message could not be decoded.
    DecodeError,
    /// The client bound a global that was never announced.
    UnknownGlobal(u32),
    /// No object has this id.
    MissingObject(ObjectId),
    /// A protocol violation, which the client is told of before it is dropped.
    Fatal { object_id: ObjectId, code: u32, message: &'static str },
    /// A memory file could not be made.
    MemfdError,
    /// The id of a new object is already in use.
    FailedToInsertObject,
}

pub type WaylandResult<T> = Result<T, WaylandError>;

} // verus!
