//! The error kinds that reading and writing objects can surface.

use vstd::prelude::*;

verus! {

/// Everything that can go wrong while encoding, decoding or locating an
/// object. Filesystem errors are the caller's to handle; these kinds cover
/// the object layer itself.
#[derive(Debug, Clone, Copy, PartialEq, Eq, Structural)]
pub enum ObjectError {
    /// A hash prefix that is too short, or matches no stored object.
    InvalidHash,
    /// A hash prefix that matches more than one stored object.
    AmbiguousHash,
    /// Bytes that are not validly compressed.
    CorruptData,
    /// An object frame without the expected space or NUL separator.
    MalformedHeader,
    /// A type tag that names neither a blob nor a tree.
    UnknownObjectType,
    /// A tree payload whose entry framing is broken or truncated.
    InvalidTreeLine,
}

} // verus!
