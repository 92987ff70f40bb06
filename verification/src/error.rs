use vstd::prelude::*;

verus! {

/// The kinds of failure the read engine reports.
///
/// Every fallible operation returns a `Result` carrying one of these; no
/// operation panics or aborts the process.
#[derive(Clone, Copy, Debug, PartialEq, Eq, Structural)]
pub enum Error {
    /// The backing store could not be read. Never produced by the in-memory
    /// engine itself; reserved for callers that feed it from real I/O.
    Io,
    /// A checksum mismatch, a malformed page or record, a structural
    /// violation of a B-tree, or a traversal that exceeded the depth bound.
    /// Fatal to the operation attempted; a corrupt page does not become
    /// valid on retry.
    Corrupt,
    /// A table, column, record or value lookup missed. Recoverable by the
    /// caller.
    NotFound,
    /// Text data could not be decoded. Recovered locally by lossy
    /// substitution wherever possible, so rarely surfaced.
    Encoding,
    /// The caller requested a conversion incompatible with the column's
    /// declared type.
    TypeMismatch,
}

} // verus!
