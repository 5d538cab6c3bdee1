use vstd::prelude::*;

verus! {

/// Errors surfaced by save and load sessions.
///
/// The first four kinds are ordinary recoverable errors. The remaining kinds
/// report a non-recoverable violation of a program or data invariant: a
/// discriminator outside its closed set, a file newer than the code reading
/// it, or an attempt to serialize a removed-field placeholder.
#[derive(Debug, PartialEq)]
#[must_use]
pub enum SavefileError {
    /// The stored schema differs from the in-memory schema for the file's version.
    IncompatibleSchema { message: String },
    /// The byte source ended before the requested data could be read.
    IOError { msg: String },
    /// A string's bytes were not valid UTF-8.
    InvalidUtf8 { msg: String },
    /// The allocator refused a buffer for the bulk decode path.
    OutOfMemory { msg: String },
    /// The requested size and alignment cannot form a valid memory layout.
    MemoryAllocationLayoutError,
    /// A closed-set discriminator was out of range: the stream is corrupt.
    CorruptStream { msg: String },
    /// The file was written at a later version than the data structures in memory.
    NewerFileVersion { file_version: u32, memory_version: u32 },
    /// A removed-field placeholder was asked to serialize itself: the enclosing
    /// type's version handling is wrong.
    RemovedFieldWritten,
}

} // verus!
