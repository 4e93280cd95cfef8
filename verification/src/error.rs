//! The errors of the Raft layer.

use vstd::prelude::*;

verus! {

#[verifier::external_type_specification]
#[verifier::external_body]
pub struct ExIoError(std::io::Error);

/// An error of the Raft layer: an I/O failure underneath, or a snapshot
/// older than the log it should replace.
#[derive(Debug)]
pub enum RaftError {
    Io(std::io::Error),
    SnapshotOutOfDate,
}

/// The result of an operation of the Raft layer.
pub type RaftResult<T> = Result<T, RaftError>;

} // verus!
