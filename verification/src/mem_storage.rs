//! A storage that keeps nothing, for running elections alone.

use vstd::prelude::*;

use crate::storage::Storage;

verus! {

/// A storage that keeps nothing.
#[derive(Clone, Copy, Debug, PartialEq, Eq)]
pub struct MemStorage {}

impl Storage for MemStorage {
}

} // verus!
