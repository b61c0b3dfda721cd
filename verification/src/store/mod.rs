pub mod memory;
pub mod redis_store;

use vstd::prelude::*;

verus! {

/// Where the limiter state lives.
#[derive(Debug, Clone, Copy, PartialEq, Eq, Structural)]
pub enum StoreBackend {
    Memory,
    Redis,
}

/// A failure of the limiter store.
#[derive(Debug)]
pub enum StoreError {
    Other(String),
    Connection(String),
}

} // verus!
