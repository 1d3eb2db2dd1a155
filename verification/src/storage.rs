//! The byte-storage abstraction the container readers work through.
//! Implementations live outside the library (a file on disk, a byte
//! buffer in tests); the readers state nothing about what a backend
//! returns and validate every byte they receive.

use vstd::prelude::*;

use crate::AppError;

verus! {

/// Random-access byte storage: the readers fetch header and tensor
/// bytes through it, and the safetensors writer replaces the header
/// region through it.
pub trait Storage {
    /// A human-readable name of the backing store.
    fn display(&self) -> String;

    /// Reads `len` bytes starting at absolute byte offset `start`.
    fn read_range(&mut self, start: u64, len: usize) -> Result<Vec<u8>, AppError>;

    /// Reads the whole store.
    fn read(&mut self) -> Result<Vec<u8>, AppError>;

    /// Replaces the whole store.
    fn write(&mut self, bytes: &Vec<u8>) -> Result<(), AppError>;

    /// Replaces the byte range `[start, end)` with the given bytes,
    /// shifting what follows.
    fn splice(&mut self, start: usize, end: usize, bytes: &Vec<u8>) -> Result<(), AppError>;
}

} // verus!
