//! Tuning constants of the storage engine.

use vstd::prelude::*;

verus! {

/// Number of identifiers handed to the worker pool at a time.
pub const BATCH_SIZE: usize = 10_000;

/// A progress line is due each time this many records have been completed.
pub const PROGRESS_REPORT_INTERVAL: usize = 10_000;

/// Buffered records are handed to storage each time this many were written.
pub const FLUSH_INTERVAL: usize = 10_000;

/// Capacity in bytes of the buffer in front of the output file.
pub const WRITE_BUFFER_CAPACITY: usize = 2_097_152;

/// Smallest read buffer: 64 KiB.
pub const MIN_READ_BUFFER_SIZE: usize = 65_536;

/// Largest read buffer: 16 MiB.
pub const MAX_READ_BUFFER_SIZE: usize = 16_777_216;

} // verus!
