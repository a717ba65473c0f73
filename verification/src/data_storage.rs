//! The storage engine: the file format, the reader, the writer, and the
//! planning of a run that goes on where its file ends.

pub mod config;
pub mod error;
pub mod file_format;
pub mod parallel_compute;
pub mod progress;
pub mod reader;
pub mod resume;
pub mod roundtrip;
pub mod simulation;
pub mod thread_manager;
pub mod uleb128;
pub mod writer;

pub use simulation::EigenvalueSimulation;
