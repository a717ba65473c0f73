//! Resumable append-only storage for Monte Carlo simulations of the Johansen
//! cointegration test.
//!
//! A simulation yields one small record per run: the seed of the run and its
//! eigenvalues. The records of millions of runs go into one file, which is
//! only ever appended to, can be taken up again after a crash, and is read
//! whether or not it was finished.
//!
//! The library holds the file format, the reader, the writer and the planning
//! of a run as functions on bytes and plain values. It opens no file and
//! starts no thread: it tells its caller what to write and what to compute.
//! Eigenvalues are handled as the bit patterns of their 64-bit floating-point
//! numbers, which the library stores and returns unchanged.

pub mod cli;
pub mod data_storage;
pub mod display_utils;
pub mod johansen_models;
pub mod matrix_utils;
pub mod rng_matrix;

pub use data_storage::EigenvalueSimulation;
pub use johansen_models::JohansenModel;
