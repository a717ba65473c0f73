//! What can go wrong between a caller's request and the bytes of a file.

use vstd::prelude::*;
use vstd::string::*;
use super::uleb128::Uleb128Error;
use crate::display_utils::{
    push_decimal,
    push_number_with_commas,
    spec_decimal,
    spec_number_with_commas,
};

verus! {

/// A failure of the reader, the resume planner or the writer.
#[derive(Debug, Clone, PartialEq)]
#[allow(inconsistent_fields)]
pub enum StorageError {
    /// The file does not start with the magic header: it is not a file of
    /// this format, and nothing in it can be trusted.
    FormatMismatch,
    /// The file ends inside its header, or inside a record that the footer
    /// counts.
    UnexpectedEof,
    /// A record that the footer counts has a seed that does not decode.
    InvalidSeed(Uleb128Error),
    /// A record that the footer counts declares no eigenvalues.
    InvalidEigenvalueCount,
    /// A record declares another number of eigenvalues than the footer.
    EigenvalueCountMismatch { expected: usize, actual: usize },
    /// The header was written for another model.
    ModelMismatch { file: u8, expected: u8 },
    /// The header was written for another dimension.
    DimensionMismatch { file: u8, expected: u8 },
    /// The header was written for another number of steps.
    StepsMismatch { file: u32, expected: u32 },
    /// More eigenvalues were handed to the writer than a record can count.
    TooManyEigenvalues { count: usize },
    /// The writer was handed another number of eigenvalues than its file holds
    /// per record.
    InconsistentEigenvalueCount { expected: usize, actual: usize, model: u8, dim: u8, steps: u32 },
    /// Fewer or more records than a simulation expects.
    DataCountMismatch { expected: usize, found: usize },
}

impl StorageError {
    /// The error in words.
    pub open spec fn spec_message(self) -> Seq<char> {
        match self {
            StorageError::FormatMismatch => "File format error: magic header mismatch"@,
            StorageError::UnexpectedEof => "failed to fill whole buffer"@,
            StorageError::InvalidSeed(e) => "Invalid seed: "@ + e.spec_message(),
            StorageError::InvalidEigenvalueCount => "Invalid eigenvalue count: cannot be zero"@,
            StorageError::EigenvalueCountMismatch { expected, actual } =>
                "Eigenvalue count mismatch: expected "@ + spec_number_with_commas(expected as nat)
                    + ", actual "@ + spec_number_with_commas(actual as nat),
            StorageError::ModelMismatch { file, expected } => "Model mismatch: file has model "@
                + spec_decimal(file as nat) + ", expected "@ + spec_decimal(expected as nat),
            StorageError::DimensionMismatch { file, expected } =>
                "Dimension mismatch: file has dim "@ + spec_decimal(file as nat) + ", expected "@
                    + spec_decimal(expected as nat),
            StorageError::StepsMismatch { file, expected } => "Steps mismatch: file has steps "@
                + spec_decimal(file as nat) + ", expected "@ + spec_decimal(expected as nat),
            StorageError::TooManyEigenvalues { count } => "Too many eigenvalues: "@
                + spec_number_with_commas(count as nat) + " exceeds maximum of 255"@,
            StorageError::InconsistentEigenvalueCount { expected, actual, model, dim, steps } =>
                "Eigenvalue count mismatch: expected "@ + spec_number_with_commas(expected as nat)
                    + ", actual "@ + spec_number_with_commas(actual as nat) + " (model "@
                    + spec_decimal(model as nat) + ", dim "@ + spec_decimal(dim as nat)
                    + ", steps "@ + spec_decimal(steps as nat) + ")"@,
            StorageError::DataCountMismatch { expected, found } =>
                "Data count mismatch: expected "@ + spec_decimal(expected as nat)
                    + " records, found "@ + spec_decimal(found as nat)
                    + " records. This indicates incomplete simulation data.\nSolutions:\n1. Use `read_all_data()` to read available data ("@
                    + spec_decimal(found as nat)
                    + " records)\n2. Run `run_simulation()` to complete the simulation\n3. Create a new EigenvalueSimulation with num_runs="@
                    + spec_decimal(found as nat) + " to match existing data"@,
        }
    }

    /// Whether the error says that what the caller asked for and what the
    /// file holds do not go together: every error but a file that ends too
    /// early, a seed that does not decode, a record without eigenvalues and
    /// too many eigenvalues.
    pub open spec fn spec_is_mismatch(self) -> bool {
        !(self is UnexpectedEof || self is InvalidSeed || self is InvalidEigenvalueCount
            || self is TooManyEigenvalues)
    }

    /// Whether the error is a disagreement between the caller and the file.
    pub fn is_mismatch(&self) -> (yes: bool)
        ensures
            yes == self.spec_is_mismatch(),
    {
        match self {
            StorageError::UnexpectedEof => false,
            StorageError::InvalidSeed(_) => false,
            StorageError::InvalidEigenvalueCount => false,
            StorageError::TooManyEigenvalues { .. } => false,
            _ => true,
        }
    }

    /// The error in words.
    pub fn message(&self) -> (text: String)
        ensures
            text@ == self.spec_message(),
    {
        match self {
            StorageError::FormatMismatch => String::from_str(
                "File format error: magic header mismatch",
            ),
            StorageError::UnexpectedEof => String::from_str("failed to fill whole buffer"),
            StorageError::InvalidSeed(e) => {
                let mut text = String::from_str("Invalid seed: ");
                let inner = e.message();
                text.append(inner.as_str());
                text
            },
            StorageError::InvalidEigenvalueCount => String::from_str(
                "Invalid eigenvalue count: cannot be zero",
            ),
            StorageError::EigenvalueCountMismatch { expected, actual } => {
                let mut text = String::from_str("Eigenvalue count mismatch: expected ");
                push_number_with_commas(&mut text, *expected);
                text.append(", actual ");
                push_number_with_commas(&mut text, *actual);
                text
            },
            StorageError::ModelMismatch { file, expected } => {
                let mut text = String::from_str("Model mismatch: file has model ");
                push_decimal(&mut text, *file as usize);
                text.append(", expected ");
                push_decimal(&mut text, *expected as usize);
                text
            },
            StorageError::DimensionMismatch { file, expected } => {
                let mut text = String::from_str("Dimension mismatch: file has dim ");
                push_decimal(&mut text, *file as usize);
                text.append(", expected ");
                push_decimal(&mut text, *expected as usize);
                text
            },
            StorageError::StepsMismatch { file, expected } => {
                let mut text = String::from_str("Steps mismatch: file has steps ");
                push_decimal(&mut text, *file as usize);
                text.append(", expected ");
                push_decimal(&mut text, *expected as usize);
                text
            },
            StorageError::TooManyEigenvalues { count } => {
                let mut text = String::from_str("Too many eigenvalues: ");
                push_number_with_commas(&mut text, *count);
                text.append(" exceeds maximum of 255");
                text
            },
            StorageError::InconsistentEigenvalueCount { expected, actual, model, dim, steps } => {
                let mut text = String::from_str("Eigenvalue count mismatch: expected ");
                push_number_with_commas(&mut text, *expected);
                text.append(", actual ");
                push_number_with_commas(&mut text, *actual);
                text.append(" (model ");
                push_decimal(&mut text, *model as usize);
                text.append(", dim ");
                push_decimal(&mut text, *dim as usize);
                text.append(", steps ");
                push_decimal(&mut text, *steps as usize);
                text.append(")");
                text
            },
            StorageError::DataCountMismatch { expected, found } => {
                let mut text = String::from_str("Data count mismatch: expected ");
                push_decimal(&mut text, *expected);
                text.append(" records, found ");
                push_decimal(&mut text, *found);
                text.append(
                    " records. This indicates incomplete simulation data.\nSolutions:\n1. Use `read_all_data()` to read available data (",
                );
                push_decimal(&mut text, *found);
                text.append(
                    " records)\n2. Run `run_simulation()` to complete the simulation\n3. Create a new EigenvalueSimulation with num_runs=",
                );
                push_decimal(&mut text, *found);
                text.append(" to match existing data");
                text
            },
        }
    }
}

} // verus!
