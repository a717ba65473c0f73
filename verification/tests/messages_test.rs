use johansen_null_eigenspectra::data_storage::error::StorageError;
use johansen_null_eigenspectra::data_storage::uleb128::Uleb128Error;

#[test]
fn test_storage_error_messages() {
    assert_eq!(
        StorageError::FormatMismatch.message(),
        "File format error: magic header mismatch"
    );
    assert_eq!(StorageError::UnexpectedEof.message(), "failed to fill whole buffer");
    assert_eq!(
        StorageError::InvalidSeed(Uleb128Error::EncodingTooLong).message(),
        "Invalid seed: ULEB128 encoding too long"
    );
    assert_eq!(
        StorageError::InvalidEigenvalueCount.message(),
        "Invalid eigenvalue count: cannot be zero"
    );
    assert_eq!(
        StorageError::EigenvalueCountMismatch { expected: 12, actual: 1300 }.message(),
        "Eigenvalue count mismatch: expected 12, actual 1,300"
    );
    assert_eq!(
        StorageError::ModelMismatch { file: 1, expected: 2 }.message(),
        "Model mismatch: file has model 1, expected 2"
    );
    assert_eq!(
        StorageError::DimensionMismatch { file: 3, expected: 255 }.message(),
        "Dimension mismatch: file has dim 3, expected 255"
    );
    assert_eq!(
        StorageError::StepsMismatch { file: 100, expected: 4294967295 }.message(),
        "Steps mismatch: file has steps 100, expected 4294967295"
    );
    assert_eq!(
        StorageError::TooManyEigenvalues { count: 300 }.message(),
        "Too many eigenvalues: 300 exceeds maximum of 255"
    );
    assert_eq!(
        StorageError::InconsistentEigenvalueCount {
            expected: 2,
            actual: 3,
            model: 0,
            dim: 2,
            steps: 100
        }
        .message(),
        "Eigenvalue count mismatch: expected 2, actual 3 (model 0, dim 2, steps 100)"
    );
    let message = StorageError::DataCountMismatch { expected: 5, found: 3 }.message();
    assert!(message.contains("expected 5 records, found 3 records"));
    assert!(message.contains("Use `read_all_data()`"));
    assert_eq!(
        message,
        "Data count mismatch: expected 5 records, found 3 records. \
         This indicates incomplete simulation data.\n\
         Solutions:\n\
         1. Use `read_all_data()` to read available data (3 records)\n\
         2. Run `run_simulation()` to complete the simulation\n\
         3. Create a new EigenvalueSimulation with num_runs=3 to match existing data"
    );
}

#[test]
fn test_which_errors_are_mismatches() {
    assert!(StorageError::FormatMismatch.is_mismatch());
    assert!(StorageError::ModelMismatch { file: 1, expected: 2 }.is_mismatch());
    assert!(StorageError::DimensionMismatch { file: 1, expected: 2 }.is_mismatch());
    assert!(StorageError::StepsMismatch { file: 1, expected: 2 }.is_mismatch());
    assert!(StorageError::EigenvalueCountMismatch { expected: 1, actual: 2 }.is_mismatch());
    assert!(StorageError::DataCountMismatch { expected: 1, found: 2 }.is_mismatch());
    assert!(!StorageError::UnexpectedEof.is_mismatch());
    assert!(!StorageError::InvalidEigenvalueCount.is_mismatch());
    assert!(!StorageError::TooManyEigenvalues { count: 256 }.is_mismatch());
    assert!(!StorageError::InvalidSeed(Uleb128Error::ValueTooLarge).is_mismatch());
    // a mismatch is an error whose message says so
    assert!(StorageError::FormatMismatch.message().contains("mismatch"));
    assert!(!StorageError::UnexpectedEof.message().contains("mismatch"));
}

#[test]
fn test_mismatches_say_so() {
    let errors = vec![
        StorageError::FormatMismatch,
        StorageError::UnexpectedEof,
        StorageError::InvalidSeed(Uleb128Error::ValueTooLarge),
        StorageError::InvalidSeed(Uleb128Error::IncompleteEncoding),
        StorageError::InvalidSeed(Uleb128Error::EncodingTooLong),
        StorageError::InvalidEigenvalueCount,
        StorageError::EigenvalueCountMismatch { expected: 1, actual: 2 },
        StorageError::ModelMismatch { file: 1, expected: 2 },
        StorageError::DimensionMismatch { file: 1, expected: 2 },
        StorageError::StepsMismatch { file: 1, expected: 2 },
        StorageError::TooManyEigenvalues { count: 256 },
        StorageError::InconsistentEigenvalueCount {
            expected: 1,
            actual: 2,
            model: 3,
            dim: 4,
            steps: 5,
        },
        StorageError::DataCountMismatch { expected: 1, found: 2 },
    ];
    for error in errors {
        assert_eq!(error.is_mismatch(), error.message().contains("mismatch"), "{:?}", error);
    }
}
