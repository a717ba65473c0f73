use johansen_null_eigenspectra::data_storage::error::StorageError;
use johansen_null_eigenspectra::data_storage::parallel_compute::{
    batch_bounds, batch_count, plan_model_simulation, seed_range, validate_output_file,
    OutputValidation, SimulationPlan,
};
use johansen_null_eigenspectra::data_storage::reader::read_append_file;
use johansen_null_eigenspectra::data_storage::thread_manager::{
    eigenvalues_per_run, WriterConfig, WriterSession,
};
use johansen_null_eigenspectra::data_storage::uleb128::Uleb128Error;
use johansen_null_eigenspectra::data_storage::writer::OpenAction;
use johansen_null_eigenspectra::JohansenModel;

fn config(total_runs: usize, completed_runs: usize, quiet: bool) -> WriterConfig {
    WriterConfig {
        filename: "data/eigenvalues_model1_dim2_steps10.dat".to_string(),
        total_runs,
        completed_runs,
        dim: 2,
        steps: 10,
        model: JohansenModel::InterceptNoTrendWithInterceptInCoint,
        quiet,
    }
}

#[test]
fn test_batches_tile_the_seeds() {
    assert_eq!(batch_count(0, 10), 0);
    assert_eq!(batch_count(1, 10), 1);
    assert_eq!(batch_count(10, 10), 1);
    assert_eq!(batch_count(11, 10), 2);
    assert_eq!(batch_count(usize::MAX, 2), usize::MAX / 2 + 1);
    assert_eq!(batch_bounds(25, 10, 0), (0, 10));
    assert_eq!(batch_bounds(25, 10, 1), (10, 20));
    assert_eq!(batch_bounds(25, 10, 2), (20, 25));
    assert_eq!(batch_bounds(30, 10, 2), (20, 30));

    for total in [1usize, 9, 10, 11, 99, 100, 101] {
        let mut next = 0;
        for index in 0..batch_count(total, 10) {
            let (start, end) = batch_bounds(total, 10, index);
            assert_eq!(start, next);
            assert!(start < end && end - start <= 10);
            next = end;
        }
        assert_eq!(next, total);
    }
}

#[test]
fn test_seed_range() {
    assert_eq!(seed_range(&[]), (0, 0));
    assert_eq!(seed_range(&[7]), (7, 7));
    assert_eq!(seed_range(&[5, 2, 9, 3]), (2, 9));
    assert_eq!(seed_range(&[u32::MAX, 0]), (0, u32::MAX));
}

#[test]
fn test_plan_model_simulation() {
    assert!(matches!(plan_model_simulation(Ok((5, vec![1, 2, 3, 4, 5])), 5), SimulationPlan::Completed));
    assert!(matches!(plan_model_simulation(Ok((6, vec![1, 2, 3, 4, 5, 6])), 5), SimulationPlan::Completed));
    assert!(matches!(plan_model_simulation(Ok((0, vec![])), 0), SimulationPlan::Completed));

    match plan_model_simulation(Ok((3, vec![4, 2, 9])), 5) {
        SimulationPlan::Compute { completed_runs, first_seed, last_seed, remaining_seeds } => {
            assert_eq!(completed_runs, 3);
            assert_eq!((first_seed, last_seed), (2, 9));
            assert_eq!(remaining_seeds, vec![1, 3, 5]);
        }
        _ => panic!("three seeds are missing"),
    }
    match plan_model_simulation(Ok((0, vec![])), 3) {
        SimulationPlan::Compute { completed_runs, first_seed, last_seed, remaining_seeds } => {
            assert_eq!(completed_runs, 0);
            assert_eq!((first_seed, last_seed), (0, 0));
            assert_eq!(remaining_seeds, vec![1, 2, 3]);
        }
        _ => panic!("every seed is missing"),
    }
    // fewer records reported than seeds given
    assert!(matches!(
        plan_model_simulation(Ok((1, vec![1, 2])), 2),
        SimulationPlan::NothingLeft
    ));

    let mismatch = StorageError::StepsMismatch { file: 10, expected: 20 };
    match plan_model_simulation(Err(mismatch.clone()), 5) {
        SimulationPlan::Restart { reason } => assert_eq!(reason, mismatch),
        _ => panic!("a mismatch starts the file over"),
    }
    let broken = StorageError::InvalidSeed(Uleb128Error::EncodingTooLong);
    match plan_model_simulation(Err(broken.clone()), 5) {
        SimulationPlan::Abort { reason } => assert_eq!(reason, broken),
        _ => panic!("any other error ends the run"),
    }
}

#[test]
fn test_eigenvalues_per_run() {
    assert_eq!(eigenvalues_per_run(JohansenModel::NoInterceptNoTrend, 3), 3);
    assert_eq!(eigenvalues_per_run(JohansenModel::InterceptNoTrendWithInterceptInCoint, 3), 4);
    assert_eq!(eigenvalues_per_run(JohansenModel::InterceptNoTrendUnrestrictedIntercept, 3), 3);
    assert_eq!(
        eigenvalues_per_run(JohansenModel::InterceptTrendUnrestrictedInterceptRestrictedTrend, 3),
        4
    );
    assert_eq!(eigenvalues_per_run(JohansenModel::InterceptTrendUnrestrictedBoth, 3), 3);
    assert_eq!(eigenvalues_per_run(JohansenModel::NoInterceptNoTrend, 0), 0);
    assert_eq!(eigenvalues_per_run(JohansenModel::NoInterceptNoTrend, usize::MAX), usize::MAX);
}

#[test]
fn test_writer_session() {
    let (mut session, action) = WriterSession::open(&config(30_000, 0, false), None).unwrap();
    let mut file = match action {
        OpenAction::Create { header } => header,
        _ => panic!("a new file is created"),
    };
    assert_eq!(&file[12..], &[1, 2, 10, 0, 0, 0]);

    for seed in 1..=20_000u32 {
        let step = session.on_record(seed, &[1, 2, 3]).unwrap();
        if seed % 10_000 == 0 {
            let report = step.report.expect("a report is due");
            assert_eq!(report.current_total, seed as usize);
            assert_eq!(report.total_runs, 30_000);
            assert_eq!(report.written, seed as usize);
            assert_eq!(report.remaining_runs, 30_000);
            file.extend(step.flush.expect("a flush is due"));
        } else {
            assert!(step.report.is_none());
            assert!(step.flush.is_none());
        }
    }
    assert_eq!(session.count(), 20_000);
    assert_eq!(session.written_count(), 20_000);

    assert_eq!(
        session.on_record(20_001, &[1, 2]).err(),
        Some(StorageError::InconsistentEigenvalueCount {
            expected: 3,
            actual: 2,
            model: 1,
            dim: 2,
            steps: 10
        })
    );
    assert_eq!(session.count(), 20_000);

    file.extend(session.close());
    let (data, model, dim, steps) = read_append_file(&file).unwrap();
    assert_eq!(data.len(), 20_000);
    assert_eq!((model, dim, steps), (1, 2, 10));
    assert!(matches!(validate_output_file(&file, 20_000), OutputValidation::Successful));
}

#[test]
fn test_writer_session_counts_from_completed_runs() {
    // 9,999 records were there; the first new one makes the ten thousand full
    let (mut session, _) = WriterSession::open(&config(20_000, 9_999, false), None).unwrap();
    let step = session.on_record(1, &[1]).unwrap();
    let report = step.report.expect("a report is due");
    assert_eq!(report.current_total, 10_000);
    assert_eq!(report.written, 1);
    assert_eq!(report.remaining_runs, 10_001);
    // the writer itself holds one record, so that no flush is due
    assert!(step.flush.is_none());

    // a quiet session reports nothing
    let (mut session, _) = WriterSession::open(&config(20_000, 9_999, true), None).unwrap();
    let step = session.on_record(1, &[1]).unwrap();
    assert!(step.report.is_none());
}

#[test]
fn test_writer_session_takes_header_fields_at_their_width() {
    let mut wide = config(10, 0, true);
    wide.dim = 258;
    wide.steps = 0x1_0000_0005;
    let (_, action) = WriterSession::open(&wide, None).unwrap();
    match action {
        OpenAction::Create { header } => assert_eq!(&header[12..], &[1, 2, 5, 0, 0, 0]),
        _ => panic!("a new file is created"),
    }
}

#[test]
fn test_validate_output_file() {
    let (mut session, action) = WriterSession::open(&config(2, 0, true), None).unwrap();
    let mut file = match action {
        OpenAction::Create { header } => header,
        _ => panic!("a new file is created"),
    };
    session.on_record(1, &[1, 2, 3]).unwrap();
    session.on_record(2, &[1, 2, 3]).unwrap();
    file.extend(session.close());

    assert!(matches!(validate_output_file(&file, 2), OutputValidation::Successful));
    assert!(matches!(
        validate_output_file(&file, 3),
        OutputValidation::LengthMismatch { expected: 3, actual: 2 }
    ));
    assert!(matches!(
        validate_output_file(b"EIGENVALS_V4 and more", 2),
        OutputValidation::FormatIncompatible
    ));
    assert!(matches!(
        validate_output_file(&file[..10], 2),
        OutputValidation::ReadFailed { reason: StorageError::UnexpectedEof }
    ));
}

#[test]
fn test_writer_session_gives_up_its_pending_bytes() {
    let (mut session, action) = WriterSession::open(&config(5, 0, true), None).unwrap();
    let mut file = match action {
        OpenAction::Create { header } => header,
        _ => panic!("a new file is created"),
    };
    session.on_record(1, &[1, 2, 3]).unwrap();
    session.on_record(2, &[4, 5, 6]).unwrap();
    assert!(session.on_record(3, &[7]).is_err());

    // the session ends here, and its two records are in the file all the same
    let pending = session.take_pending();
    assert_eq!(pending.len(), 2 * 26);
    assert!(session.take_pending().is_empty());
    file.extend(pending);
    let (data, _, _, _) = read_append_file(&file).unwrap();
    assert_eq!(data, vec![(1, vec![1, 2, 3]), (2, vec![4, 5, 6])]);
}
