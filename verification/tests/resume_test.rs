use johansen_null_eigenspectra::data_storage::error::StorageError;
use johansen_null_eigenspectra::data_storage::progress::{check_append_progress, get_remaining_seeds};
use johansen_null_eigenspectra::data_storage::reader::{parse_append_file, read_append_file};
use johansen_null_eigenspectra::data_storage::writer::{
    footer_bytes, header_bytes, remove_eof_marker, AppendOnlyWriter, OpenAction,
};

/// A stand-in for the computation of a run: a function of the seed alone.
fn compute(seed: u32) -> Vec<f64> {
    let x = seed as f64;
    vec![x * 0.5, 1.0 / x, -x * x]
}

fn bits(values: &[f64]) -> Vec<u64> {
    values.iter().map(|v| v.to_bits()).collect()
}

/// Opens a writer on the file and does to the file what the writer asks for.
fn open(file: &mut Option<Vec<u8>>, model: u8, dim: u8, steps: u32) -> (AppendOnlyWriter, bool) {
    let (writer, action) =
        AppendOnlyWriter::with_expected_size(file.as_deref(), Some(1), model, dim, steps, true)
            .unwrap();
    let readable = match action {
        OpenAction::Create { header } => {
            assert!(file.is_none());
            *file = Some(header);
            true
        }
        OpenAction::Recreate { header } => {
            assert!(file.is_some());
            *file = Some(header);
            true
        }
        OpenAction::Append { keep_len, readable } => {
            file.as_mut().unwrap().truncate(keep_len as usize);
            readable
        }
    };
    (writer, readable)
}

/// Computes the seeds that are missing in the file and writes them to it.
fn run(file: &mut Option<Vec<u8>>, total: usize, finish: bool) {
    let (_, completed) = check_append_progress(file.as_deref(), 0, 3, 50).unwrap();
    let remaining = get_remaining_seeds(total, &completed);
    let (mut writer, _) = open(file, 0, 3, 50);
    for seed in remaining {
        writer.append_eigenvalues(seed, &bits(&compute(seed))).unwrap();
        if writer.flush_due() {
            file.as_mut().unwrap().extend(writer.take_pending());
        }
    }
    if finish {
        file.as_mut().unwrap().extend(writer.finish());
    } else {
        file.as_mut().unwrap().extend(writer.take_pending());
    }
}

fn sorted_records(file: &[u8]) -> Vec<(u32, Vec<u64>)> {
    let (mut data, _, _, _) = read_append_file(file).unwrap();
    data.sort();
    data
}

#[test]
fn test_resume_completes_removed_seeds() {
    let total = 25;
    let mut file: Option<Vec<u8>> = None;
    run(&mut file, total, true);
    let first_run = sorted_records(file.as_deref().unwrap());
    assert_eq!(first_run.len(), total);

    // the file written anew without a scattered subset of its records
    let removed = [2u32, 3, 11, 25];
    let (mut writer, action) =
        AppendOnlyWriter::with_expected_size(None, None, 0, 3, 50, true).unwrap();
    let mut rewritten = match action {
        OpenAction::Create { header } => header,
        _ => panic!("a new file is created"),
    };
    for (seed, values) in &first_run {
        if !removed.contains(seed) {
            writer.append_eigenvalues(*seed, values).unwrap();
        }
    }
    rewritten.extend(writer.finish());
    assert_eq!(sorted_records(&rewritten).len(), total - removed.len());

    let (count, completed) = check_append_progress(Some(&rewritten), 0, 3, 50).unwrap();
    assert_eq!(count, total - removed.len());
    assert_eq!(get_remaining_seeds(total, &completed), removed.to_vec());

    // the same run again completes the file
    let mut file = Some(rewritten);
    run(&mut file, total, true);
    let completed_file = file.unwrap();
    let (in_file_order, _, _, _) = read_append_file(&completed_file).unwrap();
    let last_seeds: Vec<u32> = in_file_order[total - removed.len()..].iter().map(|r| r.0).collect();
    assert_eq!(last_seeds, removed.to_vec());
    assert_eq!(sorted_records(&completed_file), first_run);
    for (seed, values) in sorted_records(&completed_file) {
        assert_eq!(values, bits(&compute(seed)));
    }

    // and a third run finds nothing to do
    let (count, completed) = check_append_progress(Some(&completed_file), 0, 3, 50).unwrap();
    assert_eq!(count, total);
    assert!(get_remaining_seeds(total, &completed).is_empty());
}

#[test]
fn test_unfinished_file_is_read_and_continued() {
    let mut file: Option<Vec<u8>> = None;
    run(&mut file, 4, false);
    let unfinished = file.clone().unwrap();
    // header and four records of one byte of seed, one of count and 24 of values
    assert_eq!(unfinished.len(), 18 + 4 * 26);

    let parsed = parse_append_file(&unfinished).unwrap();
    assert_eq!(parsed.data.len(), 4);
    assert_eq!(parsed.data_end, unfinished.len());

    // a fifth record that was cut short is dropped by the reader ...
    let mut torn = unfinished.clone();
    torn.extend_from_slice(&[5, 3, 1, 2, 3, 4, 5, 6, 7]);
    let parsed = parse_append_file(&torn).unwrap();
    assert_eq!(parsed.data.len(), 4);
    assert_eq!(parsed.data_end, unfinished.len());

    // ... and cut off by the writer, which goes on behind the fourth
    let mut file = Some(torn);
    run(&mut file, 6, true);
    let finished = file.unwrap();
    assert_eq!(finished.len(), 18 + 6 * 26 + 17);
    let (data, _, _, _) = read_append_file(&finished).unwrap();
    let seeds: Vec<u32> = data.iter().map(|r| r.0).collect();
    assert_eq!(seeds, vec![1, 2, 3, 4, 5, 6]);
    for (seed, values) in data {
        assert_eq!(values, bits(&compute(seed)));
    }
}

#[test]
fn test_reopen_strips_footer() {
    let mut file: Option<Vec<u8>> = None;
    run(&mut file, 3, true);
    let finished = file.clone().unwrap();
    assert_eq!(remove_eof_marker(&finished), finished.len() - 17);
    assert_eq!(remove_eof_marker(&finished[..finished.len() - 1]), finished.len() - 1);
    assert_eq!(remove_eof_marker(&finished[..20]), 20);

    let (writer, action) =
        AppendOnlyWriter::with_expected_size(Some(&finished), None, 0, 3, 50, false).unwrap();
    assert_eq!(action_of(&action), ("append", finished.len() as u64 - 17, true));
    assert_eq!(writer.written_count(), 3);
    assert_eq!(writer.eigenvalues_per_run(), Some(3));
    assert!(!writer.quiet());
    assert_eq!(writer.pending_len(), 0);
}

fn action_of(action: &OpenAction) -> (&'static str, u64, bool) {
    match action {
        OpenAction::Create { header } => ("create", header.len() as u64, true),
        OpenAction::Recreate { header } => ("recreate", header.len() as u64, true),
        OpenAction::Append { keep_len, readable } => ("append", *keep_len, *readable),
    }
}

#[test]
fn test_open_new_file() {
    let (writer, action) =
        AppendOnlyWriter::with_expected_size(None, Some(1000), 3, 9, 77, true).unwrap();
    match action {
        OpenAction::Create { header } => {
            assert_eq!(header, header_bytes(3, 9, 77));
            assert_eq!(&header[..12], b"EIGENVALS_V6");
            assert_eq!(&header[12..], &[3, 9, 77, 0, 0, 0]);
        }
        _ => panic!("a new file is created"),
    }
    assert_eq!(writer.written_count(), 0);
    assert_eq!(writer.eigenvalues_per_run(), None);
    assert!(writer.quiet());
    assert!(writer.flush_due());
}

#[test]
fn test_open_file_of_another_format() {
    let mut old = b"EIGENVALS_V5".to_vec();
    old.extend_from_slice(&[0, 3, 50, 0, 0, 0, 1, 2, 3]);
    let mut file = Some(old);
    let (writer, readable) = open(&mut file, 0, 3, 50);
    assert!(readable);
    assert_eq!(writer.written_count(), 0);
    assert_eq!(file.unwrap(), header_bytes(0, 3, 50));

    // the planner starts such a file over
    let mut old = b"EIGENVALS_V5".to_vec();
    old.extend_from_slice(&[0, 3, 50, 0, 0, 0]);
    assert_eq!(check_append_progress(Some(&old), 0, 3, 50), Ok((0, vec![])));
}

#[test]
fn test_open_unreadable_file() {
    // a finished file whose footer promises a record more than it holds
    let mut file: Option<Vec<u8>> = None;
    run(&mut file, 2, true);
    let mut broken = file.unwrap();
    let len = broken.len();
    broken[len - 9] = 3;
    assert_eq!(
        read_append_file(&broken).err(),
        Some(StorageError::EigenvalueCountMismatch { expected: 3, actual: 79 })
    );
    assert_eq!(check_append_progress(Some(&broken), 0, 3, 50), Ok((0, vec![])));

    let mut file = Some(broken);
    let (writer, readable) = open(&mut file, 0, 3, 50);
    assert!(!readable);
    assert_eq!(writer.written_count(), 0);
    assert_eq!(writer.eigenvalues_per_run(), None);
    assert_eq!(file.unwrap().len(), len - 17);
}

#[test]
fn test_mismatch_is_told_by_the_planner() {
    let mut file: Option<Vec<u8>> = None;
    {
        let (mut writer, _) = open(&mut file, 1, 3, 100);
        writer.append_eigenvalues(1, &bits(&[1.0, 2.0, 3.0])).unwrap();
        file.as_mut().unwrap().extend(writer.finish());
    }
    let content = file.as_deref();
    assert_eq!(
        check_append_progress(content, 2, 3, 100),
        Err(StorageError::ModelMismatch { file: 1, expected: 2 })
    );
    assert_eq!(
        check_append_progress(content, 1, 4, 100),
        Err(StorageError::DimensionMismatch { file: 3, expected: 4 })
    );
    assert_eq!(
        check_append_progress(content, 1, 3, 101),
        Err(StorageError::StepsMismatch { file: 100, expected: 101 })
    );
    // the model is looked at first, then the dimension
    assert_eq!(
        check_append_progress(content, 9, 9, 9),
        Err(StorageError::ModelMismatch { file: 1, expected: 9 })
    );
    assert_eq!(
        check_append_progress(content, 1, 9, 9),
        Err(StorageError::DimensionMismatch { file: 3, expected: 9 })
    );
    assert_eq!(check_append_progress(content, 1, 3, 100), Ok((1, vec![1])));
}

#[test]
fn test_writer_buffers_until_flush() {
    let (mut writer, _) = AppendOnlyWriter::with_expected_size(None, None, 0, 1, 1, true).unwrap();
    // nothing written yet counts as a multiple of the interval
    assert!(writer.flush_due());
    writer.append_eigenvalues(128, &[1]).unwrap();
    assert!(!writer.flush_due());
    assert_eq!(writer.pending_len(), 2 + 1 + 8);
    for seed in 2..10_000u32 {
        writer.append_eigenvalues(seed, &[1]).unwrap();
    }
    assert!(!writer.flush_due());
    writer.append_eigenvalues(10_000, &[1]).unwrap();
    assert!(writer.flush_due());
    let pending = writer.take_pending();
    assert_eq!(pending[..11], [0x80, 0x01, 1, 1, 0, 0, 0, 0, 0, 0, 0]);
    assert_eq!(writer.pending_len(), 0);
    assert_eq!(writer.written_count(), 10_000);
    writer.append_eigenvalues(10_001, &[1]).unwrap();
    assert!(!writer.flush_due());
    let rest = writer.finish();
    assert_eq!(rest.len(), 2 + 1 + 8 + 17);
    assert_eq!(rest[11..], footer_bytes(10_001, 1)[..]);
}

#[test]
fn test_record_without_eigenvalues_does_not_read_back() {
    let (mut writer, action) =
        AppendOnlyWriter::with_expected_size(None, None, 0, 1, 1, true).unwrap();
    let mut file = match action {
        OpenAction::Create { header } => header,
        _ => panic!("a new file is created"),
    };
    writer.append_eigenvalues(1, &[]).unwrap();
    assert_eq!(writer.eigenvalues_per_run(), Some(0));
    assert_eq!(
        writer.append_eigenvalues(2, &[5]),
        Err(StorageError::InconsistentEigenvalueCount {
            expected: 0,
            actual: 1,
            model: 0,
            dim: 1,
            steps: 1
        })
    );
    file.extend(writer.finish());
    assert_eq!(read_append_file(&file).err(), Some(StorageError::InvalidEigenvalueCount));
}

#[test]
fn test_record_bytes_by_hand() {
    let (mut writer, _) = AppendOnlyWriter::with_expected_size(None, None, 0, 1, 1, true).unwrap();
    writer.append_eigenvalues(300, &[0x0102030405060708, 1.5f64.to_bits()]).unwrap();
    let mut expected = vec![0xAC, 0x02, 2, 8, 7, 6, 5, 4, 3, 2, 1];
    expected.extend_from_slice(&1.5f64.to_le_bytes());
    assert_eq!(writer.take_pending(), expected);
}
