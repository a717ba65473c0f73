use johansen_null_eigenspectra::data_storage::config::{
    BATCH_SIZE, FLUSH_INTERVAL, MAX_READ_BUFFER_SIZE, MIN_READ_BUFFER_SIZE,
    PROGRESS_REPORT_INTERVAL, WRITE_BUFFER_CAPACITY,
};
use johansen_null_eigenspectra::data_storage::file_format::{
    calculate_expected_file_size, calculate_read_buffer_size, calculate_total_uleb128_size,
    checked_expected_file_size, FOOTER_SIZE, HEADER_SIZE,
};
use johansen_null_eigenspectra::data_storage::uleb128::encoded_size;
use johansen_null_eigenspectra::data_storage::writer::{AppendOnlyWriter, OpenAction};

#[test]
fn test_config_values() {
    assert_eq!(BATCH_SIZE, 10_000);
    assert_eq!(PROGRESS_REPORT_INTERVAL, 10_000);
    assert_eq!(FLUSH_INTERVAL, 10_000);
    assert_eq!(WRITE_BUFFER_CAPACITY, 2 * 1024 * 1024);
    assert_eq!(MIN_READ_BUFFER_SIZE, 64 * 1024);
    assert_eq!(MAX_READ_BUFFER_SIZE, 16 * 1024 * 1024);
    assert_eq!(HEADER_SIZE, 18);
    assert_eq!(FOOTER_SIZE, 17);
}

#[test]
fn test_total_uleb128_size() {
    assert_eq!(calculate_total_uleb128_size(0), 0);
    assert_eq!(calculate_total_uleb128_size(1), 1);
    assert_eq!(calculate_total_uleb128_size(127), 127);
    assert_eq!(calculate_total_uleb128_size(128), 129);
    assert_eq!(calculate_total_uleb128_size(16383), 127 + 2 * 16256);
    assert_eq!(calculate_total_uleb128_size(16384), 127 + 2 * 16256 + 3);
    assert_eq!(calculate_total_uleb128_size(2_097_152), 127 + 2 * 16256 + 3 * 2_080_768 + 4);
    assert_eq!(
        calculate_total_uleb128_size(u32::MAX),
        127 + 2 * 16256 + 3 * 2_080_768 + 4 * 266_338_304 + 5 * (4_294_967_295 - 268_435_455)
    );
    // the sum, seed by seed
    let by_hand: u64 = (1..=20_000u32).map(|seed| encoded_size(seed) as u64).sum();
    assert_eq!(calculate_total_uleb128_size(20_000), by_hand);
}

#[test]
fn test_expected_file_size() {
    assert_eq!(calculate_expected_file_size(0, 5), 18);
    assert_eq!(calculate_expected_file_size(1, 1), 18 + (1 + 1 + 8));
    assert_eq!(calculate_expected_file_size(200, 3), 18 + (127 + 2 * 73) + 200 + 24 * 200);
    assert_eq!(checked_expected_file_size(0, usize::MAX), Some(18));
    assert_eq!(checked_expected_file_size(200, 3), Some(5291));
    assert_eq!(checked_expected_file_size(usize::MAX, 3), None);
    assert_eq!(checked_expected_file_size(u32::MAX as usize, usize::MAX), None);
}

#[test]
fn test_expected_file_size_is_the_size_of_the_file() {
    let (mut writer, action) =
        AppendOnlyWriter::with_expected_size(None, None, 1, 2, 30, true).unwrap();
    let mut file = match action {
        OpenAction::Create { header } => header,
        _ => panic!("a new file is created"),
    };
    for seed in 1..=300u32 {
        writer.append_eigenvalues(seed, &[seed as u64, 7]).unwrap();
    }
    // header and records make the expected size ...
    file.extend(writer.take_pending());
    assert_eq!(file.len() as u64, calculate_expected_file_size(300, 2));
    // ... and the footer comes on top
    file.extend(writer.finish());
    assert_eq!(file.len() as u64, calculate_expected_file_size(300, 2) + FOOTER_SIZE as u64);
}

#[test]
fn test_read_buffer_size() {
    let kib = 1024u64;
    let mib = 1024 * kib;
    assert_eq!(calculate_read_buffer_size(0), 64 * 1024);
    assert_eq!(calculate_read_buffer_size(mib - 1), 64 * 1024);
    assert_eq!(calculate_read_buffer_size(mib), 128 * 1024);
    assert_eq!(calculate_read_buffer_size(8 * mib), 1024 * 1024);
    assert_eq!(calculate_read_buffer_size(32 * mib), 4 * 1024 * 1024);
    assert_eq!(calculate_read_buffer_size(100 * mib - 1), 4 * 1024 * 1024);
    assert_eq!(calculate_read_buffer_size(100 * mib), 16 * 1024 * 1024);
    assert_eq!(calculate_read_buffer_size(u64::MAX), 16 * 1024 * 1024);
}
