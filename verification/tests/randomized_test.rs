use rand::Rng;
use rand::SeedableRng;
use rand_xoshiro::Xoshiro256PlusPlus;

use johansen_null_eigenspectra::data_storage::file_format::calculate_expected_file_size;
use johansen_null_eigenspectra::data_storage::progress::{check_append_progress, get_remaining_seeds};
use johansen_null_eigenspectra::data_storage::reader::{parse_append_file, read_append_file};
use johansen_null_eigenspectra::data_storage::uleb128::{decode, encode, encoded_size};
use johansen_null_eigenspectra::data_storage::writer::{AppendOnlyWriter, OpenAction};

type Record = (u32, Vec<u64>);

fn random_records(rng: &mut Xoshiro256PlusPlus, count: usize, per_run: usize) -> Vec<Record> {
    (0..count)
        .map(|_| {
            let seed: u32 = match rng.random_range(0..4) {
                0 => rng.random_range(0..200),
                1 => rng.random_range(0..40_000),
                2 => rng.random_range(0..300_000_000),
                _ => rng.random(),
            };
            let values = (0..per_run).map(|_| rng.random::<f64>().to_bits()).collect();
            (seed, values)
        })
        .collect()
}

/// Opens a writer on the file and does to the file what the writer asks for.
fn open(file: &mut Option<Vec<u8>>, model: u8, dim: u8, steps: u32) -> AppendOnlyWriter {
    let (writer, action) =
        AppendOnlyWriter::with_expected_size(file.as_deref(), None, model, dim, steps, true)
            .unwrap();
    match action {
        OpenAction::Create { header } | OpenAction::Recreate { header } => *file = Some(header),
        OpenAction::Append { keep_len, readable } => {
            assert!(readable);
            file.as_mut().unwrap().truncate(keep_len as usize)
        }
    }
    writer
}

fn write(
    rng: &mut Xoshiro256PlusPlus,
    file: &mut Option<Vec<u8>>,
    writer: &mut AppendOnlyWriter,
    records: &[Record],
) {
    for (seed, values) in records {
        writer.append_eigenvalues(*seed, values).unwrap();
        if rng.random_range(0..3) == 0 {
            file.as_mut().unwrap().extend(writer.take_pending());
        }
    }
}

#[test]
fn test_random_values_survive_the_codec() {
    let mut rng = Xoshiro256PlusPlus::seed_from_u64(1);
    for _ in 0..20_000 {
        let shift = rng.random_range(0..32);
        let value: u32 = rng.random::<u32>() >> shift;
        let encoded = encode(value);
        assert_eq!(encoded.len(), encoded_size(value));
        assert_eq!(decode(&encoded), Ok((value, encoded.len())));
        assert!(encoded[..encoded.len() - 1].iter().all(|byte| *byte >= 128));
        assert!(encoded[encoded.len() - 1] < 128);
    }
}

#[test]
fn test_random_bytes_decode_as_they_say() {
    let mut rng = Xoshiro256PlusPlus::seed_from_u64(2);
    for _ in 0..20_000 {
        let len = rng.random_range(0..8);
        let bytes: Vec<u8> = (0..len)
            .map(|_| if rng.random_range(0..3) == 0 { rng.random_range(0..128) } else { rng.random() })
            .collect();
        if let Ok((value, used)) = decode(&bytes) {
            assert!(1 <= used && used <= 5 && used <= bytes.len());
            assert!(bytes[used - 1] < 128);
            let by_hand: u64 = bytes[..used]
                .iter()
                .enumerate()
                .map(|(i, byte)| ((byte & 0x7F) as u64) << (7 * i))
                .sum();
            assert_eq!(value as u64, by_hand);
        }
    }
}

#[test]
fn test_random_files_read_back() {
    let mut rng = Xoshiro256PlusPlus::seed_from_u64(3);
    for _ in 0..300 {
        let (model, dim, steps): (u8, u8, u32) = (rng.random(), rng.random(), rng.random());
        let per_run = rng.random_range(1..6);
        let count = rng.random_range(0..40);
        let records = random_records(&mut rng, count, per_run);

        let mut file: Option<Vec<u8>> = None;
        let mut writer = open(&mut file, model, dim, steps);
        write(&mut rng, &mut file, &mut writer, &records);
        file.as_mut().unwrap().extend(writer.finish());

        let (data, m, d, s) = read_append_file(file.as_deref().unwrap()).unwrap();
        assert_eq!((m, d, s), (model, dim, steps));
        assert_eq!(data, records);
    }
}

#[test]
fn test_random_files_are_continued() {
    let mut rng = Xoshiro256PlusPlus::seed_from_u64(4);
    for round in 0..300 {
        let per_run = rng.random_range(1..6);
        let first_count = rng.random_range(0..20);
        let first = random_records(&mut rng, first_count, per_run);
        let second_count = rng.random_range(0..20);
        let second = random_records(&mut rng, second_count, per_run);

        let mut file: Option<Vec<u8>> = None;
        let mut writer = open(&mut file, 1, 2, 3);
        write(&mut rng, &mut file, &mut writer, &first);
        let mut kept = first.len();
        match round % 3 {
            // the file is finished
            0 => file.as_mut().unwrap().extend(writer.finish()),
            // the writer is lost with the file complete so far
            1 => file.as_mut().unwrap().extend(writer.take_pending()),
            // the writer is lost in the middle of a record
            _ => {
                let mut pending = writer.take_pending();
                let torn = random_records(&mut rng, 1, per_run).remove(0);
                let mut lost = open(&mut None, 1, 2, 3);
                lost.append_eigenvalues(torn.0, &torn.1).unwrap();
                let bytes = lost.take_pending();
                pending.extend_from_slice(&bytes[..rng.random_range(0..bytes.len())]);
                file.as_mut().unwrap().extend(pending);
            }
        }
        // a file under 35 bytes counts as a file without records
        if file.as_ref().unwrap().len() < 35 {
            kept = 0;
        }
        let parsed = parse_append_file(file.as_deref().unwrap()).unwrap();
        assert_eq!(parsed.data, first[..kept].to_vec());

        let mut writer = open(&mut file, 1, 2, 3);
        assert_eq!(writer.written_count(), kept);
        write(&mut rng, &mut file, &mut writer, &second);
        file.as_mut().unwrap().extend(writer.finish());

        let (data, _, _, _) = read_append_file(file.as_deref().unwrap()).unwrap();
        let mut expected = first[..kept].to_vec();
        expected.extend(second);
        assert_eq!(data, expected);
    }
}

#[test]
fn test_random_runs_are_completed() {
    let mut rng = Xoshiro256PlusPlus::seed_from_u64(5);
    for _ in 0..100 {
        let total: usize = rng.random_range(1..400);
        let done: Vec<u32> = (1..=total as u32 + 20).filter(|_| rng.random_range(0..3) == 0).collect();
        let remaining = get_remaining_seeds(total, &done);
        let mut all: Vec<u32> = done.iter().copied().filter(|seed| *seed <= total as u32).collect();
        all.extend(&remaining);
        all.sort();
        assert_eq!(all, (1..=total as u32).collect::<Vec<u32>>());

        // written in the order of the seeds, header and records have the expected size
        let mut file: Option<Vec<u8>> = None;
        let mut writer = open(&mut file, 0, 0, 0);
        for seed in 1..=total as u32 {
            writer.append_eigenvalues(seed, &[0, 0, 0]).unwrap();
        }
        file.as_mut().unwrap().extend(writer.take_pending());
        assert_eq!(file.as_ref().unwrap().len() as u64, calculate_expected_file_size(total, 3));
        file.as_mut().unwrap().extend(writer.finish());
        let file = file.unwrap();
        let (count, seeds) = check_append_progress(Some(&file), 0, 0, 0).unwrap();
        assert_eq!(count, total);
        assert!(get_remaining_seeds(total, &seeds).is_empty());
    }
}
