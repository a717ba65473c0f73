//! The byte layout of an eigenvalue file and the sizes derived from it.
//!
//! ```text
//! header  magic[12] | model[1] | dimension[1] | steps[4, little-endian]
//! record  seed[ULEB128] | count[1] | eigenvalues[count * 8, little-endian]
//! footer  marker[8] | total[8, little-endian] | count[1]
//! ```
//!
//! The footer is written once, when a file is finished.

use vstd::prelude::*;
use vstd::bytes::*;
use super::config::{MAX_READ_BUFFER_SIZE, MIN_READ_BUFFER_SIZE};
use super::uleb128::{spec_encode, spec_encoded_size, lemma_encoded_size_ranges};

verus! {

/// `EIGENVALS_V6`, the first twelve bytes of every file.
pub const MAGIC_HEADER: [u8; 12] = [0x45, 0x49, 0x47, 0x45, 0x4E, 0x56, 0x41, 0x4C, 0x53, 0x5F, 0x56, 0x36];

/// `EOF_MARK`, the first eight bytes of the footer.
pub const EOF_MARKER: [u8; 8] = [0x45, 0x4F, 0x46, 0x5F, 0x4D, 0x41, 0x52, 0x4B];

/// Length of the header in bytes.
pub const HEADER_SIZE: usize = 18;

/// Length of the footer in bytes.
pub const FOOTER_SIZE: usize = 17;

/// The magic header as a sequence of bytes.
pub open spec fn spec_magic_header() -> Seq<u8> {
    seq![0x45u8, 0x49u8, 0x47u8, 0x45u8, 0x4Eu8, 0x56u8, 0x41u8, 0x4Cu8, 0x53u8, 0x5Fu8, 0x56u8, 0x36u8]
}

/// The footer marker as a sequence of bytes.
pub open spec fn spec_eof_marker() -> Seq<u8> {
    seq![0x45u8, 0x4Fu8, 0x46u8, 0x5Fu8, 0x4Du8, 0x41u8, 0x52u8, 0x4Bu8]
}

/// The bytes of a header: magic, model, dimension, steps.
pub open spec fn spec_header_bytes(model: u8, dim: u8, steps: u32) -> Seq<u8> {
    spec_magic_header() + seq![model, dim] + spec_u32_to_le_bytes(steps)
}

/// The eigenvalues of one record, eight bytes each, in order.
pub open spec fn spec_eigenvalue_bytes(eigenvalues: Seq<u64>) -> Seq<u8>
    decreases eigenvalues.len(),
{
    if eigenvalues.len() == 0 {
        Seq::empty()
    } else {
        spec_eigenvalue_bytes(eigenvalues.drop_last()) + spec_u64_to_le_bytes(eigenvalues.last())
    }
}

/// The bytes of one record: seed, count, eigenvalues.
pub open spec fn spec_record_bytes(seed: u32, eigenvalues: Seq<u64>) -> Seq<u8> {
    spec_encode(seed as nat) + seq![eigenvalues.len() as u8] + spec_eigenvalue_bytes(eigenvalues)
}

/// The bytes of a run of records, one after the other.
pub open spec fn spec_records_bytes(records: Seq<(u32, Seq<u64>)>) -> Seq<u8>
    decreases records.len(),
{
    if records.len() == 0 {
        Seq::empty()
    } else {
        spec_records_bytes(records.drop_last()) + spec_record_bytes(
            records.last().0,
            records.last().1,
        )
    }
}

/// The bytes of a footer: marker, number of records, eigenvalues per record.
pub open spec fn spec_footer_bytes(total_count: u64, eigenvalues_per_run: u8) -> Seq<u8> {
    spec_eof_marker() + spec_u64_to_le_bytes(total_count) + seq![eigenvalues_per_run]
}

/// Sum of the encoded sizes of the seeds `1..=max_value`.
pub open spec fn spec_total_uleb128_size(max_value: nat) -> nat
    decreases max_value,
{
    if max_value == 0 {
        0
    } else {
        spec_encoded_size(max_value) + spec_total_uleb128_size((max_value - 1) as nat)
    }
}

/// Size of a file that holds the seeds `1..=num_runs`, each with
/// `eigenvalues_per_run` eigenvalues: the header and the records, each record
/// with its seed, its count and its eigenvalues.
pub open spec fn spec_expected_file_size(num_runs: nat, eigenvalues_per_run: nat) -> nat {
    18 + spec_total_uleb128_size(num_runs) + num_runs + 8 * eigenvalues_per_run * num_runs
}

/// The read buffer for a file of `file_size` bytes.
pub open spec fn spec_read_buffer_size(file_size: nat) -> nat {
    if file_size < 1_048_576 {
        65_536
    } else if file_size < 104_857_600 {
        if file_size / 8 < 65_536 {
            65_536
        } else if file_size / 8 > 4_194_304 {
            4_194_304
        } else {
            file_size / 8
        }
    } else {
        16_777_216
    }
}

/// The sum of the encoded sizes, range by range.
pub proof fn lemma_total_uleb128_size(max_value: nat)
    requires
        max_value <= u32::MAX,
    ensures
        max_value <= 127 ==> spec_total_uleb128_size(max_value) == max_value,
        127 < max_value <= 16_383 ==> spec_total_uleb128_size(max_value) == 127 + 2 * (max_value
            - 127),
        16_383 < max_value <= 2_097_151 ==> spec_total_uleb128_size(max_value) == 32_639 + 3 * (
        max_value - 16_383),
        2_097_151 < max_value <= 268_435_455 ==> spec_total_uleb128_size(max_value) == 6_274_943
            + 4 * (max_value - 2_097_151),
        268_435_455 < max_value ==> spec_total_uleb128_size(max_value) == 1_071_628_159 + 5 * (
        max_value - 268_435_455),
    decreases max_value,
{
    if max_value > 0 {
        lemma_total_uleb128_size((max_value - 1) as nat);
        lemma_encoded_size_ranges(max_value);
    }
}

/// Each eigenvalue takes eight bytes.
pub proof fn lemma_eigenvalue_bytes_len(eigenvalues: Seq<u64>)
    ensures
        spec_eigenvalue_bytes(eigenvalues).len() == 8 * eigenvalues.len(),
    decreases eigenvalues.len(),
{
    lemma_auto_spec_u64_to_from_le_bytes();
    if eigenvalues.len() > 0 {
        lemma_eigenvalue_bytes_len(eigenvalues.drop_last());
    }
}

/// Total encoded size of the seeds `1..=max_value`.
pub fn calculate_total_uleb128_size(max_value: u32) -> (total: u64)
    ensures
        total == spec_total_uleb128_size(max_value as nat),
{
    proof {
        lemma_total_uleb128_size(max_value as nat);
    }
    let mut total_bytes: u64 = 0;
    let mut remaining: u32 = max_value;
    // one byte: 1..=127
    let ones: u32 = if remaining < 127 { remaining } else { 127 };
    total_bytes = total_bytes + ones as u64;
    remaining = remaining - ones;
    // two bytes: 128..=16383
    let twos: u32 = if remaining < 16_256 { remaining } else { 16_256 };
    total_bytes = total_bytes + twos as u64 * 2;
    remaining = remaining - twos;
    // three bytes: 16384..=2097151
    let threes: u32 = if remaining < 2_080_768 { remaining } else { 2_080_768 };
    total_bytes = total_bytes + threes as u64 * 3;
    remaining = remaining - threes;
    // four bytes: 2097152..=268435455
    let fours: u32 = if remaining < 266_338_304 { remaining } else { 266_338_304 };
    total_bytes = total_bytes + fours as u64 * 4;
    remaining = remaining - fours;
    // five bytes: 268435456..=4294967295
    total_bytes = total_bytes + remaining as u64 * 5;
    total_bytes
}

/// The size a file will have once the seeds `1..=num_runs` are written: the
/// header and the records, so that the space can be asked for in advance.
///
/// The seeds are ULEB128-encoded, so the size of a record depends on its seed.
pub fn calculate_expected_file_size(num_runs: usize, eigenvalues_per_run: usize) -> (size: u64)
    requires
        num_runs <= u32::MAX,
        spec_expected_file_size(num_runs as nat, eigenvalues_per_run as nat) <= u64::MAX,
    ensures
        size == spec_expected_file_size(num_runs as nat, eigenvalues_per_run as nat),
{
    let header: u64 = 18;
    let total_seed_bytes: u64 = calculate_total_uleb128_size(num_runs as u32);
    let eigenvalue_counts_bytes: u64 = num_runs as u64;
    let bytes_per_eigenvalue: u64 = 8 * (num_runs as u64);
    assert(eigenvalues_per_run * (8 * num_runs) == 8 * eigenvalues_per_run * num_runs)
        by (nonlinear_arith);
    let eigenvalues_total_bytes: u64 = eigenvalues_per_run as u64 * bytes_per_eigenvalue;
    header + total_seed_bytes + eigenvalue_counts_bytes + eigenvalues_total_bytes
}

/// The size that `calculate_expected_file_size` returns, where the seeds fit
/// in 32 bits and the size in 64; `None` where they do not.
pub fn checked_expected_file_size(num_runs: usize, eigenvalues_per_run: usize) -> (size: Option<
    u64,
>)
    ensures
        size == if num_runs <= u32::MAX && spec_expected_file_size(
            num_runs as nat,
            eigenvalues_per_run as nat,
        ) <= u64::MAX {
            Some(spec_expected_file_size(num_runs as nat, eigenvalues_per_run as nat) as u64)
        } else {
            None
        },
{
    if num_runs > 0xFFFF_FFFF {
        return None;
    }
    let records: u128 = num_runs as u128;
    let per_record: u128 = eigenvalues_per_run as u128;
    assert(per_record * (8 * records) <= 0xFFFF_FFFF_FFFF_FFFF * 0x8_0000_0000 && per_record * (8
        * records) == 8 * eigenvalues_per_run * num_runs) by (nonlinear_arith)
        requires
            per_record <= 0xFFFF_FFFF_FFFF_FFFF,
            records <= 0xFFFF_FFFF,
            per_record == eigenvalues_per_run,
            records == num_runs,
    ;
    let eigenvalue_bytes: u128 = per_record * (8 * records);
    let seed_bytes: u128 = calculate_total_uleb128_size(num_runs as u32) as u128;
    let total: u128 = 18 + seed_bytes + records + eigenvalue_bytes;
    if total > 0xFFFF_FFFF_FFFF_FFFF {
        None
    } else {
        Some(total as u64)
    }
}

/// The buffer size to read a file of `file_size` bytes with: 64 KiB under
/// 1 MiB, an eighth of the file between 64 KiB and 4 MiB under 100 MiB, and
/// 16 MiB from there on.
pub fn calculate_read_buffer_size(file_size: u64) -> (size: usize)
    ensures
        size == spec_read_buffer_size(file_size as nat),
        MIN_READ_BUFFER_SIZE <= size <= MAX_READ_BUFFER_SIZE,
{
    if file_size < 1_048_576 {
        MIN_READ_BUFFER_SIZE
    } else if file_size < 104_857_600 {
        let buffer_size: usize = (file_size / 8) as usize;
        if buffer_size < MIN_READ_BUFFER_SIZE {
            MIN_READ_BUFFER_SIZE
        } else if buffer_size > 4_194_304 {
            4_194_304
        } else {
            buffer_size
        }
    } else {
        MAX_READ_BUFFER_SIZE
    }
}

} // verus!
