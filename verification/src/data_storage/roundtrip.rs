//! What is written can be read: the reader finds in the bytes of a record,
//! and of a whole file, the values that they were made from.

use vstd::prelude::*;
use vstd::bytes::*;
use super::error::StorageError;
use super::file_format::{
    lemma_eigenvalue_bytes_len,
    spec_eigenvalue_bytes,
    spec_eof_marker,
    spec_footer_bytes,
    spec_header_bytes,
    spec_magic_header,
    spec_record_bytes,
    spec_records_bytes,
};
use super::reader::{
    lemma_read_counted_end,
    spec_eigenvalues_at,
    spec_footer,
    spec_matches_at,
    spec_parse_file,
    spec_read_counted,
    spec_read_counted_record,
    spec_read_lead,
    spec_scan,
    spec_scan_record,
    ParsedFileView,
};
use super::uleb128::{
    lemma_decode_bounds,
    lemma_decode_encode,
    lemma_decode_prefix,
    lemma_encode_len,
    lemma_encoded_size_ranges,
    spec_decode,
    spec_decode_groups,
    spec_encode,
    spec_encoded_size,
    Uleb128Error,
};

verus! {

/// The length of a record in bytes.
pub open spec fn spec_record_len(seed: u32, eigenvalues: Seq<u64>) -> nat {
    spec_encoded_size(seed as nat) + 1 + 8 * eigenvalues.len()
}

/// Whether a record begins with the eight bytes of the footer marker. A
/// reader that scans takes such a record for the footer.
pub open spec fn spec_marker_like(seed: u32, eigenvalues: Seq<u64>) -> bool {
    spec_matches_at(spec_record_bytes(seed, eigenvalues), 0, spec_eof_marker())
}

/// Whether every record has `count` eigenvalues.
pub open spec fn spec_uniform_counts(records: Seq<(u32, Seq<u64>)>, count: nat) -> bool {
    forall|i: int| 0 <= i < records.len() ==> (#[trigger] records[i]).1.len() == count
}

/// Whether a reader that scans takes every record for a record: each has
/// between one and 255 eigenvalues and none begins like the footer marker.
pub open spec fn spec_scannable(records: Seq<(u32, Seq<u64>)>) -> bool {
    forall|i: int|
        0 <= i < records.len() ==> 1 <= (#[trigger] records[i]).1.len() <= 255 && !spec_marker_like(
            records[i].0,
            records[i].1,
        )
}

/// Whether the bytes of a file under construction are a header and records
/// that a reader finds by count: what `records` holds, then the end of the
/// bytes. `footer_count` is the number of eigenvalues per record that the
/// footer will name.
pub open spec fn spec_reads_back(
    image: Seq<u8>,
    records: Seq<(u32, Seq<u64>)>,
    model: u8,
    dim: u8,
    steps: u32,
    footer_count: u8,
) -> bool {
    &&& image.len() >= 18
    &&& image.subrange(0, 18) == spec_header_bytes(model, dim, steps)
    &&& spec_read_counted(image, records.len(), footer_count) == Ok::<
        (Seq<(u32, Seq<u64>)>, int),
        StorageError,
    >((records, image.len() as int))
}

/// The number of eigenvalues per record that the footer names for `records`:
/// that of the first record, zero where there is none.
pub open spec fn spec_footer_count(records: Seq<(u32, Seq<u64>)>) -> u8 {
    if records.len() == 0 {
        0
    } else {
        records[0].1.len() as u8
    }
}

/// A header is eighteen bytes long and holds its three fields.
pub proof fn lemma_header_bytes(model: u8, dim: u8, steps: u32)
    ensures
        spec_header_bytes(model, dim, steps).len() == 18,
        spec_header_bytes(model, dim, steps).subrange(0, 12) == spec_magic_header(),
        spec_header_bytes(model, dim, steps)[12] == model,
        spec_header_bytes(model, dim, steps)[13] == dim,
        spec_u32_from_le_bytes(spec_header_bytes(model, dim, steps).subrange(14, 18)) == steps,
{
    lemma_auto_spec_u32_to_from_le_bytes();
    let header = spec_header_bytes(model, dim, steps);
    assert(spec_u32_to_le_bytes(steps).len() == 4);
    assert(header.subrange(0, 12) =~= spec_magic_header());
    assert(header.subrange(14, 18) =~= spec_u32_to_le_bytes(steps));
}

/// Eighteen bytes that read as a header are that header.
pub proof fn lemma_header_from_fields(bytes: Seq<u8>)
    requires
        bytes.len() >= 18,
        bytes.subrange(0, 12) == spec_magic_header(),
    ensures
        bytes.subrange(0, 18) == spec_header_bytes(
            bytes[12],
            bytes[13],
            spec_u32_from_le_bytes(bytes.subrange(14, 18)),
        ),
{
    lemma_auto_spec_u32_to_from_le_bytes();
    let steps = spec_u32_from_le_bytes(bytes.subrange(14, 18));
    assert(spec_u32_to_le_bytes(steps) == bytes.subrange(14, 18));
    let header = spec_header_bytes(bytes[12], bytes[13], steps);
    assert(header.len() == 18);
    assert forall|i: int| 0 <= i < 18 implies bytes.subrange(0, 18)[i] == header[i] by {
        if i < 12 {
            assert(bytes.subrange(0, 12)[i] == bytes[i]);
        } else if i >= 14 {
            assert(bytes.subrange(14, 18)[i - 14] == bytes[i]);
        }
    }
    assert(bytes.subrange(0, 18) =~= header);
}

/// A record is as long as its seed, its count and its eigenvalues.
pub proof fn lemma_record_bytes_len(seed: u32, eigenvalues: Seq<u64>)
    ensures
        spec_record_bytes(seed, eigenvalues).len() == spec_record_len(seed, eigenvalues),
        spec_record_len(seed, eigenvalues) >= 2,
{
    lemma_encode_len(seed as nat);
    lemma_eigenvalue_bytes_len(eigenvalues);
    lemma_encoded_size_ranges(seed as nat);
}

proof fn lemma_eigenvalue_bytes_chunk(eigenvalues: Seq<u64>, i: int)
    requires
        0 <= i < eigenvalues.len(),
    ensures
        spec_eigenvalue_bytes(eigenvalues).len() == 8 * eigenvalues.len(),
        spec_eigenvalue_bytes(eigenvalues).subrange(8 * i, 8 * i + 8) == spec_u64_to_le_bytes(
            eigenvalues[i],
        ),
    decreases eigenvalues.len(),
{
    lemma_auto_spec_u64_to_from_le_bytes();
    lemma_eigenvalue_bytes_len(eigenvalues);
    lemma_eigenvalue_bytes_len(eigenvalues.drop_last());
    let front = spec_eigenvalue_bytes(eigenvalues.drop_last());
    let last = spec_u64_to_le_bytes(eigenvalues.last());
    if i == eigenvalues.len() - 1 {
        assert((front + last).subrange(8 * i, 8 * i + 8) =~= last);
    } else {
        lemma_eigenvalue_bytes_chunk(eigenvalues.drop_last(), i);
        assert((front + last).subrange(8 * i, 8 * i + 8) =~= front.subrange(8 * i, 8 * i + 8));
    }
}

/// The eigenvalues are read back from their bytes, wherever these stand.
pub proof fn lemma_eigenvalues_read_back(before: Seq<u8>, eigenvalues: Seq<u64>, after: Seq<u8>)
    ensures
        spec_eigenvalues_at(
            before + spec_eigenvalue_bytes(eigenvalues) + after,
            before.len() as int,
            eigenvalues.len(),
        ) == eigenvalues,
{
    lemma_auto_spec_u64_to_from_le_bytes();
    lemma_eigenvalue_bytes_len(eigenvalues);
    let bytes = before + spec_eigenvalue_bytes(eigenvalues) + after;
    let read = spec_eigenvalues_at(bytes, before.len() as int, eigenvalues.len());
    assert forall|i: int| 0 <= i < eigenvalues.len() implies read[i] == eigenvalues[i] by {
        lemma_eigenvalue_bytes_chunk(eigenvalues, i);
        assert(bytes.subrange(before.len() + 8 * i, before.len() + 8 * i + 8)
            =~= spec_eigenvalue_bytes(eigenvalues).subrange(8 * i, 8 * i + 8));
    }
    assert(read =~= eigenvalues);
}

/// The seed and the count of a record are read back from its bytes.
pub proof fn lemma_lead_read_back(
    before: Seq<u8>,
    seed: u32,
    eigenvalues: Seq<u64>,
    after: Seq<u8>,
)
    requires
        eigenvalues.len() <= 255,
    ensures
        spec_read_lead(before + spec_record_bytes(seed, eigenvalues) + after, before.len() as int)
            == Ok::<(u32, u8, int), StorageError>(
            (
                seed,
                eigenvalues.len() as u8,
                (before.len() + spec_encoded_size(seed as nat) + 1) as int,
            ),
        ),
{
    let bytes = before + spec_record_bytes(seed, eigenvalues) + after;
    let rest = seq![eigenvalues.len() as u8] + spec_eigenvalue_bytes(eigenvalues) + after;
    lemma_encode_len(seed as nat);
    lemma_decode_encode(seed, rest);
    assert(bytes.skip(before.len() as int) =~= spec_encode(seed as nat) + rest);
    assert(bytes[(before.len() + spec_encoded_size(seed as nat)) as int] == eigenvalues.len() as u8);
}

/// A record with the expected number of eigenvalues is read back from its
/// bytes by a reader that counts.
pub proof fn lemma_counted_record_read_back(
    before: Seq<u8>,
    seed: u32,
    eigenvalues: Seq<u64>,
    after: Seq<u8>,
)
    requires
        1 <= eigenvalues.len() <= 255,
    ensures
        spec_read_counted_record(
            before + spec_record_bytes(seed, eigenvalues) + after,
            before.len() as int,
            eigenvalues.len() as u8,
        ) == Ok::<((u32, Seq<u64>), int), StorageError>(
            ((seed, eigenvalues), (before.len() + spec_record_len(seed, eigenvalues)) as int),
        ),
{
    let bytes = before + spec_record_bytes(seed, eigenvalues) + after;
    lemma_lead_read_back(before, seed, eigenvalues, after);
    lemma_record_bytes_len(seed, eigenvalues);
    lemma_encode_len(seed as nat);
    lemma_eigenvalue_bytes_len(eigenvalues);
    let lead = before + spec_encode(seed as nat) + seq![eigenvalues.len() as u8];
    lemma_eigenvalues_read_back(lead, eigenvalues, after);
    assert(bytes =~= lead + spec_eigenvalue_bytes(eigenvalues) + after);
}

/// A record that does not look like the footer marker is read back from its
/// bytes by a reader that scans.
pub proof fn lemma_scanned_record_read_back(
    before: Seq<u8>,
    seed: u32,
    eigenvalues: Seq<u64>,
    after: Seq<u8>,
)
    requires
        1 <= eigenvalues.len() <= 255,
        !spec_marker_like(seed, eigenvalues),
    ensures
        spec_scan_record(
            before + spec_record_bytes(seed, eigenvalues) + after,
            before.len() as int,
        ) == Some(((seed, eigenvalues), (before.len() + spec_record_len(seed, eigenvalues)) as int)),
{
    let record = spec_record_bytes(seed, eigenvalues);
    let bytes = before + record + after;
    lemma_counted_record_read_back(before, seed, eigenvalues, after);
    lemma_record_bytes_len(seed, eigenvalues);
    assert(bytes.subrange(before.len() as int, before.len() as int + 8) =~= record.subrange(0, 8));
}

/// Reading a record by count looks at the bytes of the record and at nothing
/// behind them.
pub proof fn lemma_counted_record_agrees(a: Seq<u8>, b: Seq<u8>, pos: int, expected: u8)
    requires
        0 <= pos <= a.len(),
        spec_read_counted_record(a, pos, expected) is Ok,
        spec_read_counted_record(a, pos, expected)->Ok_0.1 <= b.len(),
        a.subrange(0, spec_read_counted_record(a, pos, expected)->Ok_0.1) == b.subrange(
            0,
            spec_read_counted_record(a, pos, expected)->Ok_0.1,
        ),
    ensures
        spec_read_counted_record(b, pos, expected) == spec_read_counted_record(a, pos, expected),
{
    let next = spec_read_counted_record(a, pos, expected)->Ok_0.1;
    let (seed, used) = spec_decode(a.skip(pos))->Ok_0;
    lemma_decode_bounds(a.skip(pos));
    let count = a[pos + used];
    let start = pos + used + 1;
    assert(next == start + 8 * count);
    assert forall|i: int| 0 <= i < next implies a[i] == b[i] by {
        assert(a.subrange(0, next)[i] == b.subrange(0, next)[i]);
    }
    assert(b.skip(pos).subrange(0, used as int) =~= a.skip(pos).subrange(0, used as int));
    lemma_decode_prefix(a.skip(pos), b.skip(pos));
    assert forall|i: int| 0 <= i < count implies #[trigger] a.subrange(
        start + 8 * i,
        start + 8 * i + 8,
    ) == b.subrange(start + 8 * i, start + 8 * i + 8) by {
        assert(a.subrange(start + 8 * i, start + 8 * i + 8) =~= b.subrange(
            start + 8 * i,
            start + 8 * i + 8,
        ));
    }
    assert(spec_eigenvalues_at(a, start, count as nat) =~= spec_eigenvalues_at(
        b,
        start,
        count as nat,
    ));
}

/// Reading by count looks at the bytes of the records and at nothing behind
/// them.
pub proof fn lemma_read_counted_agrees(a: Seq<u8>, b: Seq<u8>, count: nat, expected: u8)
    requires
        a.len() >= 18,
        spec_read_counted(a, count, expected) is Ok,
        spec_read_counted(a, count, expected)->Ok_0.1 <= b.len(),
        a.subrange(0, spec_read_counted(a, count, expected)->Ok_0.1) == b.subrange(
            0,
            spec_read_counted(a, count, expected)->Ok_0.1,
        ),
    ensures
        spec_read_counted(b, count, expected) == spec_read_counted(a, count, expected),
    decreases count,
{
    if count > 0 {
        let end = spec_read_counted(a, count, expected)->Ok_0.1;
        let (records, pos) = spec_read_counted(a, (count - 1) as nat, expected)->Ok_0;
        lemma_read_counted_end(a, (count - 1) as nat, expected);
        lemma_read_counted_end(a, count, expected);
        lemma_decode_bounds(a.skip(pos));
        assert(pos <= end);
        assert(a.subrange(0, pos) =~= a.subrange(0, end).subrange(0, pos));
        assert(b.subrange(0, pos) =~= b.subrange(0, end).subrange(0, pos));
        lemma_read_counted_agrees(a, b, (count - 1) as nat, expected);
        lemma_counted_record_agrees(a, b, pos, expected);
    }
}

/// One more record behind records that read back by count reads back with
/// them.
pub proof fn lemma_read_counted_append(
    image: Seq<u8>,
    records: Seq<(u32, Seq<u64>)>,
    expected: u8,
    seed: u32,
    eigenvalues: Seq<u64>,
)
    requires
        image.len() >= 18,
        spec_read_counted(image, records.len(), expected) == Ok::<
            (Seq<(u32, Seq<u64>)>, int),
            StorageError,
        >((records, image.len() as int)),
        1 <= eigenvalues.len() <= 255,
        records.len() > 0 ==> expected == eigenvalues.len(),
    ensures
        spec_read_counted(
            image + spec_record_bytes(seed, eigenvalues),
            records.len() + 1,
            eigenvalues.len() as u8,
        ) == Ok::<(Seq<(u32, Seq<u64>)>, int), StorageError>(
            (
                records.push((seed, eigenvalues)),
                (image.len() + spec_record_len(seed, eigenvalues)) as int,
            ),
        ),
{
    let count = eigenvalues.len() as u8;
    let longer = image + spec_record_bytes(seed, eigenvalues);
    lemma_counted_record_read_back(image, seed, eigenvalues, Seq::empty());
    assert(image + spec_record_bytes(seed, eigenvalues) + Seq::<u8>::empty() =~= longer);
    if records.len() > 0 {
        assert(image.subrange(0, image.len() as int) =~= longer.subrange(0, image.len() as int));
        lemma_read_counted_agrees(image, longer, records.len(), count);
    } else {
        assert(records =~= Seq::empty());
    }
    assert(spec_read_counted(longer, records.len(), count) == Ok::<
        (Seq<(u32, Seq<u64>)>, int),
        StorageError,
    >((records, image.len() as int)));
    assert((records.len() + 1 - 1) as nat == records.len());
}

/// A footer behind a file is found and read back.
pub proof fn lemma_footer_read_back(image: Seq<u8>, total_count: u64, eigenvalues_per_run: u8)
    requires
        image.len() >= 18,
    ensures
        spec_footer(image + spec_footer_bytes(total_count, eigenvalues_per_run)) == Some(
            (total_count, eigenvalues_per_run),
        ),
        spec_footer_bytes(total_count, eigenvalues_per_run).len() == 17,
{
    lemma_auto_spec_u64_to_from_le_bytes();
    let footer = spec_footer_bytes(total_count, eigenvalues_per_run);
    let file = image + footer;
    assert(footer.len() == 17);
    assert(file.subrange(file.len() - 17, file.len() - 9) =~= spec_eof_marker());
    assert(file.subrange(file.len() - 9, file.len() - 1) =~= spec_u64_to_le_bytes(total_count));
}

/// A file whose records read back by count reads back once its footer is
/// written.
pub proof fn lemma_finished_file_reads_back(
    image: Seq<u8>,
    records: Seq<(u32, Seq<u64>)>,
    model: u8,
    dim: u8,
    steps: u32,
    eigenvalues_per_run: u8,
)
    requires
        image.len() >= 18,
        image.subrange(0, 18) == spec_header_bytes(model, dim, steps),
        records.len() <= u64::MAX,
        spec_read_counted(image, records.len(), eigenvalues_per_run) == Ok::<
            (Seq<(u32, Seq<u64>)>, int),
            StorageError,
        >((records, image.len() as int)),
    ensures
        spec_parse_file(image + spec_footer_bytes(records.len() as u64, eigenvalues_per_run))
            == Ok::<ParsedFileView, StorageError>(
            ParsedFileView { records, model, dim, steps, data_end: image.len() as int },
        ),
{
    let footer = spec_footer_bytes(records.len() as u64, eigenvalues_per_run);
    let file = image + footer;
    lemma_footer_read_back(image, records.len() as u64, eigenvalues_per_run);
    lemma_header_bytes(model, dim, steps);
    let header = spec_header_bytes(model, dim, steps);
    assert forall|i: int| 0 <= i < 18 implies file[i] == header[i] by {
        assert(image.subrange(0, 18)[i] == header[i]);
    }
    assert(file.subrange(0, 12) =~= header.subrange(0, 12));
    assert(file.subrange(14, 18) =~= header.subrange(14, 18));
    assert(image.subrange(0, image.len() as int) =~= file.subrange(0, image.len() as int));
    lemma_read_counted_agrees(image, file, records.len(), eigenvalues_per_run);
}

/// Records written behind a header read back by count.
pub proof fn lemma_records_read_back(
    model: u8,
    dim: u8,
    steps: u32,
    records: Seq<(u32, Seq<u64>)>,
    eigenvalues_per_run: u8,
)
    requires
        spec_uniform_counts(records, eigenvalues_per_run as nat),
        records.len() > 0 ==> eigenvalues_per_run >= 1,
    ensures
        spec_read_counted(
            spec_header_bytes(model, dim, steps) + spec_records_bytes(records),
            records.len(),
            eigenvalues_per_run,
        ) == Ok::<(Seq<(u32, Seq<u64>)>, int), StorageError>(
            (records, (18 + spec_records_bytes(records).len()) as int),
        ),
    decreases records.len(),
{
    let header = spec_header_bytes(model, dim, steps);
    lemma_header_bytes(model, dim, steps);
    if records.len() == 0 {
        assert(records =~= Seq::empty());
    } else {
        let front = records.drop_last();
        let (seed, eigenvalues) = records.last();
        assert(eigenvalues.len() == eigenvalues_per_run);
        assert forall|i: int| 0 <= i < front.len() implies (#[trigger] front[i]).1.len()
            == eigenvalues_per_run by {
            assert(front[i] == records[i]);
        }
        lemma_records_read_back(model, dim, steps, front, eigenvalues_per_run);
        lemma_read_counted_append(
            header + spec_records_bytes(front),
            front,
            eigenvalues_per_run,
            seed,
            eigenvalues,
        );
        lemma_record_bytes_len(seed, eigenvalues);
        assert(header + spec_records_bytes(front) + spec_record_bytes(seed, eigenvalues) =~= header
            + spec_records_bytes(records));
        assert(front.push((seed, eigenvalues)) =~= records);
    }
}

/// A file made of a header, of records that all have the same number of
/// eigenvalues, at least one and at most 255, and of the footer for them
/// reads back as those records, in their order, with the parameters of the
/// header.
pub proof fn lemma_written_file_reads_back(
    model: u8,
    dim: u8,
    steps: u32,
    records: Seq<(u32, Seq<u64>)>,
    eigenvalues_per_run: u8,
)
    requires
        spec_uniform_counts(records, eigenvalues_per_run as nat),
        records.len() > 0 ==> eigenvalues_per_run >= 1,
        records.len() <= u64::MAX,
    ensures
        spec_parse_file(
            spec_header_bytes(model, dim, steps) + spec_records_bytes(records) + spec_footer_bytes(
                records.len() as u64,
                eigenvalues_per_run,
            ),
        ) == Ok::<ParsedFileView, StorageError>(
            ParsedFileView {
                records,
                model,
                dim,
                steps,
                data_end: (18 + spec_records_bytes(records).len()) as int,
            },
        ),
{
    let image = spec_header_bytes(model, dim, steps) + spec_records_bytes(records);
    lemma_header_bytes(model, dim, steps);
    lemma_records_read_back(model, dim, steps, records, eigenvalues_per_run);
    assert(image.subrange(0, 18) =~= spec_header_bytes(model, dim, steps));
    lemma_finished_file_reads_back(image, records, model, dim, steps, eigenvalues_per_run);
}

/// The bytes of records are the bytes of the first and the bytes of the
/// others.
pub proof fn lemma_records_bytes_first(records: Seq<(u32, Seq<u64>)>)
    requires
        records.len() > 0,
    ensures
        spec_records_bytes(records) == spec_record_bytes(records[0].0, records[0].1)
            + spec_records_bytes(records.skip(1)),
    decreases records.len(),
{
    let first = spec_record_bytes(records[0].0, records[0].1);
    let last = spec_record_bytes(records.last().0, records.last().1);
    if records.len() == 1 {
        assert(records.drop_last() =~= Seq::empty());
        assert(records.skip(1) =~= Seq::empty());
        assert(spec_records_bytes(records.drop_last()) =~= Seq::empty());
        assert(spec_records_bytes(records) =~= first);
        assert(first + spec_records_bytes(records.skip(1)) =~= first);
    } else {
        lemma_records_bytes_first(records.drop_last());
        assert(records.drop_last().skip(1) =~= records.skip(1).drop_last());
        assert(records.skip(1).last() == records.last());
        assert(spec_records_bytes(records) =~= first + (spec_records_bytes(
            records.skip(1).drop_last(),
        ) + last));
    }
}

/// Records that a scanning reader takes for records are read back by it, up
/// to the place where something else than a complete record follows.
pub proof fn lemma_scan_reads_back(before: Seq<u8>, records: Seq<(u32, Seq<u64>)>, after: Seq<u8>)
    requires
        spec_scannable(records),
        spec_scan_record(
            before + spec_records_bytes(records) + after,
            (before.len() + spec_records_bytes(records).len()) as int,
        ) is None,
    ensures
        spec_scan(before + spec_records_bytes(records) + after, before.len() as int) == (
            records,
            (before.len() + spec_records_bytes(records).len()) as int,
        ),
    decreases records.len(),
{
    let bytes = before + spec_records_bytes(records) + after;
    if records.len() == 0 {
        assert(records =~= Seq::empty());
    } else {
        let (seed, eigenvalues) = records[0];
        let others = records.skip(1);
        let first = spec_record_bytes(seed, eigenvalues);
        lemma_records_bytes_first(records);
        lemma_record_bytes_len(seed, eigenvalues);
        assert(bytes =~= before + first + (spec_records_bytes(others) + after));
        lemma_scanned_record_read_back(
            before,
            seed,
            eigenvalues,
            spec_records_bytes(others) + after,
        );
        assert(bytes =~= before + first + spec_records_bytes(others) + after);
        assert forall|i: int| 0 <= i < others.len() implies 1 <= (#[trigger] others[i]).1.len()
            <= 255 && !spec_marker_like(others[i].0, others[i].1) by {
            assert(others[i] == records[i + 1]);
        }
        lemma_scan_reads_back(before + first, others, after);
        assert(seq![(seed, eigenvalues)] + others =~= records);
    }
}

proof fn lemma_cut_encoding_fails(value: nat, cut: int, depth: nat)
    requires
        0 <= cut < spec_encoded_size(value),
    ensures
        spec_decode_groups(spec_encode(value).subrange(0, cut), depth) is Err,
    decreases value,
{
    lemma_encode_len(value);
    let whole = spec_encode(value);
    let kept = whole.subrange(0, cut);
    if cut > 0 {
        assert(value >= 128);
        lemma_encode_len(value / 128);
        assert(kept[0] == whole[0]);
        assert(kept.skip(1) =~= spec_encode(value / 128).subrange(0, cut - 1));
        lemma_cut_encoding_fails(value / 128, cut - 1, depth + 1);
    }
}

/// A record that was cut short is no record to a reader that scans.
pub proof fn lemma_cut_record_is_dropped(
    before: Seq<u8>,
    seed: u32,
    eigenvalues: Seq<u64>,
    cut: int,
)
    requires
        eigenvalues.len() <= 255,
        0 <= cut < spec_record_len(seed, eigenvalues),
    ensures
        spec_scan_record(
            before + spec_record_bytes(seed, eigenvalues).subrange(0, cut),
            before.len() as int,
        ) is None,
{
    let record = spec_record_bytes(seed, eigenvalues);
    let kept = record.subrange(0, cut);
    let bytes = before + kept;
    let size = spec_encoded_size(seed as nat) as int;
    lemma_record_bytes_len(seed, eigenvalues);
    lemma_encode_len(seed as nat);
    lemma_eigenvalue_bytes_len(eigenvalues);
    assert(bytes.skip(before.len() as int) =~= kept);
    if cut < size {
        assert(kept =~= spec_encode(seed as nat).subrange(0, cut));
        lemma_cut_encoding_fails(seed as nat, cut, 0);
    } else {
        let rest = record.subrange(size, cut);
        assert(kept =~= spec_encode(seed as nat) + rest);
        lemma_decode_encode(seed, rest);
        if cut > size {
            assert(bytes[before.len() + size] == eigenvalues.len() as u8);
        }
    }
}

/// A file that was never finished, and so has no footer, reads back as its
/// complete records, and a last record that was cut short is left out. This
/// holds of files of at least 35 bytes whose records a scanning reader takes
/// for records.
pub proof fn lemma_unfinished_file_reads_back(
    model: u8,
    dim: u8,
    steps: u32,
    records: Seq<(u32, Seq<u64>)>,
    seed: u32,
    eigenvalues: Seq<u64>,
    cut: int,
)
    requires
        spec_scannable(records),
        eigenvalues.len() <= 255,
        0 <= cut < spec_record_len(seed, eigenvalues),
        18 + spec_records_bytes(records).len() + cut >= 35,
        spec_footer(
            spec_header_bytes(model, dim, steps) + spec_records_bytes(records) + spec_record_bytes(
                seed,
                eigenvalues,
            ).subrange(0, cut),
        ) is None,
    ensures
        spec_parse_file(
            spec_header_bytes(model, dim, steps) + spec_records_bytes(records) + spec_record_bytes(
                seed,
                eigenvalues,
            ).subrange(0, cut),
        ) == Ok::<ParsedFileView, StorageError>(
            ParsedFileView {
                records,
                model,
                dim,
                steps,
                data_end: (18 + spec_records_bytes(records).len()) as int,
            },
        ),
{
    let header = spec_header_bytes(model, dim, steps);
    let kept = spec_record_bytes(seed, eigenvalues).subrange(0, cut);
    let file = header + spec_records_bytes(records) + kept;
    lemma_header_bytes(model, dim, steps);
    lemma_record_bytes_len(seed, eigenvalues);
    assert(file.subrange(0, 12) =~= header.subrange(0, 12));
    assert(file.subrange(14, 18) =~= header.subrange(14, 18));
    lemma_cut_record_is_dropped(header + spec_records_bytes(records), seed, eigenvalues, cut);
    lemma_scan_reads_back(header, records, kept);
}

/// What a scanning reader finds reads back by count as well, where every
/// record has the same number of eigenvalues.
pub proof fn lemma_scan_reads_by_count(bytes: Seq<u8>, eigenvalues_per_run: u8, count: nat)
    requires
        bytes.len() >= 18,
        count <= spec_scan(bytes, 18).0.len(),
        spec_uniform_counts(spec_scan(bytes, 18).0, eigenvalues_per_run as nat),
    ensures
        spec_read_counted(bytes, count, eigenvalues_per_run) is Ok,
        spec_read_counted(bytes, count, eigenvalues_per_run)->Ok_0.0 == spec_scan(
            bytes,
            18,
        ).0.take(count as int),
        18 <= spec_read_counted(bytes, count, eigenvalues_per_run)->Ok_0.1 <= bytes.len(),
        spec_scan(bytes, spec_read_counted(bytes, count, eigenvalues_per_run)->Ok_0.1) == (
            spec_scan(bytes, 18).0.skip(count as int),
            spec_scan(bytes, 18).1,
        ),
    decreases count,
{
    let all = spec_scan(bytes, 18).0;
    if count == 0 {
        assert(all.take(0) =~= Seq::empty());
        assert(all.skip(0) =~= all);
    } else {
        lemma_scan_reads_by_count(bytes, eigenvalues_per_run, (count - 1) as nat);
        let (taken, pos) = spec_read_counted(bytes, (count - 1) as nat, eigenvalues_per_run)->Ok_0;
        let left = all.skip(count - 1);
        assert(left.len() > 0);
        assert(spec_scan(bytes, pos).0 == left);
        let (record, next) = spec_scan_record(bytes, pos)->Some_0;
        let rest = spec_scan(bytes, next).0;
        assert(left == seq![record] + rest);
        assert(left[0] == record);
        assert(record == all[count - 1]);
        assert(rest =~= left.skip(1));
        assert(left.skip(1) =~= all.skip(count as int));
        assert(taken.push(record) =~= all.take(count as int));
    }
}

/// A file without a footer that ends with its last record reads back as its
/// records: what a writer leaves behind that was never finished. This holds
/// of files of at least 35 bytes whose records a scanning reader takes for
/// records.
pub proof fn lemma_unfinished_work_reads_back(
    model: u8,
    dim: u8,
    steps: u32,
    records: Seq<(u32, Seq<u64>)>,
)
    requires
        spec_scannable(records),
        18 + spec_records_bytes(records).len() >= 35,
        spec_footer(spec_header_bytes(model, dim, steps) + spec_records_bytes(records)) is None,
    ensures
        spec_parse_file(spec_header_bytes(model, dim, steps) + spec_records_bytes(records))
            == Ok::<ParsedFileView, StorageError>(
            ParsedFileView {
                records,
                model,
                dim,
                steps,
                data_end: (18 + spec_records_bytes(records).len()) as int,
            },
        ),
{
    let header = spec_header_bytes(model, dim, steps);
    let file = header + spec_records_bytes(records);
    lemma_header_bytes(model, dim, steps);
    assert(file.subrange(0, 12) =~= header.subrange(0, 12));
    assert(file.subrange(14, 18) =~= header.subrange(14, 18));
    assert(file + Seq::<u8>::empty() =~= file);
    assert(file.skip(file.len() as int) =~= Seq::<u8>::empty());
    lemma_scan_reads_back(header, records, Seq::empty());
}

/// The length in bytes of records that stand one after the other.
pub open spec fn spec_records_len(records: Seq<(u32, Seq<u64>)>) -> nat
    decreases records.len(),
{
    if records.len() == 0 {
        0
    } else {
        spec_records_len(records.drop_last()) + spec_record_len(
            records.last().0,
            records.last().1,
        )
    }
}

/// The bytes of records are as many as the records are long.
pub proof fn lemma_records_bytes_len(records: Seq<(u32, Seq<u64>)>)
    ensures
        spec_records_bytes(records).len() == spec_records_len(records),
    decreases records.len(),
{
    if records.len() > 0 {
        lemma_records_bytes_len(records.drop_last());
        lemma_record_bytes_len(records.last().0, records.last().1);
    }
}

/// The expected file size is the size of the header and the records of the
/// file that holds the seeds from 1 on in their order, each with the same
/// number of eigenvalues. A footer adds its seventeen bytes.
pub proof fn lemma_expected_file_size(
    model: u8,
    dim: u8,
    steps: u32,
    records: Seq<(u32, Seq<u64>)>,
    eigenvalues_per_run: u8,
)
    requires
        records.len() <= u32::MAX,
        forall|i: int| 0 <= i < records.len() ==> (#[trigger] records[i]).0 == i + 1,
        spec_uniform_counts(records, eigenvalues_per_run as nat),
    ensures
        (spec_header_bytes(model, dim, steps) + spec_records_bytes(records)).len()
            == super::file_format::spec_expected_file_size(
            records.len(),
            eigenvalues_per_run as nat,
        ),
        (spec_header_bytes(model, dim, steps) + spec_records_bytes(records) + spec_footer_bytes(
            records.len() as u64,
            eigenvalues_per_run,
        )).len() == super::file_format::spec_expected_file_size(
            records.len(),
            eigenvalues_per_run as nat,
        ) + 17,
{
    lemma_header_bytes(model, dim, steps);
    lemma_footer_read_back(spec_header_bytes(model, dim, steps), 0, eigenvalues_per_run);
    lemma_auto_spec_u64_to_from_le_bytes();
    lemma_records_bytes_len(records);
    lemma_ascending_records_len(records, eigenvalues_per_run as nat);
    assert(8 * (eigenvalues_per_run as nat) * records.len() == records.len() * (8 * (
    eigenvalues_per_run as nat))) by (nonlinear_arith);
}

proof fn lemma_ascending_records_len(records: Seq<(u32, Seq<u64>)>, count: nat)
    requires
        records.len() <= u32::MAX,
        forall|i: int| 0 <= i < records.len() ==> (#[trigger] records[i]).0 == i + 1,
        spec_uniform_counts(records, count),
    ensures
        spec_records_len(records) == super::file_format::spec_total_uleb128_size(records.len())
            + records.len() + records.len() * (8 * count),
    decreases records.len(),
{
    if records.len() > 0 {
        let front = records.drop_last();
        assert forall|i: int| 0 <= i < front.len() implies (#[trigger] front[i]).0 == i + 1
            && front[i].1.len() == count by {
            assert(front[i] == records[i]);
        }
        lemma_ascending_records_len(front, count);
        assert(records.last() == records[records.len() - 1]);
        assert(records.len() * (8 * count) == front.len() * (8 * count) + 8 * count)
            by (nonlinear_arith)
            requires
                records.len() == front.len() + 1,
        ;
    }
}

/// A file that was read, cut behind its last record, reads back by count
/// where all its records have the same number of eigenvalues.
pub proof fn lemma_reopened_reads_back(bytes: Seq<u8>)
    requires
        spec_parse_file(bytes) is Ok,
        spec_uniform_counts(
            spec_parse_file(bytes)->Ok_0.records,
            spec_footer_count(spec_parse_file(bytes)->Ok_0.records) as nat,
        ),
    ensures
        18 <= spec_parse_file(bytes)->Ok_0.data_end <= bytes.len(),
        spec_reads_back(
            bytes.subrange(0, spec_parse_file(bytes)->Ok_0.data_end),
            spec_parse_file(bytes)->Ok_0.records,
            spec_parse_file(bytes)->Ok_0.model,
            spec_parse_file(bytes)->Ok_0.dim,
            spec_parse_file(bytes)->Ok_0.steps,
            spec_footer_count(spec_parse_file(bytes)->Ok_0.records),
        ),
{
    let parsed = spec_parse_file(bytes)->Ok_0;
    let records = parsed.records;
    let count = spec_footer_count(records);
    let kept = bytes.subrange(0, parsed.data_end);
    super::reader::lemma_parsed_counts(bytes);
    lemma_header_from_fields(bytes);
    assert(kept.subrange(0, 18) =~= bytes.subrange(0, 18));
    if bytes.len() >= 35 {
        match spec_footer(bytes) {
            Some((total, per_run)) => {
                lemma_read_counted_end(bytes, total as nat, per_run);
                super::reader::lemma_read_counted_counts(bytes, total as nat, per_run);
                if total > 0 {
                    assert(records[0].1.len() == per_run);
                }
                assert(spec_read_counted(bytes, records.len(), count) == spec_read_counted(
                    bytes,
                    total as nat,
                    per_run,
                ));
            },
            None => {
                lemma_scan_reads_by_count(bytes, count, records.len());
                assert(records.take(records.len() as int) =~= records);
                assert(records.skip(records.len() as int) =~= Seq::empty());
            },
        }
        assert(bytes.subrange(0, parsed.data_end) =~= kept.subrange(0, parsed.data_end));
        lemma_read_counted_agrees(bytes, kept, records.len(), count);
    }
}

} // verus!
