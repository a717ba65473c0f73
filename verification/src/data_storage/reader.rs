//! Reading an eigenvalue file from its bytes.
//!
//! A finished file ends in a footer that says how many records it holds; they
//! are then read by count and each one is checked. A file without a footer was
//! left by a writer that never finished: its records are read one by one until
//! something other than a complete record is found, and what follows is left
//! alone.

use vstd::prelude::*;
use vstd::bytes::*;
use vstd::slice::*;
use vstd::array::*;
use super::error::StorageError;
use super::file_format::{
    spec_eof_marker,
    spec_magic_header,
    EOF_MARKER,
    FOOTER_SIZE,
    HEADER_SIZE,
    MAGIC_HEADER,
};
use super::uleb128::{decode, lemma_decode_bounds, spec_decode, Uleb128Error};

verus! {

/// What a file holds.
pub struct ParsedFile {
    /// The records in file order, as seed and eigenvalue bit patterns.
    pub data: Vec<(u32, Vec<u64>)>,
    /// The model number of the header.
    pub model: u8,
    /// The dimension of the header.
    pub dim: u8,
    /// The number of steps of the header.
    pub steps: u32,
    /// Where the last record ends: the length of the file without its footer
    /// and without anything that is not a complete record.
    pub data_end: usize,
}

/// The mathematical content of a `ParsedFile`.
pub struct ParsedFileView {
    pub records: Seq<(u32, Seq<u64>)>,
    pub model: u8,
    pub dim: u8,
    pub steps: u32,
    pub data_end: int,
}

impl View for ParsedFile {
    type V = ParsedFileView;

    open spec fn view(&self) -> ParsedFileView {
        ParsedFileView {
            records: records_view(self.data@),
            model: self.model,
            dim: self.dim,
            steps: self.steps,
            data_end: self.data_end as int,
        }
    }
}

/// The content of a file that may not be there.
pub open spec fn spec_file_content(existing: Option<&[u8]>) -> Option<Seq<u8>> {
    match existing {
        Some(bytes) => Some(bytes@),
        None => None,
    }
}

/// Records as sequences of plain values.
pub open spec fn records_view(data: Seq<(u32, Vec<u64>)>) -> Seq<(u32, Seq<u64>)> {
    Seq::new(data.len(), |i: int| (data[i].0, data[i].1@))
}

/// The seeds of `records`, in order.
pub open spec fn spec_seeds(records: Seq<(u32, Seq<u64>)>) -> Seq<u32> {
    Seq::new(records.len(), |i: int| records[i].0)
}

/// Whether `pattern` stands in `bytes` at `pos`.
pub open spec fn spec_matches_at(bytes: Seq<u8>, pos: int, pattern: Seq<u8>) -> bool {
    &&& 0 <= pos
    &&& pos + pattern.len() <= bytes.len()
    &&& bytes.subrange(pos, pos + pattern.len()) == pattern
}

/// The seed and the count of the record at `pos`, and where its eigenvalues
/// start.
pub open spec fn spec_read_lead(bytes: Seq<u8>, pos: int) -> Result<(u32, u8, int), StorageError> {
    match spec_decode(bytes.skip(pos)) {
        Err(e) => Err(StorageError::InvalidSeed(e)),
        Ok((seed, used)) => if pos + used >= bytes.len() {
            Err(StorageError::UnexpectedEof)
        } else {
            Ok((seed as u32, bytes[pos + used], pos + used + 1))
        },
    }
}

/// The `count` eigenvalues that start at `start`.
pub open spec fn spec_eigenvalues_at(bytes: Seq<u8>, start: int, count: nat) -> Seq<u64> {
    Seq::new(count, |i: int| spec_u64_from_le_bytes(bytes.subrange(start + 8 * i, start + 8 * i + 8)))
}

/// The record at `pos` of a finished file whose footer promises `expected`
/// eigenvalues per record, and where the next record starts.
pub open spec fn spec_read_counted_record(bytes: Seq<u8>, pos: int, expected: u8) -> Result<
    ((u32, Seq<u64>), int),
    StorageError,
> {
    match spec_read_lead(bytes, pos) {
        Err(e) => Err(e),
        Ok((seed, count, start)) => if count == 0 {
            Err(StorageError::InvalidEigenvalueCount)
        } else if count != expected {
            Err(
                StorageError::EigenvalueCountMismatch {
                    expected: expected as usize,
                    actual: count as usize,
                },
            )
        } else if start + 8 * count > bytes.len() {
            Err(StorageError::UnexpectedEof)
        } else {
            Ok(((seed, spec_eigenvalues_at(bytes, start, count as nat)), start + 8 * count))
        },
    }
}

/// The first `count` records of a finished file, and where they end.
pub open spec fn spec_read_counted(bytes: Seq<u8>, count: nat, expected: u8) -> Result<
    (Seq<(u32, Seq<u64>)>, int),
    StorageError,
>
    decreases count,
{
    if count == 0 {
        Ok((Seq::empty(), 18))
    } else {
        match spec_read_counted(bytes, (count - 1) as nat, expected) {
            Err(e) => Err(e),
            Ok((records, pos)) => match spec_read_counted_record(bytes, pos, expected) {
                Err(e) => Err(e),
                Ok((record, next)) => Ok((records.push(record), next)),
            },
        }
    }
}

/// The complete record at `pos` of an unfinished file and where the next one
/// starts; `None` where the footer marker stands at `pos`, or anything but a
/// complete record with at least one eigenvalue.
pub open spec fn spec_scan_record(bytes: Seq<u8>, pos: int) -> Option<((u32, Seq<u64>), int)> {
    if spec_matches_at(bytes, pos, spec_eof_marker()) {
        None
    } else {
        match spec_read_lead(bytes, pos) {
            Err(_) => None,
            Ok((seed, count, start)) => if count == 0 || start + 8 * count > bytes.len() {
                None
            } else {
                Some(((seed, spec_eigenvalues_at(bytes, start, count as nat)), start + 8 * count))
            },
        }
    }
}

/// The complete records from `pos` on, and where the last of them ends.
pub open spec fn spec_scan(bytes: Seq<u8>, pos: int) -> (Seq<(u32, Seq<u64>)>, int)
    decreases bytes.len() - pos,
{
    match spec_scan_record(bytes, pos) {
        Some((record, next)) => if pos < next <= bytes.len() {
            let (rest, end) = spec_scan(bytes, next);
            (seq![record] + rest, end)
        } else {
            (Seq::empty(), pos)
        },
        None => (Seq::empty(), pos),
    }
}

/// The footer of a file, where it has one: the number of records and the
/// number of eigenvalues per record.
pub open spec fn spec_footer(bytes: Seq<u8>) -> Option<(u64, u8)> {
    if bytes.len() >= 35 && spec_matches_at(bytes, bytes.len() - 17, spec_eof_marker()) {
        Some(
            (
                spec_u64_from_le_bytes(bytes.subrange(bytes.len() - 9, bytes.len() - 1)),
                bytes[bytes.len() - 1],
            ),
        )
    } else {
        None
    }
}

/// What reading finds in a file of these bytes.
pub open spec fn spec_parse_file(bytes: Seq<u8>) -> Result<ParsedFileView, StorageError> {
    if bytes.len() < 12 {
        Err(StorageError::UnexpectedEof)
    } else if bytes.subrange(0, 12) != spec_magic_header() {
        Err(StorageError::FormatMismatch)
    } else if bytes.len() < 18 {
        Err(StorageError::UnexpectedEof)
    } else {
        let model = bytes[12];
        let dim = bytes[13];
        let steps = spec_u32_from_le_bytes(bytes.subrange(14, 18));
        if bytes.len() < 35 {
            Ok(ParsedFileView { records: Seq::empty(), model, dim, steps, data_end: 18 })
        } else {
            match spec_footer(bytes) {
                Some((total, per_run)) => match spec_read_counted(bytes, total as nat, per_run) {
                    Err(e) => Err(e),
                    Ok((records, end)) => Ok(
                        ParsedFileView { records, model, dim, steps, data_end: end },
                    ),
                },
                None => Ok(
                    ParsedFileView {
                        records: spec_scan(bytes, 18).0,
                        model,
                        dim,
                        steps,
                        data_end: spec_scan(bytes, 18).1,
                    },
                ),
            }
        }
    }
}

/// What `read_append_file` returns for a file of these bytes.
pub open spec fn spec_read_append_file(bytes: Seq<u8>) -> Result<
    (Seq<(u32, Seq<u64>)>, u8, u8, u32),
    StorageError,
> {
    match spec_parse_file(bytes) {
        Ok(parsed) => Ok((parsed.records, parsed.model, parsed.dim, parsed.steps)),
        Err(e) => Err(e),
    }
}

/// Once reading by count has failed, asking for more records fails alike.
pub proof fn lemma_read_counted_error(bytes: Seq<u8>, count: nat, more: nat, expected: u8)
    requires
        spec_read_counted(bytes, count, expected) is Err,
        count <= more,
    ensures
        spec_read_counted(bytes, more, expected) == spec_read_counted(bytes, count, expected),
    decreases more,
{
    if count < more {
        lemma_read_counted_error(bytes, count, (more - 1) as nat, expected);
    }
}

/// Reading by count ends inside the file, and each record takes at least
/// ten bytes.
pub proof fn lemma_read_counted_end(bytes: Seq<u8>, count: nat, expected: u8)
    requires
        bytes.len() >= 18,
    ensures
        match spec_read_counted(bytes, count, expected) {
            Ok((records, end)) => records.len() == count && 18 + 10 * count <= end <= bytes.len(),
            Err(_) => true,
        },
    decreases count,
{
    if count > 0 {
        lemma_read_counted_end(bytes, (count - 1) as nat, expected);
        match spec_read_counted(bytes, (count - 1) as nat, expected) {
            Ok((records, pos)) => {
                lemma_decode_bounds(bytes.skip(pos));
            },
            Err(_) => {},
        }
    }
}

/// Scanning ends inside the file.
pub proof fn lemma_scan_end(bytes: Seq<u8>, pos: int)
    requires
        0 <= pos <= bytes.len(),
    ensures
        pos <= spec_scan(bytes, pos).1 <= bytes.len(),
    decreases bytes.len() - pos,
{
    match spec_scan_record(bytes, pos) {
        Some((record, next)) => {
            if pos < next <= bytes.len() {
                lemma_scan_end(bytes, next);
            }
        },
        None => {},
    }
}

/// Whatever reading finds ends between the header and the end of the file,
/// and every record has between one and 255 eigenvalues.
pub proof fn lemma_parsed_counts(bytes: Seq<u8>)
    ensures
        match spec_parse_file(bytes) {
            Ok(parsed) => 18 <= parsed.data_end <= bytes.len() && forall|i: int|
                0 <= i < parsed.records.len() ==> 1 <= (#[trigger] parsed.records[i]).1.len()
                    <= 255,
            Err(_) => true,
        },
{
    if bytes.len() >= 35 && bytes.subrange(0, 12) == spec_magic_header() {
        match spec_footer(bytes) {
            Some((total, per_run)) => {
                lemma_read_counted_end(bytes, total as nat, per_run);
                lemma_read_counted_counts(bytes, total as nat, per_run);
            },
            None => {
                lemma_scan_end(bytes, 18);
                lemma_scan_counts(bytes, 18);
            },
        }
    }
}

/// A file holds fewer records than bytes, so that they can be counted.
pub proof fn lemma_parsed_end(bytes: Seq<u8>)
    ensures
        match spec_parse_file(bytes) {
            Ok(parsed) => 18 + 3 * parsed.records.len() <= parsed.data_end <= bytes.len(),
            Err(_) => true,
        },
{
    if bytes.len() >= 35 && bytes.subrange(0, 12) == spec_magic_header() {
        match spec_footer(bytes) {
            Some((total, per_run)) => {
                lemma_read_counted_end(bytes, total as nat, per_run);
            },
            None => {
                lemma_scan_len(bytes, 18);
            },
        }
    }
}

/// Every record that scanning finds takes at least three bytes.
pub proof fn lemma_scan_len(bytes: Seq<u8>, pos: int)
    requires
        0 <= pos <= bytes.len(),
    ensures
        pos + 3 * spec_scan(bytes, pos).0.len() <= spec_scan(bytes, pos).1 <= bytes.len(),
    decreases bytes.len() - pos,
{
    match spec_scan_record(bytes, pos) {
        Some((record, next)) => {
            if pos < next <= bytes.len() {
                lemma_decode_bounds(bytes.skip(pos));
                lemma_scan_len(bytes, next);
            }
        },
        None => {},
    }
}

/// Every record read by count has the number of eigenvalues asked for.
pub proof fn lemma_read_counted_counts(bytes: Seq<u8>, count: nat, expected: u8)
    ensures
        match spec_read_counted(bytes, count, expected) {
            Ok((records, end)) => forall|i: int|
                0 <= i < records.len() ==> (#[trigger] records[i]).1.len() == expected && expected
                    >= 1,
            Err(_) => true,
        },
    decreases count,
{
    if count > 0 {
        lemma_read_counted_counts(bytes, (count - 1) as nat, expected);
    }
}

/// Every record found by scanning has between one and 255 eigenvalues.
pub proof fn lemma_scan_counts(bytes: Seq<u8>, pos: int)
    ensures
        forall|i: int|
            0 <= i < spec_scan(bytes, pos).0.len() ==> 1 <= (#[trigger] spec_scan(
                bytes,
                pos,
            ).0[i]).1.len() <= 255,
    decreases bytes.len() - pos,
{
    match spec_scan_record(bytes, pos) {
        Some((record, next)) => {
            if pos < next <= bytes.len() {
                lemma_scan_counts(bytes, next);
                let rest = spec_scan(bytes, next).0;
                let all = spec_scan(bytes, pos).0;
                assert(all == seq![record] + rest);
                assert forall|i: int| 0 <= i < all.len() implies 1 <= (#[trigger] all[i]).1.len()
                    <= 255 by {
                    if i > 0 {
                        assert(all[i] == rest[i - 1]);
                    }
                }
            }
        },
        None => {},
    }
}

/// Whether `pattern` stands in `bytes` at `pos`.
pub fn matches_at(bytes: &[u8], pos: usize, pattern: &[u8]) -> (found: bool)
    ensures
        found == spec_matches_at(bytes@, pos as int, pattern@),
{
    if pos > bytes.len() || bytes.len() - pos < pattern.len() {
        return false;
    }
    let mut i: usize = 0;
    while i < pattern.len()
        invariant
            i <= pattern.len(),
            pos + pattern.len() <= bytes.len(),
            forall|j: int| 0 <= j < i ==> bytes@[pos + j] == pattern@[j],
        decreases pattern.len() - i,
    {
        if bytes[pos + i] != pattern[i] {
            assert(bytes@.subrange(pos as int, pos + pattern.len())[i as int] != pattern@[i as int]);
            return false;
        }
        i = i + 1;
    }
    assert(bytes@.subrange(pos as int, pos + pattern.len()) =~= pattern@);
    true
}

/// Reads the seed and the count of the record at `pos`.
fn read_lead(bytes: &[u8], pos: usize) -> (result: Result<(u32, u8, usize), StorageError>)
    requires
        pos <= bytes.len(),
    ensures
        match result {
            Ok((seed, count, start)) => spec_read_lead(bytes@, pos as int) == Ok::<
                (u32, u8, int),
                StorageError,
            >((seed, count, start as int)) && pos + 2 <= start <= bytes.len(),
            Err(e) => spec_read_lead(bytes@, pos as int) == Err::<(u32, u8, int), StorageError>(e),
        },
{
    let rest = slice_subrange(bytes, pos, bytes.len());
    assert(rest@ =~= bytes@.skip(pos as int));
    proof {
        lemma_decode_bounds(rest@);
    }
    match decode(rest) {
        Err(e) => Err(StorageError::InvalidSeed(e)),
        Ok((seed, used)) => {
            if used >= bytes.len() - pos {
                Err(StorageError::UnexpectedEof)
            } else {
                Ok((seed, bytes[pos + used], pos + used + 1))
            }
        },
    }
}

/// Reads the `count` eigenvalues that start at `start`.
fn read_eigenvalues(bytes: &[u8], start: usize, count: u8) -> (eigenvalues: Vec<u64>)
    requires
        start + 8 * count <= bytes.len(),
    ensures
        eigenvalues@ == spec_eigenvalues_at(bytes@, start as int, count as nat),
{
    let mut eigenvalues: Vec<u64> = Vec::new();
    let mut i: usize = 0;
    while i < count as usize
        invariant
            i <= count,
            start + 8 * count <= bytes.len(),
            eigenvalues@ == spec_eigenvalues_at(bytes@, start as int, i as nat),
        decreases count - i,
    {
        let at: usize = start + 8 * i;
        let value: u64 = u64_from_le_bytes(slice_subrange(bytes, at, at + 8));
        eigenvalues.push(value);
        i = i + 1;
        assert(eigenvalues@ =~= spec_eigenvalues_at(bytes@, start as int, i as nat));
    }
    eigenvalues
}

/// Looks for a footer at the end of the file and reads it: the number of
/// records and the number of eigenvalues per record.
pub fn read_file_metadata(bytes: &[u8]) -> (metadata: Option<(u64, u8)>)
    ensures
        metadata == spec_footer(bytes@),
{
    let len: usize = bytes.len();
    if len < HEADER_SIZE + FOOTER_SIZE {
        return None;
    }
    proof {
        assert(EOF_MARKER@ =~= spec_eof_marker());
    }
    if !matches_at(bytes, len - FOOTER_SIZE, array_as_slice(&EOF_MARKER)) {
        return None;
    }
    let total_count: u64 = u64_from_le_bytes(slice_subrange(bytes, len - 9, len - 1));
    Some((total_count, bytes[len - 1]))
}

/// Reads the `total_count` records that the footer of a finished file
/// promises, each with `eigenvalues_per_run` eigenvalues.
///
/// A record that declares no eigenvalues, or another number than the footer,
/// is an error, and so is a file that ends before the last record does.
fn read_with_metadata(bytes: &[u8], total_count: u64, eigenvalues_per_run: u8) -> (result:
    Result<(Vec<(u32, Vec<u64>)>, usize), StorageError>)
    requires
        bytes.len() >= 18,
    ensures
        match result {
            Ok((data, end)) => spec_read_counted(bytes@, total_count as nat, eigenvalues_per_run)
                == Ok::<(Seq<(u32, Seq<u64>)>, int), StorageError>(
                (records_view(data@), end as int),
            ),
            Err(e) => spec_read_counted(bytes@, total_count as nat, eigenvalues_per_run) == Err::<
                (Seq<(u32, Seq<u64>)>, int),
                StorageError,
            >(e),
        },
{
    let mut data: Vec<(u32, Vec<u64>)> = Vec::new();
    let mut pos: usize = HEADER_SIZE;
    let mut done: u64 = 0;
    assert(records_view(data@) =~= Seq::empty());
    while done < total_count
        invariant
            done <= total_count,
            18 <= pos <= bytes.len(),
            spec_read_counted(bytes@, done as nat, eigenvalues_per_run) == Ok::<
                (Seq<(u32, Seq<u64>)>, int),
                StorageError,
            >((records_view(data@), pos as int)),
        decreases total_count - done,
    {
        let ghost before = records_view(data@);
        match read_lead(bytes, pos) {
            Err(e) => {
                proof {
                    lemma_read_counted_error(
                        bytes@,
                        (done + 1) as nat,
                        total_count as nat,
                        eigenvalues_per_run,
                    );
                }
                return Err(e);
            },
            Ok((seed, count, start)) => {
                if count == 0 {
                    proof {
                        lemma_read_counted_error(
                            bytes@,
                            (done + 1) as nat,
                            total_count as nat,
                            eigenvalues_per_run,
                        );
                    }
                    return Err(StorageError::InvalidEigenvalueCount);
                }
                if count != eigenvalues_per_run {
                    proof {
                        lemma_read_counted_error(
                            bytes@,
                            (done + 1) as nat,
                            total_count as nat,
                            eigenvalues_per_run,
                        );
                    }
                    return Err(
                        StorageError::EigenvalueCountMismatch {
                            expected: eigenvalues_per_run as usize,
                            actual: count as usize,
                        },
                    );
                }
                if bytes.len() - start < 8 * (count as usize) {
                    proof {
                        lemma_read_counted_error(
                            bytes@,
                            (done + 1) as nat,
                            total_count as nat,
                            eigenvalues_per_run,
                        );
                    }
                    return Err(StorageError::UnexpectedEof);
                }
                let eigenvalues = read_eigenvalues(bytes, start, count);
                data.push((seed, eigenvalues));
                pos = start + 8 * (count as usize);
                done = done + 1;
                assert(records_view(data@) =~= before.push((seed, eigenvalues@)));
            },
        }
    }
    Ok((data, pos))
}

/// Reads the complete records of an unfinished file, up to the first place
/// where no complete record stands: the end of the file, a record that was
/// cut short, a record without eigenvalues, or the footer marker.
fn scan_read_data(bytes: &[u8]) -> (result: (Vec<(u32, Vec<u64>)>, usize))
    requires
        bytes.len() >= 18,
    ensures
        (records_view(result.0@), result.1 as int) == spec_scan(bytes@, 18),
        18 <= result.1 <= bytes.len(),
{
    let mut data: Vec<(u32, Vec<u64>)> = Vec::new();
    let mut pos: usize = HEADER_SIZE;
    proof {
        assert(EOF_MARKER@ =~= spec_eof_marker());
        assert(records_view(data@) + spec_scan(bytes@, 18).0 =~= spec_scan(bytes@, 18).0);
    }
    loop
        invariant
            18 <= pos <= bytes.len(),
            EOF_MARKER@ == spec_eof_marker(),
            spec_scan(bytes@, 18).0 == records_view(data@) + spec_scan(bytes@, pos as int).0,
            spec_scan(bytes@, 18).1 == spec_scan(bytes@, pos as int).1,
        ensures
            18 <= pos <= bytes.len(),
            spec_scan(bytes@, 18) == (records_view(data@), pos as int),
        decreases bytes.len() - pos,
    {
        let ghost before = records_view(data@);
        if matches_at(bytes, pos, array_as_slice(&EOF_MARKER)) {
            assert(before + Seq::<(u32, Seq<u64>)>::empty() =~= before);
            break ;
        }
        match read_lead(bytes, pos) {
            Err(_) => {
                assert(before + Seq::<(u32, Seq<u64>)>::empty() =~= before);
                break ;
            },
            Ok((seed, count, start)) => {
                if count == 0 || bytes.len() - start < 8 * (count as usize) {
                    assert(before + Seq::<(u32, Seq<u64>)>::empty() =~= before);
                    break ;
                }
                let eigenvalues = read_eigenvalues(bytes, start, count);
                let ghost rest = spec_scan(bytes@, start + 8 * count).0;
                data.push((seed, eigenvalues));
                pos = start + 8 * (count as usize);
                assert(records_view(data@) =~= before.push((seed, eigenvalues@)));
                assert(before + (seq![(seed, eigenvalues@)] + rest) =~= before.push(
                    (seed, eigenvalues@),
                ) + rest);
            },
        }
    }
    (data, pos)
}

/// Reads a file from its bytes: the header, then the records by the footer's
/// count where the file has a footer, and by scanning where it has none.
///
/// A file that does not start with the magic header is refused with
/// `FormatMismatch`. A file too short to hold a footer is read as a file
/// without records.
pub fn parse_append_file(bytes: &[u8]) -> (result: Result<ParsedFile, StorageError>)
    ensures
        match result {
            Ok(parsed) => spec_parse_file(bytes@) == Ok::<ParsedFileView, StorageError>(parsed@)
                && 18 <= parsed.data_end <= bytes.len(),
            Err(e) => spec_parse_file(bytes@) == Err::<ParsedFileView, StorageError>(e),
        },
{
    let len: usize = bytes.len();
    if len < 12 {
        return Err(StorageError::UnexpectedEof);
    }
    proof {
        assert(MAGIC_HEADER@ =~= spec_magic_header());
    }
    if !matches_at(bytes, 0, array_as_slice(&MAGIC_HEADER)) {
        return Err(StorageError::FormatMismatch);
    }
    if len < HEADER_SIZE {
        return Err(StorageError::UnexpectedEof);
    }
    let model: u8 = bytes[12];
    let dim: u8 = bytes[13];
    let steps: u32 = u32_from_le_bytes(slice_subrange(bytes, 14, 18));
    if len < HEADER_SIZE + FOOTER_SIZE {
        let data: Vec<(u32, Vec<u64>)> = Vec::new();
        assert(records_view(data@) =~= Seq::empty());
        return Ok(ParsedFile { data, model, dim, steps, data_end: HEADER_SIZE });
    }
    match read_file_metadata(bytes) {
        Some((total_count, eigenvalues_per_run)) => {
            proof {
                lemma_read_counted_end(bytes@, total_count as nat, eigenvalues_per_run);
            }
            match read_with_metadata(bytes, total_count, eigenvalues_per_run) {
                Err(e) => Err(e),
                Ok((data, end)) => Ok(ParsedFile { data, model, dim, steps, data_end: end }),
            }
        },
        None => {
            let (data, end) = scan_read_data(bytes);
            Ok(ParsedFile { data, model, dim, steps, data_end: end })
        },
    }
}

/// Reads a file from its bytes and returns its records, in file order, with
/// the model, the dimension and the number of steps of its header.
pub fn read_append_file(bytes: &[u8]) -> (result: Result<
    (Vec<(u32, Vec<u64>)>, u8, u8, u32),
    StorageError,
>)
    ensures
        match result {
            Ok((data, model, dim, steps)) => spec_read_append_file(bytes@) == Ok::<
                (Seq<(u32, Seq<u64>)>, u8, u8, u32),
                StorageError,
            >((records_view(data@), model, dim, steps)),
            Err(e) => spec_read_append_file(bytes@) == Err::<
                (Seq<(u32, Seq<u64>)>, u8, u8, u32),
                StorageError,
            >(e),
        },
{
    match parse_append_file(bytes) {
        Ok(parsed) => Ok((parsed.data, parsed.model, parsed.dim, parsed.steps)),
        Err(e) => Err(e),
    }
}

} // verus!
