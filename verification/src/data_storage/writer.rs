//! The writer: opens a file anew or goes on with one, takes records one at a
//! time, and closes the file with a footer.
//!
//! The writer owns no file. It decides what is to be done with the file and
//! which bytes are to be written, and the caller carries that out: the action
//! that `with_expected_size` returns first, then whatever `take_pending` hands
//! out whenever `flush_due` says so, and at last the bytes that `finish`
//! returns.

use vstd::prelude::*;
use vstd::bytes::*;
use super::config::{FLUSH_INTERVAL, WRITE_BUFFER_CAPACITY};
use super::error::StorageError;
use super::file_format::{
    spec_eigenvalue_bytes,
    spec_eof_marker,
    spec_footer_bytes,
    spec_header_bytes,
    spec_magic_header,
    spec_record_bytes,
    spec_records_bytes,
    EOF_MARKER,
    FOOTER_SIZE,
    HEADER_SIZE,
    MAGIC_HEADER,
};
use super::progress::{check_parameters, spec_check_append_progress, spec_parameter_mismatch};
use super::reader::{
    matches_at,
    parse_append_file,
    records_view,
    spec_file_content,
    spec_footer,
    spec_matches_at,
    spec_parse_file,
    spec_seeds,
    ParsedFile,
    ParsedFileView,
};
use super::roundtrip::{
    lemma_finished_file_reads_back,
    lemma_header_bytes,
    lemma_read_counted_append,
    lemma_reopened_reads_back,
    lemma_unfinished_work_reads_back,
    spec_footer_count,
    spec_reads_back,
    spec_scannable,
    spec_uniform_counts,
};
use super::uleb128::encode_into;

verus! {

/// What the caller has to do with the file before the first record is
/// written.
pub enum OpenAction {
    /// There is no file: create it and write `header`.
    Create { header: Vec<u8> },
    /// The file is of another format: remove it, create it anew and write
    /// `header`. What it held is lost, and the caller should say so.
    Recreate { header: Vec<u8> },
    /// The file is to be continued: cut it to `keep_len` bytes and append to
    /// it. `readable` says whether the records in those bytes could be read.
    Append { keep_len: u64, readable: bool },
}

/// The state of a writer as plain values.
pub struct AppendOnlyWriterView {
    /// The bytes of the file once the open action is carried out and every
    /// chunk taken so far is written.
    pub stored: Seq<u8>,
    /// The bytes accepted and not yet taken.
    pub pending: Seq<u8>,
    /// The records that the file is known to hold: those found when it was
    /// opened, then those appended.
    pub records: Seq<(u32, Seq<u64>)>,
    pub written_count: usize,
    pub eigenvalues_per_run: Option<usize>,
    pub model: u8,
    pub dim: u8,
    pub steps: u32,
    pub quiet: bool,
}

impl AppendOnlyWriterView {
    /// The file as it will be once everything pending is written.
    pub open spec fn image(self) -> Seq<u8> {
        self.stored + self.pending
    }

    /// The number of eigenvalues that the footer will name.
    pub open spec fn footer_count(self) -> u8 {
        match self.eigenvalues_per_run {
            Some(count) => count as u8,
            None => 0,
        }
    }

    /// The file once the writer is finished and everything is written: what
    /// was stored, what was pending, and the footer.
    pub open spec fn finished_file(self) -> Seq<u8> {
        self.image() + spec_footer_bytes(self.written_count as u64, self.footer_count())
    }

    /// What holds of every writer: the count is the number of records, at most
    /// 255 eigenvalues go into a record, and the number of eigenvalues per
    /// record is known as soon as there is a record.
    pub open spec fn wf(self) -> bool {
        &&& self.written_count == self.records.len()
        &&& self.records.len() > 0 <==> self.eigenvalues_per_run is Some
        &&& match self.eigenvalues_per_run {
            Some(count) => count <= 255,
            None => true,
        }
    }

    /// Whether the file, as far as it is written, is the header and the bytes
    /// of the records of this writer, and nothing else. The file of a writer
    /// that started it is.
    pub open spec fn holds_only_records(self) -> bool {
        self.image() == spec_header_bytes(self.model, self.dim, self.steps) + spec_records_bytes(
            self.records,
        )
    }

    /// Whether the file, as far as it is written, is a header and the records
    /// of this writer, such that a reader will find them once the file is
    /// finished. A new file is; a file that was opened again is where all its
    /// records have the same number of eigenvalues; and a record without
    /// eigenvalues ends it, because no reader accepts such a record.
    pub open spec fn reads_back(self) -> bool {
        spec_reads_back(
            self.image(),
            self.records,
            self.model,
            self.dim,
            self.steps,
            self.footer_count(),
        )
    }
}

/// A writer of one eigenvalue file.
pub struct AppendOnlyWriter {
    buffer: Vec<u8>,
    stored: Ghost<Seq<u8>>,
    records: Ghost<Seq<(u32, Seq<u64>)>>,
    written_count: usize,
    eigenvalues_per_run: Option<usize>,
    model: u8,
    dim: u8,
    steps: u32,
    quiet: bool,
}

impl View for AppendOnlyWriter {
    type V = AppendOnlyWriterView;

    closed spec fn view(&self) -> AppendOnlyWriterView {
        AppendOnlyWriterView {
            stored: self.stored@,
            pending: self.buffer@,
            records: self.records@,
            written_count: self.written_count,
            eigenvalues_per_run: self.eigenvalues_per_run,
            model: self.model,
            dim: self.dim,
            steps: self.steps,
            quiet: self.quiet,
        }
    }
}

/// The length to which a file is cut so that its footer is gone: seventeen
/// bytes less where the marker stands seventeen bytes before the end.
pub open spec fn spec_remove_eof_marker(bytes: Seq<u8>) -> nat {
    if bytes.len() >= 35 && spec_matches_at(bytes, bytes.len() - 17, spec_eof_marker()) {
        (bytes.len() - 17) as nat
    } else {
        bytes.len()
    }
}

/// The number of eigenvalues of the first record, where there is one.
pub open spec fn spec_first_count(records: Seq<(u32, Seq<u64>)>) -> Option<usize> {
    if records.len() == 0 {
        None
    } else {
        Some(records[0].1.len() as usize)
    }
}

/// A writer that has written nothing but a header.
pub open spec fn spec_fresh_writer(model: u8, dim: u8, steps: u32, quiet: bool)
    -> AppendOnlyWriterView {
    AppendOnlyWriterView {
        stored: spec_header_bytes(model, dim, steps),
        pending: Seq::empty(),
        records: Seq::empty(),
        written_count: 0,
        eigenvalues_per_run: None,
        model,
        dim,
        steps,
        quiet,
    }
}

/// An `OpenAction` as plain values.
pub enum OpenActionView {
    Create { header: Seq<u8> },
    Recreate { header: Seq<u8> },
    Append { keep_len: u64, readable: bool },
}

impl View for OpenAction {
    type V = OpenActionView;

    open spec fn view(&self) -> OpenActionView {
        match self {
            OpenAction::Create { header } => OpenActionView::Create { header: header@ },
            OpenAction::Recreate { header } => OpenActionView::Recreate { header: header@ },
            OpenAction::Append { keep_len, readable } => OpenActionView::Append {
                keep_len: *keep_len,
                readable: *readable,
            },
        }
    }
}

/// What opening a writer comes to: the writer and what is to be done with
/// the file, or the way in which the header of the file is not the expected
/// one.
pub open spec fn spec_open_writer(
    existing: Option<Seq<u8>>,
    model: u8,
    dim: u8,
    steps: u32,
    quiet: bool,
) -> Result<(AppendOnlyWriterView, OpenActionView), StorageError> {
    let fresh = spec_fresh_writer(model, dim, steps, quiet);
    let header = spec_header_bytes(model, dim, steps);
    match existing {
        None => Ok((fresh, OpenActionView::Create { header })),
        Some(bytes) => match spec_parse_file(bytes) {
            Err(StorageError::FormatMismatch) => Ok((fresh, OpenActionView::Recreate { header })),
            Err(_) => Ok(
                (
                    AppendOnlyWriterView {
                        stored: bytes.subrange(0, spec_remove_eof_marker(bytes) as int),
                        ..fresh
                    },
                    OpenActionView::Append {
                        keep_len: spec_remove_eof_marker(bytes) as u64,
                        readable: false,
                    },
                ),
            ),
            Ok(parsed) => match spec_parameter_mismatch(
                parsed.model,
                parsed.dim,
                parsed.steps,
                model,
                dim,
                steps,
            ) {
                Some(e) => Err(e),
                None => Ok(
                    (
                        AppendOnlyWriterView {
                            stored: bytes.subrange(0, parsed.data_end),
                            records: parsed.records,
                            written_count: parsed.records.len() as usize,
                            eigenvalues_per_run: spec_first_count(parsed.records),
                            ..fresh
                        },
                        OpenActionView::Append { keep_len: parsed.data_end as u64, readable: true },
                    ),
                ),
            },
        },
    }
}

/// What appending a record comes to: the writer with the record, or the
/// reason for which the record is refused.
pub open spec fn spec_append(writer: AppendOnlyWriterView, seed: u32, eigenvalues: Seq<u64>)
    -> Result<AppendOnlyWriterView, StorageError> {
    if eigenvalues.len() > 255 {
        Err(StorageError::TooManyEigenvalues { count: eigenvalues.len() as usize })
    } else if writer.eigenvalues_per_run is Some && writer.eigenvalues_per_run->Some_0
        != eigenvalues.len() {
        Err(
            StorageError::InconsistentEigenvalueCount {
                expected: writer.eigenvalues_per_run->Some_0,
                actual: eigenvalues.len() as usize,
                model: writer.model,
                dim: writer.dim,
                steps: writer.steps,
            },
        )
    } else {
        Ok(
            AppendOnlyWriterView {
                pending: writer.pending + spec_record_bytes(seed, eigenvalues),
                records: writer.records.push((seed, eigenvalues)),
                written_count: (writer.written_count + 1) as usize,
                eigenvalues_per_run: Some(eigenvalues.len() as usize),
                ..writer
            },
        )
    }
}

/// Whether a writer that was opened with `action` will read back: where its
/// file is new, and where the file could be read and all its records have
/// the same number of eigenvalues.
pub open spec fn spec_opened_reads_back(action: OpenActionView, writer: AppendOnlyWriterView)
    -> bool {
    match action {
        OpenActionView::Create { .. } => true,
        OpenActionView::Recreate { .. } => true,
        OpenActionView::Append { readable, .. } => readable && spec_uniform_counts(
            writer.records,
            spec_footer_count(writer.records) as nat,
        ),
    }
}

/// Whether the pending bytes of a writer are to be handed to storage: each
/// time the number of records reaches a multiple of the flush interval, and
/// whenever the buffer is full.
pub open spec fn spec_flush_due(writer: AppendOnlyWriterView) -> bool {
    writer.written_count % FLUSH_INTERVAL == 0 || writer.pending.len() >= WRITE_BUFFER_CAPACITY
}

/// The bytes of a header.
pub fn header_bytes(model: u8, dim: u8, steps: u32) -> (header: Vec<u8>)
    ensures
        header@ == spec_header_bytes(model, dim, steps),
{
    let mut header: Vec<u8> = Vec::new();
    let mut i: usize = 0;
    proof {
        assert(MAGIC_HEADER@ =~= spec_magic_header());
    }
    while i < 12
        invariant
            i <= 12,
            MAGIC_HEADER@ == spec_magic_header(),
            header@ == spec_magic_header().subrange(0, i as int),
        decreases 12 - i,
    {
        header.push(MAGIC_HEADER[i]);
        i = i + 1;
        assert(header@ =~= spec_magic_header().subrange(0, i as int));
    }
    assert(header@ =~= spec_magic_header());
    header.push(model);
    header.push(dim);
    let mut steps_bytes = u32_to_le_bytes(steps);
    header.append(&mut steps_bytes);
    assert(header@ =~= spec_header_bytes(model, dim, steps));
    header
}

/// The bytes of a footer.
pub fn footer_bytes(total_count: u64, eigenvalues_per_run: u8) -> (footer: Vec<u8>)
    ensures
        footer@ == spec_footer_bytes(total_count, eigenvalues_per_run),
{
    let mut footer: Vec<u8> = Vec::new();
    let mut i: usize = 0;
    proof {
        assert(EOF_MARKER@ =~= spec_eof_marker());
    }
    while i < 8
        invariant
            i <= 8,
            EOF_MARKER@ == spec_eof_marker(),
            footer@ == spec_eof_marker().subrange(0, i as int),
        decreases 8 - i,
    {
        footer.push(EOF_MARKER[i]);
        i = i + 1;
        assert(footer@ =~= spec_eof_marker().subrange(0, i as int));
    }
    assert(footer@ =~= spec_eof_marker());
    let mut count_bytes = u64_to_le_bytes(total_count);
    footer.append(&mut count_bytes);
    footer.push(eigenvalues_per_run);
    assert(footer@ =~= spec_footer_bytes(total_count, eigenvalues_per_run));
    footer
}

/// The length that a file has once its footer is removed.
pub fn remove_eof_marker(bytes: &[u8]) -> (keep_len: usize)
    ensures
        keep_len == spec_remove_eof_marker(bytes@),
        keep_len <= bytes.len(),
{
    let len: usize = bytes.len();
    proof {
        assert(EOF_MARKER@ =~= spec_eof_marker());
    }
    if len >= HEADER_SIZE + FOOTER_SIZE && matches_at(
        bytes,
        len - FOOTER_SIZE,
        vstd::array::array_as_slice(&EOF_MARKER),
    ) {
        len - FOOTER_SIZE
    } else {
        len
    }
}

proof fn lemma_byte_of_u64(value: u64)
    by (bit_vector)
    ensures
        value & 0xff < 256,
        (value >> 8) & 0xff < 256,
        (value >> 16) & 0xff < 256,
        (value >> 24) & 0xff < 256,
        (value >> 32) & 0xff < 256,
        (value >> 40) & 0xff < 256,
        (value >> 48) & 0xff < 256,
        (value >> 56) & 0xff < 256,
{
}

/// Appends the eight bytes of `value` to `out`, the lowest first.
fn push_u64_le(out: &mut Vec<u8>, value: u64)
    ensures
        final(out)@ == old(out)@ + spec_u64_to_le_bytes(value),
{
    proof {
        lemma_byte_of_u64(value);
        spec_u64_to_le_bytes_to_open(value);
    }
    out.push((value & 0xff) as u8);
    out.push(((value >> 8) & 0xff) as u8);
    out.push(((value >> 16) & 0xff) as u8);
    out.push(((value >> 24) & 0xff) as u8);
    out.push(((value >> 32) & 0xff) as u8);
    out.push(((value >> 40) & 0xff) as u8);
    out.push(((value >> 48) & 0xff) as u8);
    out.push(((value >> 56) & 0xff) as u8);
    assert(out@ =~= old(out)@ + spec_u64_to_le_bytes_open(value));
}

/// Appends the bytes of the eigenvalues of one record to `out`.
fn push_eigenvalues(out: &mut Vec<u8>, eigenvalues: &[u64])
    ensures
        final(out)@ == old(out)@ + spec_eigenvalue_bytes(eigenvalues@),
{
    let mut i: usize = 0;
    assert(out@ =~= old(out)@ + spec_eigenvalue_bytes(eigenvalues@.subrange(0, 0)));
    while i < eigenvalues.len()
        invariant
            i <= eigenvalues.len(),
            out@ == old(out)@ + spec_eigenvalue_bytes(eigenvalues@.subrange(0, i as int)),
        decreases eigenvalues.len() - i,
    {
        let ghost so_far = spec_eigenvalue_bytes(eigenvalues@.subrange(0, i as int));
        push_u64_le(out, eigenvalues[i]);
        i = i + 1;
        assert(eigenvalues@.subrange(0, i as int).drop_last() =~= eigenvalues@.subrange(
            0,
            i - 1,
        ));
        assert(out@ =~= old(out)@ + (so_far + spec_u64_to_le_bytes(eigenvalues@[i - 1])));
    }
    assert(eigenvalues@.subrange(0, i as int) =~= eigenvalues@);
}

impl AppendOnlyWriter {
    /// What holds of every writer; see `AppendOnlyWriterView::wf`.
    pub open spec fn wf(&self) -> bool {
        self@.wf()
    }

    /// Whether the file will read back as the records of this writer; see
    /// `AppendOnlyWriterView::reads_back`.
    pub open spec fn reads_back(&self) -> bool {
        self@.reads_back()
    }

    fn fresh(model: u8, dim: u8, steps: u32, quiet: bool) -> (result: (Self, Vec<u8>))
        ensures
            result.0@ == spec_fresh_writer(model, dim, steps, quiet),
            result.0.wf(),
            result.0.reads_back(),
            result.0@.holds_only_records(),
            result.1@ == spec_header_bytes(model, dim, steps),
    {
        let header = header_bytes(model, dim, steps);
        proof {
            lemma_header_bytes(model, dim, steps);
            assert(header@ + Seq::<u8>::empty() =~= header@);
            assert(header@.subrange(0, 18) =~= header@);
            assert(spec_records_bytes(Seq::empty()) =~= Seq::<u8>::empty());
        }
        let writer = AppendOnlyWriter {
            buffer: Vec::with_capacity(WRITE_BUFFER_CAPACITY),
            stored: Ghost(header@),
            records: Ghost(Seq::empty()),
            written_count: 0,
            eigenvalues_per_run: None,
            model,
            dim,
            steps,
            quiet,
        };
        (writer, header)
    }

    /// Opens a writer for a file with the given header parameters.
    ///
    /// `existing` is the content of the file, `None` where there is no file.
    /// - No file: the writer starts a new one.
    /// - A file of another format: the writer starts a new one in its place.
    /// - A file with another model, dimension or number of steps in its
    ///   header: an error, and nothing is to be done with the file.
    /// - A file with the expected header: the writer goes on behind the last
    ///   complete record that reading finds, and counts the records before it.
    /// - A file that cannot be read for another reason: the writer appends to
    ///   it behind its footer's place, and counts from zero.
    ///
    /// Space is never reserved in advance, so `expected_size` changes nothing.
    pub fn with_expected_size(
        existing: Option<&[u8]>,
        expected_size: Option<u64>,
        model: u8,
        dim: u8,
        steps: u32,
        quiet: bool,
    ) -> (result: Result<(Self, OpenAction), StorageError>)
        ensures
            match result {
                Ok((writer, action)) => spec_open_writer(
                    spec_file_content(existing),
                    model,
                    dim,
                    steps,
                    quiet,
                ) == Ok::<(AppendOnlyWriterView, OpenActionView), StorageError>(
                    (writer@, action@),
                ),
                Err(e) => spec_open_writer(spec_file_content(existing), model, dim, steps, quiet)
                    == Err::<(AppendOnlyWriterView, OpenActionView), StorageError>(e),
            },
            result is Ok ==> result->Ok_0.0.wf(),
            result is Ok && spec_opened_reads_back(result->Ok_0.1@, result->Ok_0.0@)
                ==> result->Ok_0.0.reads_back(),
            result is Ok && !(result->Ok_0.1 is Append) ==> result->Ok_0.0@.holds_only_records(),
    {
        let bytes = match existing {
            None => {
                let (writer, header) = Self::fresh(model, dim, steps, quiet);
                return Ok((writer, OpenAction::Create { header }));
            },
            Some(bytes) => bytes,
        };
        match parse_append_file(bytes) {
            Ok(parsed) => {
                match check_parameters(parsed.model, parsed.dim, parsed.steps, model, dim, steps) {
                    Some(e) => {
                        return Err(e);
                    },
                    None => {},
                }
                let written_count: usize = parsed.data.len();
                let eigenvalues_per_run: Option<usize> = if written_count > 0 {
                    Some(parsed.data[0].1.len())
                } else {
                    None
                };
                proof {
                    super::reader::lemma_parsed_counts(bytes@);
                    if spec_uniform_counts(
                        records_view(parsed.data@),
                        spec_footer_count(records_view(parsed.data@)) as nat,
                    ) {
                        lemma_reopened_reads_back(bytes@);
                        assert(bytes@.subrange(0, parsed.data_end as int) + Seq::<u8>::empty()
                            =~= bytes@.subrange(0, parsed.data_end as int));
                    }
                }
                let writer = AppendOnlyWriter {
                    buffer: Vec::with_capacity(WRITE_BUFFER_CAPACITY),
                    stored: Ghost(bytes@.subrange(0, parsed.data_end as int)),
                    records: Ghost(records_view(parsed.data@)),
                    written_count,
                    eigenvalues_per_run,
                    model,
                    dim,
                    steps,
                    quiet,
                };
                Ok((writer, OpenAction::Append { keep_len: parsed.data_end as u64, readable: true }))
            },
            Err(StorageError::FormatMismatch) => {
                let (writer, header) = Self::fresh(model, dim, steps, quiet);
                Ok((writer, OpenAction::Recreate { header }))
            },
            Err(_) => {
                let keep_len: usize = remove_eof_marker(bytes);
                let writer = AppendOnlyWriter {
                    buffer: Vec::with_capacity(WRITE_BUFFER_CAPACITY),
                    stored: Ghost(bytes@.subrange(0, keep_len as int)),
                    records: Ghost(Seq::empty()),
                    written_count: 0,
                    eigenvalues_per_run: None,
                    model,
                    dim,
                    steps,
                    quiet,
                };
                Ok((writer, OpenAction::Append { keep_len: keep_len as u64, readable: false }))
            },
        }
    }

    /// The number of records in the file, those found at opening included.
    pub fn written_count(&self) -> (count: usize)
        ensures
            count == self@.written_count,
    {
        self.written_count
    }

    /// The number of eigenvalues per record, once a record has fixed it.
    pub fn eigenvalues_per_run(&self) -> (count: Option<usize>)
        ensures
            count == self@.eigenvalues_per_run,
    {
        self.eigenvalues_per_run
    }

    /// Whether the caller asked for silence.
    pub fn quiet(&self) -> (quiet: bool)
        ensures
            quiet == self@.quiet,
    {
        self.quiet
    }

    /// The number of bytes accepted and not yet taken.
    pub fn pending_len(&self) -> (len: usize)
        ensures
            len == self@.pending.len(),
    {
        self.buffer.len()
    }

    /// Appends one record.
    ///
    /// More than 255 eigenvalues are refused, and so is another number of
    /// eigenvalues than the file holds per record; the first record of a file
    /// fixes that number. A refused record changes nothing.
    pub fn append_eigenvalues(&mut self, seed: u32, eigenvalues: &[u64]) -> (result: Result<
        (),
        StorageError,
    >)
        requires
            old(self).wf(),
            old(self)@.written_count < usize::MAX,
        ensures
            final(self).wf(),
            old(self).reads_back() && result is Ok && eigenvalues@.len() >= 1
                ==> final(self).reads_back(),
            old(self)@.holds_only_records() ==> final(self)@.holds_only_records(),
            match result {
                Ok(()) => spec_append(old(self)@, seed, eigenvalues@) == Ok::<
                    AppendOnlyWriterView,
                    StorageError,
                >(final(self)@),
                Err(e) => spec_append(old(self)@, seed, eigenvalues@) == Err::<
                    AppendOnlyWriterView,
                    StorageError,
                >(e) && final(self)@ == old(self)@,
            },
    {
        if eigenvalues.len() > 255 {
            return Err(StorageError::TooManyEigenvalues { count: eigenvalues.len() });
        }
        match self.eigenvalues_per_run {
            Some(expected_len) => {
                if eigenvalues.len() != expected_len {
                    return Err(
                        StorageError::InconsistentEigenvalueCount {
                            expected: expected_len,
                            actual: eigenvalues.len(),
                            model: self.model,
                            dim: self.dim,
                            steps: self.steps,
                        },
                    );
                }
            },
            None => {
                self.eigenvalues_per_run = Some(eigenvalues.len());
            },
        }
        let ghost before = self.buffer@;
        encode_into(seed, &mut self.buffer);
        self.buffer.push(eigenvalues.len() as u8);
        push_eigenvalues(&mut self.buffer, eigenvalues);
        self.written_count = self.written_count + 1;
        proof {
            self.records@ = self.records@.push((seed, eigenvalues@));
            assert(self.buffer@ =~= before + spec_record_bytes(seed, eigenvalues@));
            assert(self@.records.drop_last() =~= old(self)@.records);
            if old(self)@.holds_only_records() {
                let header = spec_header_bytes(self.model, self.dim, self.steps);
                let record = spec_record_bytes(seed, eigenvalues@);
                assert(self@.records.last() == (seed, eigenvalues@));
                assert(self@.image() =~= old(self)@.image() + record);
                assert(header + spec_records_bytes(old(self)@.records) + record =~= header + (
                spec_records_bytes(old(self)@.records) + record));
            }
            if old(self).reads_back() && eigenvalues@.len() >= 1 {
                let image = old(self)@.image();
                lemma_read_counted_append(
                    image,
                    old(self)@.records,
                    old(self)@.footer_count(),
                    seed,
                    eigenvalues@,
                );
                assert(self@.image() =~= image + spec_record_bytes(seed, eigenvalues@));
                assert(self@.image().subrange(0, 18) =~= image.subrange(0, 18));
                super::roundtrip::lemma_record_bytes_len(seed, eigenvalues@);
            }
        }
        Ok(())
    }

    /// Whether the pending bytes are to be handed to storage now: each time
    /// the number of records reaches a multiple of the flush interval, and
    /// whenever the buffer is full.
    pub fn flush_due(&self) -> (due: bool)
        ensures
            due == spec_flush_due(self@),
    {
        self.written_count % FLUSH_INTERVAL == 0 || self.buffer.len() >= WRITE_BUFFER_CAPACITY
    }

    /// Hands out the pending bytes, which the caller appends to the file.
    pub fn take_pending(&mut self) -> (bytes: Vec<u8>)
        ensures
            bytes@ == old(self)@.pending,
            final(self)@ == (AppendOnlyWriterView {
                stored: old(self)@.stored + old(self)@.pending,
                pending: Seq::empty(),
                ..old(self)@
            }),
            final(self).wf() == old(self).wf(),
            final(self).reads_back() == old(self).reads_back(),
            final(self)@.holds_only_records() == old(self)@.holds_only_records(),
    {
        let mut bytes: Vec<u8> = Vec::new();
        std::mem::swap(&mut self.buffer, &mut bytes);
        proof {
            self.stored@ = self.stored@ + bytes@;
            assert(self@.image() =~= old(self)@.image());
        }
        bytes
    }

    /// Ends the file: returns the bytes that are still to be appended to it,
    /// which are the pending bytes and the footer. The footer holds the marker,
    /// the number of records and the number of eigenvalues per record, zero
    /// where there is no record.
    pub fn finish(self) -> (bytes: Vec<u8>)
        requires
            self.wf(),
        ensures
            bytes@ == self@.pending + spec_footer_bytes(
                self@.written_count as u64,
                self@.footer_count(),
            ),
            self@.stored + bytes@ == self@.finished_file(),
            self.reads_back() ==> spec_parse_file(self@.stored + bytes@) == Ok::<
                ParsedFileView,
                StorageError,
            >(
                ParsedFileView {
                    records: self@.records,
                    model: self@.model,
                    dim: self@.dim,
                    steps: self@.steps,
                    data_end: self@.image().len() as int,
                },
            ),
    {
        let eigenvalues_per_run: u8 = match self.eigenvalues_per_run {
            Some(count) => count as u8,
            None => 0,
        };
        let mut footer = footer_bytes(self.written_count as u64, eigenvalues_per_run);
        proof {
            assert(self@.stored + (self@.pending + footer@) =~= self@.finished_file());
            if self.reads_back() {
                lemma_finished_file_reads_back(
                    self@.image(),
                    self@.records,
                    self@.model,
                    self@.dim,
                    self@.steps,
                    self@.footer_count(),
                );
                assert(self@.stored + (self@.pending + footer@) =~= self@.image() + footer@);
            }
        }
        let mut bytes = self.buffer;
        bytes.append(&mut footer);
        bytes
    }
}

/// The writer goes on with what the planner counted: opening fails on the
/// files on which `check_append_progress` fails, with the same error; and on a
/// file that can be read, the writer holds the records whose number and seeds
/// the planner reports.
pub proof fn lemma_writer_keeps_what_was_counted(
    existing: Seq<u8>,
    model: u8,
    dim: u8,
    steps: u32,
    quiet: bool,
)
    requires
        existing.len() <= usize::MAX,
    ensures
        match spec_check_append_progress(Some(existing), model, dim, steps) {
            Err(e) => spec_open_writer(Some(existing), model, dim, steps, quiet) == Err::<
                (AppendOnlyWriterView, OpenActionView),
                StorageError,
            >(e),
            Ok((count, seeds)) => {
                let opened = spec_open_writer(Some(existing), model, dim, steps, quiet);
                &&& opened is Ok
                &&& opened->Ok_0.0.wf()
                &&& spec_parse_file(existing) is Ok ==> opened->Ok_0.0.records.len() == count
                    && spec_seeds(opened->Ok_0.0.records) == seeds
                &&& spec_parse_file(existing) is Err ==> count == 0 && opened->Ok_0.0.records.len()
                    == 0
            },
        },
{
    super::reader::lemma_parsed_counts(existing);
    match spec_parse_file(existing) {
        Ok(parsed) => {
            super::reader::lemma_parsed_end(existing);
        },
        Err(_) => {},
    }
}

/// What a writer that started its file leaves behind where it is never
/// finished reads back as its records, once everything pending is written.
/// This holds of files of at least 35 bytes whose records a scanning reader
/// takes for records, and which do not end like a footer.
pub proof fn lemma_unfinished_writer_reads_back(writer: AppendOnlyWriterView)
    requires
        writer.holds_only_records(),
        spec_scannable(writer.records),
        writer.image().len() >= 35,
        spec_footer(writer.image()) is None,
    ensures
        spec_parse_file(writer.image()) == Ok::<ParsedFileView, StorageError>(
            ParsedFileView {
                records: writer.records,
                model: writer.model,
                dim: writer.dim,
                steps: writer.steps,
                data_end: writer.image().len() as int,
            },
        ),
{
    lemma_header_bytes(writer.model, writer.dim, writer.steps);
    lemma_unfinished_work_reads_back(writer.model, writer.dim, writer.steps, writer.records);
}

} // verus!
