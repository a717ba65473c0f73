//! The work of the thread that owns the file: what it is told at its start,
//! and what it does with each record that reaches it.

use vstd::prelude::*;
use super::config::PROGRESS_REPORT_INTERVAL;
use super::error::StorageError;
use super::file_format::{checked_expected_file_size, spec_footer_bytes};
use super::reader::{spec_file_content, spec_parse_file, ParsedFileView};
use super::writer::{
    spec_append,
    spec_opened_reads_back,
    spec_flush_due,
    spec_open_writer,
    AppendOnlyWriter,
    AppendOnlyWriterView,
    OpenAction,
    OpenActionView,
};
use crate::johansen_models::JohansenModel;

verus! {

/// What the writing thread is told at its start.
pub struct WriterConfig {
    /// The name of the file, for the caller who opens it.
    pub filename: String,
    /// The number of records that the file is to hold in the end.
    pub total_runs: usize,
    /// The number of records that the file held when the run was planned.
    pub completed_runs: usize,
    pub dim: usize,
    pub steps: usize,
    pub model: JohansenModel,
    pub quiet: bool,
}

/// The numbers of a progress line.
pub struct ProgressReport {
    /// Records in the file, those of earlier runs included.
    pub current_total: usize,
    /// Records that the file is to hold in the end.
    pub total_runs: usize,
    /// Records written by this session.
    pub written: usize,
    /// Records that were missing when this session began.
    pub remaining_runs: usize,
}

/// What the caller has to do after a record was taken.
pub struct WriterStep {
    /// Bytes to append to the file and to flush, where a flush is due.
    pub flush: Option<Vec<u8>>,
    /// The progress line to print, where one is due.
    pub report: Option<ProgressReport>,
}

/// The work of the writing thread between its start and its end.
pub struct WriterSession {
    writer: AppendOnlyWriter,
    total_runs: usize,
    completed_runs: usize,
    count: usize,
}

/// The state of a `WriterSession` as plain values.
pub struct WriterSessionView {
    pub writer: AppendOnlyWriterView,
    pub total_runs: usize,
    pub completed_runs: usize,
    /// Records taken by this session.
    pub count: usize,
}

impl View for WriterSession {
    type V = WriterSessionView;

    closed spec fn view(&self) -> WriterSessionView {
        WriterSessionView {
            writer: self.writer@,
            total_runs: self.total_runs,
            completed_runs: self.completed_runs,
            count: self.count,
        }
    }
}

/// The progress line that is due once `count` records were taken, where one
/// is due: each time the file reaches a multiple of the report interval, and
/// never for a quiet writer.
pub open spec fn spec_progress_report(
    total_runs: usize,
    completed_runs: usize,
    count: usize,
    quiet: bool,
) -> Option<ProgressReport> {
    if (completed_runs + count) % (PROGRESS_REPORT_INTERVAL as int) == 0 && !quiet {
        Some(
            ProgressReport {
                current_total: (completed_runs + count) as usize,
                total_runs,
                written: count,
                remaining_runs: (total_runs - completed_runs) as usize,
            },
        )
    } else {
        None
    }
}

/// The number of eigenvalues of a record: `dim`, and one more under the
/// models that put the intercept or the trend inside the cointegration
/// relation.
pub fn eigenvalues_per_run(model: JohansenModel, dim: usize) -> (count: usize)
    requires
        model.spec_eigenvalues_per_run(dim as nat) <= usize::MAX,
    ensures
        count == model.spec_eigenvalues_per_run(dim as nat),
{
    match model {
        JohansenModel::InterceptNoTrendWithInterceptInCoint
        | JohansenModel::InterceptTrendUnrestrictedInterceptRestrictedTrend => dim + 1,
        _ => dim,
    }
}

impl WriterSession {
    /// What holds of every session: its writer is well-formed, and no more
    /// records were completed than are asked for.
    pub open spec fn wf(&self) -> bool {
        &&& self@.writer.wf()
        &&& self@.completed_runs <= self@.total_runs
    }

    /// Starts the session: opens the writer for the file of `config`, with the
    /// model number, the dimension and the steps of `config` at the widths of
    /// the header.
    pub fn open(config: &WriterConfig, existing: Option<&[u8]>) -> (result: Result<
        (Self, OpenAction),
        StorageError,
    >)
        requires
            config.model.spec_eigenvalues_per_run(config.dim as nat) <= usize::MAX,
            config.completed_runs <= config.total_runs,
        ensures
            match result {
                Ok((session, action)) => {
                    &&& spec_open_writer(
                        spec_file_content(existing),
                        config.model.spec_to_number(),
                        config.dim as u8,
                        config.steps as u32,
                        config.quiet,
                    ) == Ok::<(AppendOnlyWriterView, OpenActionView), StorageError>(
                        (session@.writer, action@),
                    )
                    &&& spec_opened_reads_back(action@, session@.writer)
                        ==> session@.writer.reads_back()
                    &&& !(action is Append) ==> session@.writer.holds_only_records()
                    &&& session@.total_runs == config.total_runs
                    &&& session@.completed_runs == config.completed_runs
                    &&& session@.count == 0
                    &&& session.wf()
                },
                Err(e) => spec_open_writer(
                    spec_file_content(existing),
                    config.model.spec_to_number(),
                    config.dim as u8,
                    config.steps as u32,
                    config.quiet,
                ) == Err::<(AppendOnlyWriterView, OpenActionView), StorageError>(e),
            },
    {
        let per_run: usize = eigenvalues_per_run(config.model, config.dim);
        let expected_size: Option<u64> = checked_expected_file_size(config.total_runs, per_run);
        match AppendOnlyWriter::with_expected_size(
            existing,
            expected_size,
            config.model.to_number(),
            config.dim as u8,
            config.steps as u32,
            config.quiet,
        ) {
            Err(e) => Err(e),
            Ok((writer, action)) => Ok(
                (
                    WriterSession {
                        writer,
                        total_runs: config.total_runs,
                        completed_runs: config.completed_runs,
                        count: 0,
                    },
                    action,
                ),
            ),
        }
    }

    /// Takes one record: appends it, counts it, and says whether bytes are to
    /// be flushed and whether a progress line is to be printed. A record that
    /// the writer refuses ends the session, and changes nothing.
    pub fn on_record(&mut self, seed: u32, eigenvalues: &[u64]) -> (result: Result<
        WriterStep,
        StorageError,
    >)
        requires
            old(self).wf(),
            old(self)@.writer.written_count < usize::MAX,
            old(self)@.completed_runs + old(self)@.count < usize::MAX,
        ensures
            final(self).wf(),
            final(self)@.total_runs == old(self)@.total_runs,
            final(self)@.completed_runs == old(self)@.completed_runs,
            match result {
                Err(e) => spec_append(old(self)@.writer, seed, eigenvalues@) == Err::<
                    AppendOnlyWriterView,
                    StorageError,
                >(e) && final(self)@ == old(self)@,
                Ok(step) => {
                    &&& spec_append(old(self)@.writer, seed, eigenvalues@) is Ok
                    &&& final(self)@.count == old(self)@.count + 1
                    &&& step.report == spec_progress_report(
                        old(self)@.total_runs,
                        old(self)@.completed_runs,
                        final(self)@.count,
                        old(self)@.writer.quiet,
                    )
                    &&& {
                        let appended = spec_append(old(self)@.writer, seed, eigenvalues@)->Ok_0;
                        match step.flush {
                            None => final(self)@.writer == appended,
                            Some(bytes) => bytes@ == appended.pending && final(self)@.writer == (
                            AppendOnlyWriterView {
                                stored: appended.stored + appended.pending,
                                pending: Seq::empty(),
                                ..appended
                            }),
                        }
                    }
                    &&& step.flush is Some <==> spec_flush_due(
                        spec_append(old(self)@.writer, seed, eigenvalues@)->Ok_0,
                    )
                },
            },
            old(self)@.writer.reads_back() && result is Ok && eigenvalues@.len() >= 1
                ==> final(self)@.writer.reads_back(),
            old(self)@.writer.holds_only_records() ==> final(self)@.writer.holds_only_records(),
    {
        match self.writer.append_eigenvalues(seed, eigenvalues) {
            Err(e) => {
                return Err(e);
            },
            Ok(()) => {},
        }
        self.count = self.count + 1;
        let current_total: usize = self.completed_runs + self.count;
        let report: Option<ProgressReport> = if current_total % PROGRESS_REPORT_INTERVAL == 0
            && !self.writer.quiet() {
            Some(
                ProgressReport {
                    current_total,
                    total_runs: self.total_runs,
                    written: self.count,
                    remaining_runs: self.total_runs - self.completed_runs,
                },
            )
        } else {
            None
        };
        let flush: Option<Vec<u8>> = if self.writer.flush_due() {
            Some(self.writer.take_pending())
        } else {
            None
        };
        Ok(WriterStep { flush, report })
    }

    /// The number of records taken by this session.
    pub fn count(&self) -> (count: usize)
        ensures
            count == self@.count,
    {
        self.count
    }

    /// The number of records in the file, those found at opening included.
    pub fn written_count(&self) -> (count: usize)
        ensures
            count == self@.writer.written_count,
    {
        self.writer.written_count()
    }

    /// Hands out the bytes that are pending, which the caller appends to the
    /// file: for a session that ends without its file being finished.
    pub fn take_pending(&mut self) -> (bytes: Vec<u8>)
        ensures
            bytes@ == old(self)@.writer.pending,
            final(self)@ == (WriterSessionView {
                writer: AppendOnlyWriterView {
                    stored: old(self)@.writer.stored + old(self)@.writer.pending,
                    pending: Seq::empty(),
                    ..old(self)@.writer
                },
                ..old(self)@
            }),
            final(self).wf() == old(self).wf(),
            final(self)@.writer.reads_back() == old(self)@.writer.reads_back(),
            final(self)@.writer.holds_only_records() == old(self)@.writer.holds_only_records(),
    {
        self.writer.take_pending()
    }

    /// Ends the session once no record can come any more: returns the bytes that
    /// are still to be appended to the file, the footer last.
    pub fn close(self) -> (bytes: Vec<u8>)
        requires
            self.wf(),
        ensures
            bytes@ == self@.writer.pending + spec_footer_bytes(
                self@.writer.written_count as u64,
                self@.writer.footer_count(),
            ),
            self@.writer.stored + bytes@ == self@.writer.finished_file(),
            self@.writer.reads_back() ==> spec_parse_file(self@.writer.stored + bytes@) == Ok::<
                ParsedFileView,
                StorageError,
            >(
                ParsedFileView {
                    records: self@.writer.records,
                    model: self@.writer.model,
                    dim: self@.writer.dim,
                    steps: self@.writer.steps,
                    data_end: self@.writer.image().len() as int,
                },
            ),
    {
        self.writer.finish()
    }
}

} // verus!
