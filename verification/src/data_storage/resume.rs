//! A run that goes on with its file: what the file holds once the seeds that
//! were missing are written to it and it is finished again.

use vstd::prelude::*;
use super::error::StorageError;
use super::file_format::{spec_record_bytes, spec_records_bytes};
use super::progress::{
    lemma_resume_holds_every_seed_once,
    spec_check_append_progress,
    spec_parameter_mismatch,
    spec_remaining_seeds,
};
use super::reader::{lemma_parsed_end, spec_parse_file, spec_seeds, ParsedFileView};
use super::roundtrip::{
    lemma_finished_file_reads_back,
    lemma_read_counted_append,
    lemma_record_bytes_len,
    lemma_reopened_reads_back,
    spec_uniform_counts,
};
use super::writer::{spec_append, spec_open_writer, AppendOnlyWriterView};

verus! {

/// The writer once every record of `records` is appended to it, in their
/// order; the first refusal where one of them is refused.
pub open spec fn spec_append_all(writer: AppendOnlyWriterView, records: Seq<(u32, Seq<u64>)>)
    -> Result<AppendOnlyWriterView, StorageError>
    decreases records.len(),
{
    if records.len() == 0 {
        Ok(writer)
    } else {
        match spec_append_all(writer, records.drop_last()) {
            Err(e) => Err(e),
            Ok(before) => spec_append(before, records.last().0, records.last().1),
        }
    }
}

/// A writer whose file reads back takes records that all have the number of
/// eigenvalues of its file, and its file reads back with them.
pub proof fn lemma_append_all(
    writer: AppendOnlyWriterView,
    records: Seq<(u32, Seq<u64>)>,
    eigenvalues_per_run: u8,
)
    requires
        writer.wf(),
        writer.reads_back(),
        eigenvalues_per_run >= 1,
        spec_uniform_counts(records, eigenvalues_per_run as nat),
        writer.records.len() > 0 ==> writer.eigenvalues_per_run == Some(
            eigenvalues_per_run as usize,
        ),
        writer.written_count + records.len() <= usize::MAX,
    ensures
        spec_append_all(writer, records) is Ok,
        spec_append_all(writer, records)->Ok_0 == (AppendOnlyWriterView {
            pending: writer.pending + spec_records_bytes(records),
            records: writer.records + records,
            written_count: (writer.written_count + records.len()) as usize,
            eigenvalues_per_run: if records.len() > 0 {
                Some(eigenvalues_per_run as usize)
            } else {
                writer.eigenvalues_per_run
            },
            ..writer
        }),
        spec_append_all(writer, records)->Ok_0.wf(),
        spec_append_all(writer, records)->Ok_0.reads_back(),
    decreases records.len(),
{
    if records.len() == 0 {
        assert(writer.pending + spec_records_bytes(records) =~= writer.pending);
        assert(writer.records + records =~= writer.records);
    } else {
        let front = records.drop_last();
        let (seed, eigenvalues) = records.last();
        assert(records[records.len() - 1] == records.last());
        assert forall|i: int| 0 <= i < front.len() implies (#[trigger] front[i]).1.len()
            == eigenvalues_per_run by {
            assert(front[i] == records[i]);
        }
        lemma_append_all(writer, front, eigenvalues_per_run);
        let before = spec_append_all(writer, front)->Ok_0;
        let after = spec_append(before, seed, eigenvalues)->Ok_0;
        lemma_read_counted_append(
            before.image(),
            before.records,
            before.footer_count(),
            seed,
            eigenvalues,
        );
        lemma_record_bytes_len(seed, eigenvalues);
        assert(after.image() =~= before.image() + spec_record_bytes(seed, eigenvalues));
        assert(after.image().subrange(0, 18) =~= before.image().subrange(0, 18));
        assert(after.pending =~= writer.pending + spec_records_bytes(records));
        assert(after.records =~= writer.records + records);
    }
}

/// A run that goes on with its file completes it. Take a file that reads as
/// records of one number of eigenvalues, with the header of the run and with
/// seeds of `1..=num_runs`, each at most once. Open a writer on it, append a
/// record for every seed that remains, and finish. Then the file reads as the
/// records that it held, unchanged and in their order, and the new ones behind
/// them: `num_runs` records in all, with every seed of `1..=num_runs` once.
pub proof fn lemma_resumed_file_holds_every_seed(
    file: Seq<u8>,
    model: u8,
    dim: u8,
    steps: u32,
    quiet: bool,
    num_runs: nat,
    eigenvalues_per_run: u8,
    added: Seq<(u32, Seq<u64>)>,
)
    requires
        file.len() <= usize::MAX,
        num_runs <= u32::MAX,
        eigenvalues_per_run >= 1,
        spec_parse_file(file) is Ok,
        spec_parameter_mismatch(
            spec_parse_file(file)->Ok_0.model,
            spec_parse_file(file)->Ok_0.dim,
            spec_parse_file(file)->Ok_0.steps,
            model,
            dim,
            steps,
        ) is None,
        spec_uniform_counts(spec_parse_file(file)->Ok_0.records, eigenvalues_per_run as nat),
        spec_seeds(spec_parse_file(file)->Ok_0.records).no_duplicates(),
        forall|i: int|
            0 <= i < spec_parse_file(file)->Ok_0.records.len() ==> 1 <= (#[trigger] spec_parse_file(
                file,
            )->Ok_0.records[i]).0 <= num_runs,
        spec_seeds(added) == spec_remaining_seeds(
            num_runs,
            spec_seeds(spec_parse_file(file)->Ok_0.records),
        ),
        spec_uniform_counts(added, eigenvalues_per_run as nat),
    ensures
        spec_check_append_progress(Some(file), model, dim, steps) == Ok::<
            (nat, Seq<u32>),
            StorageError,
        >(
            (
                spec_parse_file(file)->Ok_0.records.len(),
                spec_seeds(spec_parse_file(file)->Ok_0.records),
            ),
        ),
        spec_open_writer(Some(file), model, dim, steps, quiet) is Ok,
        spec_append_all(spec_open_writer(Some(file), model, dim, steps, quiet)->Ok_0.0, added)
            is Ok,
        ({
            let held = spec_parse_file(file)->Ok_0.records;
            let writer = spec_append_all(
                spec_open_writer(Some(file), model, dim, steps, quiet)->Ok_0.0,
                added,
            )->Ok_0;
            let read = spec_parse_file(writer.finished_file());
            &&& read == Ok::<ParsedFileView, StorageError>(
                ParsedFileView {
                    records: held + added,
                    model,
                    dim,
                    steps,
                    data_end: writer.image().len() as int,
                },
            )
            &&& (held + added).len() == num_runs
            &&& spec_seeds(held + added).no_duplicates()
            &&& forall|seed: u32|
                #[trigger] spec_seeds(held + added).contains(seed) <==> 1 <= seed <= num_runs
        }),
{
    let parsed = spec_parse_file(file)->Ok_0;
    let held = parsed.records;
    let completed = spec_seeds(held);
    let remaining = spec_remaining_seeds(num_runs, completed);
    let opened = spec_open_writer(Some(file), model, dim, steps, quiet)->Ok_0.0;
    // the seeds
    assert forall|i: int| 0 <= i < completed.len() implies 1 <= #[trigger] completed[i]
        <= num_runs by {
        assert(completed[i] == held[i].0);
    }
    lemma_resume_holds_every_seed_once(num_runs, completed);
    assert(spec_seeds(held + added) =~= completed + remaining);
    assert(held.len() == completed.len() && added.len() == remaining.len());
    // the writer that is opened on the file
    lemma_parsed_end(file);
    if held.len() > 0 {
        assert(held[0].1.len() == eigenvalues_per_run);
    }
    lemma_reopened_reads_back(file);
    assert(opened.image() =~= file.subrange(0, parsed.data_end));
    assert(opened.reads_back());
    // the records that are added, and the footer
    lemma_append_all(opened, added, eigenvalues_per_run);
    let writer = spec_append_all(opened, added)->Ok_0;
    lemma_finished_file_reads_back(
        writer.image(),
        writer.records,
        model,
        dim,
        steps,
        writer.footer_count(),
    );
}

} // verus!
