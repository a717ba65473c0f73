//! The decisions of a simulation run: whether anything is left to compute,
//! in which batches, and whether the file that was written is the file that
//! was asked for.

use vstd::prelude::*;
use super::error::StorageError;
use super::progress::{get_remaining_seeds, spec_remaining_seeds};
use super::reader::{read_append_file, spec_read_append_file};

verus! {

/// What a run has to do, given the progress that its file shows.
pub enum SimulationPlan {
    /// The file holds as many records as were asked for, or more.
    Completed,
    /// The file holds fewer records than were asked for, and yet a record for
    /// every seed.
    NothingLeft,
    /// Records are missing: compute `remaining_seeds`. The file holds
    /// `completed_runs` records, with seeds from `first_seed` to `last_seed`.
    Compute { completed_runs: usize, first_seed: u32, last_seed: u32, remaining_seeds: Vec<u32> },
    /// The file belongs to another configuration: remove it and plan again.
    Restart { reason: StorageError },
    /// The progress could not be told, and the run cannot go on.
    Abort { reason: StorageError },
}

/// What a look at the finished file says.
pub enum OutputValidation {
    /// The file holds as many records as expected.
    Successful,
    /// The file holds another number of records: an error of the program,
    /// which no second run would mend.
    LengthMismatch { expected: usize, actual: usize },
    /// The file is of another format, which must stop the program.
    FormatIncompatible,
    /// The file could not be read.
    ReadFailed { reason: StorageError },
}

/// A `SimulationPlan` as plain values.
pub enum SimulationPlanView {
    Completed,
    NothingLeft,
    Compute { completed_runs: nat, first_seed: u32, last_seed: u32, remaining_seeds: Seq<u32> },
    Restart { reason: StorageError },
    Abort { reason: StorageError },
}

impl View for SimulationPlan {
    type V = SimulationPlanView;

    open spec fn view(&self) -> SimulationPlanView {
        match self {
            SimulationPlan::Completed => SimulationPlanView::Completed,
            SimulationPlan::NothingLeft => SimulationPlanView::NothingLeft,
            SimulationPlan::Compute { completed_runs, first_seed, last_seed, remaining_seeds } =>
                SimulationPlanView::Compute {
                    completed_runs: *completed_runs as nat,
                    first_seed: *first_seed,
                    last_seed: *last_seed,
                    remaining_seeds: remaining_seeds@,
                },
            SimulationPlan::Restart { reason } => SimulationPlanView::Restart { reason: *reason },
            SimulationPlan::Abort { reason } => SimulationPlanView::Abort { reason: *reason },
        }
    }
}

/// The least of `values`; zero where there is none.
pub open spec fn spec_first_seed(values: Seq<u32>) -> u32
    decreases values.len(),
{
    if values.len() == 0 {
        0
    } else if values.len() == 1 {
        values[0]
    } else if values.last() < spec_first_seed(values.drop_last()) {
        values.last()
    } else {
        spec_first_seed(values.drop_last())
    }
}

/// The greatest of `values`; zero where there is none.
pub open spec fn spec_last_seed(values: Seq<u32>) -> u32
    decreases values.len(),
{
    if values.len() == 0 {
        0
    } else if values.len() == 1 {
        values[0]
    } else if values.last() > spec_last_seed(values.drop_last()) {
        values.last()
    } else {
        spec_last_seed(values.drop_last())
    }
}

/// What a run for `num_runs` records has to do, given the progress of its
/// file: nothing where the file holds that many records; the seeds among
/// `1..=num_runs` that the file does not hold; a new start where the file
/// disagrees with the configuration; and an end where the progress is not
/// known.
pub open spec fn spec_plan_model_simulation(
    progress: Result<(nat, Seq<u32>), StorageError>,
    num_runs: usize,
) -> SimulationPlanView {
    match progress {
        Err(e) => if e.spec_is_mismatch() {
            SimulationPlanView::Restart { reason: e }
        } else {
            SimulationPlanView::Abort { reason: e }
        },
        Ok((completed_runs, completed_seeds)) => if completed_runs >= num_runs {
            SimulationPlanView::Completed
        } else if spec_remaining_seeds((num_runs as u32) as nat, completed_seeds).len() == 0 {
            SimulationPlanView::NothingLeft
        } else {
            SimulationPlanView::Compute {
                completed_runs,
                first_seed: spec_first_seed(completed_seeds),
                last_seed: spec_last_seed(completed_seeds),
                remaining_seeds: spec_remaining_seeds((num_runs as u32) as nat, completed_seeds),
            }
        },
    }
}

/// The progress that `check_append_progress` returns, as plain values.
pub open spec fn spec_progress_view(progress: Result<(usize, Vec<u32>), StorageError>) -> Result<
    (nat, Seq<u32>),
    StorageError,
> {
    match progress {
        Ok((completed_runs, completed_seeds)) => Ok((completed_runs as nat, completed_seeds@)),
        Err(e) => Err(e),
    }
}

/// The first seed is the least and the last seed the greatest of the seeds.
pub proof fn lemma_seed_range(values: Seq<u32>)
    requires
        values.len() > 0,
    ensures
        values.contains(spec_first_seed(values)),
        values.contains(spec_last_seed(values)),
        forall|i: int|
            0 <= i < values.len() ==> spec_first_seed(values) <= #[trigger] values[i]
                <= spec_last_seed(values),
    decreases values.len(),
{
    if values.len() > 1 {
        let front = values.drop_last();
        lemma_seed_range(front);
        let i = choose|i: int| 0 <= i < front.len() && front[i] == spec_first_seed(front);
        assert(values[i] == spec_first_seed(front));
        let j = choose|j: int| 0 <= j < front.len() && front[j] == spec_last_seed(front);
        assert(values[j] == spec_last_seed(front));
        assert(values[values.len() - 1] == values.last());
        assert forall|k: int| 0 <= k < values.len() implies spec_first_seed(values)
            <= #[trigger] values[k] <= spec_last_seed(values) by {
            if k < front.len() {
                assert(front[k] == values[k]);
            }
        }
    } else {
        assert(values[0] == spec_first_seed(values));
    }
}

/// The number of batches of `batch_size` that `total` items fill, the last
/// one perhaps in part.
pub open spec fn spec_batch_count(total: nat, batch_size: nat) -> nat {
    if total % batch_size == 0 {
        total / batch_size
    } else {
        total / batch_size + 1
    }
}

/// Where the batch `index` starts and where it ends.
pub open spec fn spec_batch_bounds(total: nat, batch_size: nat, index: nat) -> (nat, nat) {
    (
        index * batch_size,
        if (index + 1) * batch_size < total {
            (index + 1) * batch_size
        } else {
            total
        },
    )
}

/// The batches follow each other without a gap from the first item to the
/// last, none is empty and none holds more than `batch_size` items.
pub proof fn lemma_batches_tile(total: nat, batch_size: nat, index: nat)
    requires
        batch_size > 0,
        index < spec_batch_count(total, batch_size),
    ensures
        spec_batch_bounds(total, batch_size, 0).0 == 0,
        spec_batch_bounds(total, batch_size, index).0 < spec_batch_bounds(
            total,
            batch_size,
            index,
        ).1 <= total,
        spec_batch_bounds(total, batch_size, index).1 - spec_batch_bounds(
            total,
            batch_size,
            index,
        ).0 <= batch_size,
        index + 1 < spec_batch_count(total, batch_size) ==> spec_batch_bounds(
            total,
            batch_size,
            index,
        ).1 == spec_batch_bounds(total, batch_size, index + 1).0,
        index + 1 == spec_batch_count(total, batch_size) ==> spec_batch_bounds(
            total,
            batch_size,
            index,
        ).1 == total,
{
    let count = spec_batch_count(total, batch_size);
    vstd::arithmetic::div_mod::lemma_fundamental_div_mod(total as int, batch_size as int);
    let q = total / batch_size;
    assert(total == batch_size * q + total % batch_size);
    assert(0 * batch_size == 0);
    assert((index + 1) * batch_size == index * batch_size + batch_size) by (nonlinear_arith);
    assert((index + 2) * batch_size == index * batch_size + 2 * batch_size) by (nonlinear_arith);
    if index < q {
        assert(index * batch_size + batch_size <= q * batch_size) by (nonlinear_arith)
            requires
                index + 1 <= q,
        ;
        assert(q * batch_size == batch_size * q) by (nonlinear_arith);
    } else {
        assert(index == q);
        assert(q * batch_size == batch_size * q) by (nonlinear_arith);
    }
    if index + 1 < count {
        assert(index + 1 <= q);
        if index + 1 < q {
            assert((index + 1) * batch_size + batch_size <= q * batch_size) by (nonlinear_arith)
                requires
                    index + 2 <= q,
            ;
        }
    }
}

/// The number of batches for `total` items.
pub fn batch_count(total: usize, batch_size: usize) -> (count: usize)
    requires
        batch_size > 0,
    ensures
        count == spec_batch_count(total as nat, batch_size as nat),
{
    if total % batch_size == 0 {
        total / batch_size
    } else {
        assert(2 * (total / batch_size) <= total) by (nonlinear_arith)
            requires
                batch_size >= 2,
        ;
        total / batch_size + 1
    }
}

/// The items of the batch `index`: from the first of the pair up to, and
/// without, the second.
pub fn batch_bounds(total: usize, batch_size: usize, index: usize) -> (bounds: (usize, usize))
    requires
        batch_size > 0,
        index < spec_batch_count(total as nat, batch_size as nat),
    ensures
        (bounds.0 as nat, bounds.1 as nat) == spec_batch_bounds(
            total as nat,
            batch_size as nat,
            index as nat,
        ),
        bounds.0 < bounds.1 <= total,
{
    proof {
        lemma_batches_tile(total as nat, batch_size as nat, index as nat);
        assert((index + 1) * batch_size == index * batch_size + batch_size) by (nonlinear_arith);
    }
    let start: usize = index * batch_size;
    let end: usize = if total - start > batch_size {
        start + batch_size
    } else {
        total
    };
    (start, end)
}

/// The least and the greatest of `seeds`; zero for both where there is none.
pub fn seed_range(seeds: &[u32]) -> (range: (u32, u32))
    ensures
        range == (spec_first_seed(seeds@), spec_last_seed(seeds@)),
{
    if seeds.len() == 0 {
        return (0, 0);
    }
    let mut first: u32 = seeds[0];
    let mut last: u32 = seeds[0];
    let mut i: usize = 1;
    while i < seeds.len()
        invariant
            1 <= i <= seeds.len(),
            first == spec_first_seed(seeds@.subrange(0, i as int)),
            last == spec_last_seed(seeds@.subrange(0, i as int)),
        decreases seeds.len() - i,
    {
        if seeds[i] < first {
            first = seeds[i];
        }
        if seeds[i] > last {
            last = seeds[i];
        }
        i = i + 1;
        assert(seeds@.subrange(0, i as int).drop_last() =~= seeds@.subrange(0, i - 1));
    }
    assert(seeds@.subrange(0, i as int) =~= seeds@);
    (first, last)
}

/// Decides what a run for `num_runs` records has to do.
///
/// `progress` is what `check_append_progress` says of the file. A file that
/// disagrees with the configuration is to be removed, and the run planned
/// again; any other error ends the run.
pub fn plan_model_simulation(progress: Result<(usize, Vec<u32>), StorageError>, num_runs: usize)
    -> (plan: SimulationPlan)
    ensures
        plan@ == spec_plan_model_simulation(spec_progress_view(progress), num_runs),
{
    match progress {
        Err(e) => {
            if e.is_mismatch() {
                SimulationPlan::Restart { reason: e }
            } else {
                SimulationPlan::Abort { reason: e }
            }
        },
        Ok((completed_runs, completed_seeds)) => {
            if completed_runs >= num_runs {
                return SimulationPlan::Completed;
            }
            let (first_seed, last_seed) = seed_range(completed_seeds.as_slice());
            let remaining_seeds = get_remaining_seeds(num_runs, completed_seeds.as_slice());
            if remaining_seeds.len() == 0 {
                return SimulationPlan::NothingLeft;
            }
            SimulationPlan::Compute { completed_runs, first_seed, last_seed, remaining_seeds }
        },
    }
}

/// Looks at the file that a run has written and says whether it holds
/// `expected_count` records.
pub fn validate_output_file(bytes: &[u8], expected_count: usize) -> (verdict: OutputValidation)
    ensures
        match spec_read_append_file(bytes@) {
            Ok((records, _, _, _)) => if records.len() == expected_count {
                verdict is Successful
            } else {
                verdict == (OutputValidation::LengthMismatch {
                    expected: expected_count,
                    actual: records.len() as usize,
                })
            },
            Err(StorageError::FormatMismatch) => verdict is FormatIncompatible,
            Err(e) => verdict == (OutputValidation::ReadFailed { reason: e }),
        },
{
    match read_append_file(bytes) {
        Ok((loaded_data, _model, _dim, _steps)) => {
            if loaded_data.len() == expected_count {
                OutputValidation::Successful
            } else {
                OutputValidation::LengthMismatch {
                    expected: expected_count,
                    actual: loaded_data.len(),
                }
            }
        },
        Err(StorageError::FormatMismatch) => OutputValidation::FormatIncompatible,
        Err(e) => OutputValidation::ReadFailed { reason: e },
    }
}

} // verus!
