//! Resume planning: what a file already holds and which seeds are left.

use std::collections::HashSet;
use vstd::prelude::*;
use vstd::std_specs::hash::*;
use super::error::StorageError;
use super::reader::{
    parse_append_file,
    records_view,
    spec_file_content,
    spec_parse_file,
    spec_seeds,
    ParsedFile,
};

verus! {

broadcast use vstd::std_specs::hash::group_hash_axioms;

/// The first way in which a header differs from what the caller expects:
/// model, then dimension, then steps.
pub open spec fn spec_parameter_mismatch(
    file_model: u8,
    file_dim: u8,
    file_steps: u32,
    expected_model: u8,
    expected_dim: u8,
    expected_steps: u32,
) -> Option<StorageError> {
    if file_model != expected_model {
        Some(StorageError::ModelMismatch { file: file_model, expected: expected_model })
    } else if file_dim != expected_dim {
        Some(StorageError::DimensionMismatch { file: file_dim, expected: expected_dim })
    } else if file_steps != expected_steps {
        Some(StorageError::StepsMismatch { file: file_steps, expected: expected_steps })
    } else {
        None
    }
}

/// The progress that a file shows: nothing where there is no file or where it
/// cannot be read, an error where its header is not the expected one, and else
/// the number of its records and their seeds.
pub open spec fn spec_check_append_progress(
    existing: Option<Seq<u8>>,
    expected_model: u8,
    expected_dim: u8,
    expected_steps: u32,
) -> Result<(nat, Seq<u32>), StorageError> {
    match existing {
        None => Ok((0, Seq::empty())),
        Some(bytes) => match spec_parse_file(bytes) {
            Err(_) => Ok((0, Seq::empty())),
            Ok(parsed) => match spec_parameter_mismatch(
                parsed.model,
                parsed.dim,
                parsed.steps,
                expected_model,
                expected_dim,
                expected_steps,
            ) {
                Some(e) => Err(e),
                None => Ok((parsed.records.len(), spec_seeds(parsed.records))),
            },
        },
    }
}

/// The seeds `1..=limit` that `completed` does not hold, in ascending order.
pub open spec fn spec_remaining_seeds(limit: nat, completed: Seq<u32>) -> Seq<u32>
    decreases limit,
{
    if limit == 0 {
        Seq::empty()
    } else {
        let before = spec_remaining_seeds((limit - 1) as nat, completed);
        if completed.contains(limit as u32) {
            before
        } else {
            before.push(limit as u32)
        }
    }
}

/// The remaining seeds are exactly the seeds of `1..=limit` that are not
/// completed, each once, in ascending order.
pub proof fn lemma_remaining_seeds(limit: nat, completed: Seq<u32>)
    requires
        limit <= u32::MAX,
    ensures
        forall|seed: u32| #[trigger]
            spec_remaining_seeds(limit, completed).contains(seed) <==> 1 <= seed <= limit
                && !completed.contains(seed),
        forall|i: int, j: int|
            0 <= i < j < spec_remaining_seeds(limit, completed).len() ==> spec_remaining_seeds(
                limit,
                completed,
            )[i] < spec_remaining_seeds(limit, completed)[j],
        spec_remaining_seeds(limit, completed).len() <= limit,
    decreases limit,
{
    if limit > 0 {
        let before = spec_remaining_seeds((limit - 1) as nat, completed);
        let all = spec_remaining_seeds(limit, completed);
        lemma_remaining_seeds((limit - 1) as nat, completed);
        assert forall|seed: u32| #[trigger] all.contains(seed) <==> 1 <= seed <= limit
            && !completed.contains(seed) by {
            if completed.contains(limit as u32) {
            } else {
                if all.contains(seed) {
                    let i = choose|i: int| 0 <= i < all.len() && all[i] == seed;
                    if i < before.len() {
                        assert(before[i] == seed);
                        assert(before.contains(seed));
                    }
                }
                if 1 <= seed <= limit && !completed.contains(seed) {
                    if seed == limit {
                        assert(all[before.len() as int] == seed);
                    } else {
                        assert(before.contains(seed));
                        let i = choose|i: int| 0 <= i < before.len() && before[i] == seed;
                        assert(all[i] == seed);
                    }
                }
            }
        }
        assert forall|i: int, j: int| 0 <= i < j < all.len() implies all[i] < all[j] by {
            if j == before.len() {
                assert(before.contains(before[i]));
            }
        }
    }
}

/// Once the remaining seeds are done as well, every seed of `1..=limit` is
/// done, and nothing remains.
pub proof fn lemma_resume_completes(limit: nat, completed: Seq<u32>)
    requires
        limit <= u32::MAX,
    ensures
        forall|seed: u32|
            1 <= seed <= limit ==> #[trigger] (completed + spec_remaining_seeds(
                limit,
                completed,
            )).contains(seed),
        spec_remaining_seeds(limit, completed + spec_remaining_seeds(limit, completed)).len() == 0,
{
    let remaining = spec_remaining_seeds(limit, completed);
    let done = completed + remaining;
    lemma_remaining_seeds(limit, completed);
    assert forall|seed: u32| 1 <= seed <= limit implies #[trigger] done.contains(seed) by {
        if completed.contains(seed) {
            let i = choose|i: int| 0 <= i < completed.len() && completed[i] == seed;
            assert(done[i] == seed);
        } else {
            assert(remaining.contains(seed));
            let i = choose|i: int| 0 <= i < remaining.len() && remaining[i] == seed;
            assert(done[completed.len() + i] == seed);
        }
    }
    let left = spec_remaining_seeds(limit, done);
    lemma_remaining_seeds(limit, done);
    if left.len() > 0 {
        assert(left.contains(left[0]));
    }
}

/// The seeds from 1 to `limit` are as many as `limit` says.
pub proof fn lemma_seeds_up_to(limit: nat)
    requires
        limit <= u32::MAX,
    ensures
        Set::new(|seed: u32| 1 <= seed <= limit).finite(),
        Set::new(|seed: u32| 1 <= seed <= limit).len() == limit,
    decreases limit,
{
    broadcast use vstd::set::group_set_axioms;

    let seeds = Set::new(|seed: u32| 1 <= seed <= limit);
    if limit == 0 {
        assert(seeds =~= Set::<u32>::empty());
    } else {
        let before = Set::new(|seed: u32| 1 <= seed <= limit - 1);
        lemma_seeds_up_to((limit - 1) as nat);
        assert(seeds =~= before.insert(limit as u32));
    }
}

/// Where the completed seeds are seeds of `1..=limit`, each once, they and
/// the remaining seeds together are the seeds of `1..=limit`, each once: as
/// many as `limit` says, none twice, and none from elsewhere.
pub proof fn lemma_resume_holds_every_seed_once(limit: nat, completed: Seq<u32>)
    requires
        limit <= u32::MAX,
        completed.no_duplicates(),
        forall|i: int| 0 <= i < completed.len() ==> 1 <= #[trigger] completed[i] <= limit,
    ensures
        (completed + spec_remaining_seeds(limit, completed)).no_duplicates(),
        (completed + spec_remaining_seeds(limit, completed)).len() == limit,
        forall|seed: u32|
            #[trigger] (completed + spec_remaining_seeds(limit, completed)).contains(seed) <==> 1
                <= seed <= limit,
{
    let remaining = spec_remaining_seeds(limit, completed);
    let all = completed + remaining;
    lemma_remaining_seeds(limit, completed);
    lemma_resume_completes(limit, completed);
    assert forall|i: int, j: int| 0 <= i < all.len() && 0 <= j < all.len() && i != j implies all[i]
        != all[j] by {
        if i < completed.len() && j < completed.len() {
        } else if i >= completed.len() && j >= completed.len() {
            let a = i - completed.len();
            let b = j - completed.len();
            if a < b {
                assert(remaining[a] < remaining[b]);
            } else {
                assert(remaining[b] < remaining[a]);
            }
        } else if i < completed.len() {
            assert(remaining.contains(remaining[j - completed.len()]));
            assert(completed.contains(completed[i]));
        } else {
            assert(remaining.contains(remaining[i - completed.len()]));
            assert(completed.contains(completed[j]));
        }
    }
    assert forall|seed: u32| #[trigger] all.contains(seed) <==> 1 <= seed <= limit by {
        if all.contains(seed) {
            let i = choose|i: int| 0 <= i < all.len() && all[i] == seed;
            if i >= completed.len() {
                assert(remaining.contains(remaining[i - completed.len()]));
            }
        }
    }
    lemma_seeds_up_to(limit);
    all.unique_seq_to_set();
    assert(all.to_set() =~= Set::new(|seed: u32| 1 <= seed <= limit));
}

/// The first way in which a header differs from what the caller expects.
pub fn check_parameters(
    file_model: u8,
    file_dim: u8,
    file_steps: u32,
    expected_model: u8,
    expected_dim: u8,
    expected_steps: u32,
) -> (mismatch: Option<StorageError>)
    ensures
        mismatch == spec_parameter_mismatch(
            file_model,
            file_dim,
            file_steps,
            expected_model,
            expected_dim,
            expected_steps,
        ),
{
    if file_model != expected_model {
        Some(StorageError::ModelMismatch { file: file_model, expected: expected_model })
    } else if file_dim != expected_dim {
        Some(StorageError::DimensionMismatch { file: file_dim, expected: expected_dim })
    } else if file_steps != expected_steps {
        Some(StorageError::StepsMismatch { file: file_steps, expected: expected_steps })
    } else {
        None
    }
}

/// The seeds of `data`, in order.
pub fn completed_seeds(data: &Vec<(u32, Vec<u64>)>) -> (seeds: Vec<u32>)
    ensures
        seeds@ == spec_seeds(records_view(data@)),
{
    let mut seeds: Vec<u32> = Vec::new();
    let mut i: usize = 0;
    while i < data.len()
        invariant
            i <= data.len(),
            seeds@ == spec_seeds(records_view(data@)).subrange(0, i as int),
        decreases data.len() - i,
    {
        seeds.push(data[i].0);
        i = i + 1;
        assert(seeds@ =~= spec_seeds(records_view(data@)).subrange(0, i as int));
    }
    assert(seeds@ =~= spec_seeds(records_view(data@)));
    seeds
}

/// Says how far the work recorded in a file has come: the number of records
/// and their seeds.
///
/// `existing` is the content of the file, `None` where there is no file. A
/// file that cannot be read counts as no progress, so that the work starts
/// over. A file whose header was written for another model, dimension or
/// number of steps is an error: it is someone else's data.
pub fn check_append_progress(
    existing: Option<&[u8]>,
    expected_model: u8,
    expected_dim: u8,
    expected_steps: u32,
) -> (result: Result<(usize, Vec<u32>), StorageError>)
    ensures
        match result {
            Ok((completed_runs, seeds)) => spec_check_append_progress(
                spec_file_content(existing),
                expected_model,
                expected_dim,
                expected_steps,
            ) == Ok::<(nat, Seq<u32>), StorageError>((completed_runs as nat, seeds@)),
            Err(e) => spec_check_append_progress(
                spec_file_content(existing),
                expected_model,
                expected_dim,
                expected_steps,
            ) == Err::<(nat, Seq<u32>), StorageError>(e),
        },
{
    match existing {
        None => Ok((0, Vec::new())),
        Some(bytes) => match parse_append_file(bytes) {
            Err(_) => Ok((0, Vec::new())),
            Ok(parsed) => {
                match check_parameters(
                    parsed.model,
                    parsed.dim,
                    parsed.steps,
                    expected_model,
                    expected_dim,
                    expected_steps,
                ) {
                    Some(e) => Err(e),
                    None => {
                        let seeds = completed_seeds(&parsed.data);
                        Ok((parsed.data.len(), seeds))
                    },
                }
            },
        },
    }
}

/// The seeds among `1..=total_runs` that are not in `completed_seeds`, in
/// ascending order. Seeds are 32 bits wide, and `total_runs` is taken at that
/// width.
pub fn get_remaining_seeds(total_runs: usize, completed_seeds: &[u32]) -> (remaining: Vec<u32>)
    ensures
        remaining@ == spec_remaining_seeds((total_runs as u32) as nat, completed_seeds@),
{
    let mut completed_set: HashSet<u32> = HashSet::new();
    let mut i: usize = 0;
    while i < completed_seeds.len()
        invariant
            i <= completed_seeds.len(),
            forall|seed: u32|
                completed_set@.contains(seed) <==> completed_seeds@.subrange(0, i as int).contains(
                    seed,
                ),
        decreases completed_seeds.len() - i,
    {
        let ghost before = completed_seeds@.subrange(0, i as int);
        completed_set.insert(completed_seeds[i]);
        i = i + 1;
        proof {
            let after = completed_seeds@.subrange(0, i as int);
            assert(after =~= before.push(completed_seeds@[i - 1]));
            assert forall|seed: u32| after.contains(seed) <==> before.contains(seed) || seed
                == completed_seeds@[i - 1] by {
                if after.contains(seed) {
                    let j = choose|j: int| 0 <= j < after.len() && after[j] == seed;
                    if j < before.len() {
                        assert(before[j] == seed);
                    }
                }
                if before.contains(seed) {
                    let j = choose|j: int| 0 <= j < before.len() && before[j] == seed;
                    assert(after[j] == seed);
                }
                if seed == completed_seeds@[i - 1] {
                    assert(after[i - 1] == seed);
                }
            }
        }
    }
    assert(completed_seeds@.subrange(0, i as int) =~= completed_seeds@);
    let limit: u32 = total_runs as u32;
    let mut remaining: Vec<u32> = Vec::new();
    let mut seed: u32 = 0;
    while seed < limit
        invariant
            seed <= limit,
            forall|s: u32| completed_set@.contains(s) <==> completed_seeds@.contains(s),
            remaining@ == spec_remaining_seeds(seed as nat, completed_seeds@),
        decreases limit - seed,
    {
        seed = seed + 1;
        if !completed_set.contains(&seed) {
            remaining.push(seed);
        }
    }
    remaining
}

} // verus!
