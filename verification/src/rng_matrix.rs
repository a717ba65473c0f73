//! How a matrix of random numbers is laid out for the worker pool: in how
//! many chunks it is filled, and with which seed each chunk starts.

use rand::Rng;
use rand::SeedableRng;
use rand_xoshiro::Xoshiro256PlusPlus;
use vstd::prelude::*;
use crate::matrix_utils::CumsumOrder;

verus! {

/// The generator that the seeds of the chunks are drawn from; nothing inside
/// it is known here.
#[verifier::external_type_specification]
#[verifier::external_body]
pub struct ExXoshiro256PlusPlus(Xoshiro256PlusPlus);

/// A chunk holds at least this many entries, unless there are cores to spare.
pub const MIN_CHUNK: usize = 10_000;

/// Along which side of the matrix time runs.
#[derive(Debug, Clone, Copy, PartialEq, Eq, Structural)]
pub enum TimeAxisDirection {
    /// A column per point in time.
    AlongColumns,
    /// A row per point in time.
    AlongRows,
}

/// How the entries of a matrix are shared out.
pub struct ChunkPlan {
    /// The number of entries of the matrix.
    pub total: usize,
    /// The size of every chunk but the last, which may be shorter.
    pub chunk_size: usize,
    /// The seed of each chunk, and by its length the number of chunks planned.
    pub seeds: Vec<u64>,
}

/// The number of chunks for `total` entries on `n_cpus` cores: one for every
/// `MIN_CHUNK` entries, at least one per core, and never more than entries.
pub open spec fn spec_chunk_count(total: nat, n_cpus: nat) -> nat {
    let by_size = total / (MIN_CHUNK as nat);
    let wanted = if by_size > n_cpus {
        by_size
    } else {
        n_cpus
    };
    if wanted < total {
        wanted
    } else {
        total
    }
}

/// The size of a chunk: `total` divided by the number of chunks, rounded up.
pub open spec fn spec_chunk_size(total: nat, chunk_count: nat) -> nat {
    ((total - 1) / (chunk_count as int) + 1) as nat
}

/// Calls `num_cpus::get_physical`: the number of physical cores, or of
/// logical cores where the former is not known. The number depends on the
/// machine, and nothing is claimed of it.
#[verifier::external_body]
fn physical_cores() -> usize {
    num_cpus::get_physical()
}

/// Calls `Xoshiro256PlusPlus::seed_from_u64` of `rand_xoshiro`: a generator
/// seeded from `seed`. Nothing is claimed of it.
#[verifier::external_body]
fn seeded_generator(seed: u64) -> Xoshiro256PlusPlus {
    Xoshiro256PlusPlus::seed_from_u64(seed)
}

/// Calls `Rng::random` of `rand` for a `u64`: the next number of the
/// generator. Nothing is claimed of it.
#[verifier::external_body]
fn next_seed(rng: &mut Xoshiro256PlusPlus) -> u64 {
    rng.random()
}

impl TimeAxisDirection {
    /// The order in which increments are summed up to paths: along the rows
    /// where time runs along the columns, and down the columns where it runs
    /// along the rows.
    pub fn to_cumsum_order(self) -> (order: CumsumOrder)
        ensures
            order == match self {
                TimeAxisDirection::AlongColumns => CumsumOrder::RowWise,
                TimeAxisDirection::AlongRows => CumsumOrder::ColumnWise,
            },
    {
        match self {
            TimeAxisDirection::AlongColumns => CumsumOrder::RowWise,
            TimeAxisDirection::AlongRows => CumsumOrder::ColumnWise,
        }
    }
}

/// The number of entries of a matrix of `nrows` by `ncols`; `None` where the
/// number does not fit.
pub fn matrix_len(nrows: usize, ncols: usize) -> (total: Option<usize>)
    ensures
        total == if nrows * ncols <= usize::MAX {
            Some((nrows * ncols) as usize)
        } else {
            None
        },
{
    if nrows == 0 || ncols == 0 {
        assert(nrows * ncols == 0) by (nonlinear_arith)
            requires
                nrows == 0 || ncols == 0,
        ;
        return Some(0);
    }
    if nrows > usize::MAX / ncols {
        assert(nrows * ncols > usize::MAX) by (nonlinear_arith)
            requires
                nrows > usize::MAX / ncols,
                ncols > 0,
        ;
        None
    } else {
        assert(nrows * ncols <= usize::MAX) by (nonlinear_arith)
            requires
                nrows <= usize::MAX / ncols,
                ncols > 0,
        ;
        Some(nrows * ncols)
    }
}

/// The number and the size of the chunks for `total` entries on `n_cpus`
/// cores. Chunks of that size cover the matrix, and there are at most as many
/// of them as planned.
pub fn chunk_layout(total: usize, n_cpus: usize) -> (layout: (usize, usize))
    requires
        total > 0,
        n_cpus > 0,
    ensures
        layout.0 == spec_chunk_count(total as nat, n_cpus as nat),
        layout.1 == spec_chunk_size(total as nat, layout.0 as nat),
        1 <= layout.0 <= total,
        1 <= layout.1 <= total,
        layout.0 * layout.1 >= total,
{
    let by_size: usize = total / MIN_CHUNK;
    let wanted: usize = if by_size > n_cpus {
        by_size
    } else {
        n_cpus
    };
    let chunk_count: usize = if wanted < total {
        wanted
    } else {
        total
    };
    let chunk_size: usize = (total - 1) / chunk_count + 1;
    proof {
        let q = (total - 1) / (chunk_count as int);
        vstd::arithmetic::div_mod::lemma_fundamental_div_mod(total - 1, chunk_count as int);
        vstd::arithmetic::div_mod::lemma_mod_bound(total - 1, chunk_count as int);
        assert(chunk_count * (q + 1) == chunk_count * q + chunk_count) by (nonlinear_arith);
        assert(q <= total - 1) by (nonlinear_arith)
            requires
                chunk_count * q <= total - 1,
                chunk_count >= 1,
                q >= 0,
        ;
    }
    (chunk_count, chunk_size)
}

/// Draws one seed per chunk from a generator that is seeded with `seed`.
pub fn derive_chunk_seeds(seed: u64, chunk_count: usize) -> (seeds: Vec<u64>)
    ensures
        seeds@.len() == chunk_count,
{
    let mut base_rng = seeded_generator(seed);
    let mut seeds: Vec<u64> = Vec::new();
    let mut i: usize = 0;
    while i < chunk_count
        invariant
            i <= chunk_count,
            seeds@.len() == i,
        decreases chunk_count - i,
    {
        let drawn: u64 = next_seed(&mut base_rng);
        seeds.push(drawn);
        i = i + 1;
    }
    seeds
}

/// Plans the filling of a matrix of `nrows` by `ncols` random numbers: the
/// chunks by the number of cores of this machine, and a seed for each. There
/// is no plan where the matrix has no entry or too many to count, nor where
/// the machine reports no core.
pub fn plan_normal_matrix(nrows: usize, ncols: usize, seed: u64) -> (plan: Option<ChunkPlan>)
    ensures
        match plan {
            Some(plan) => {
                &&& plan.total == nrows * ncols
                &&& plan.total > 0
                &&& 1 <= plan.chunk_size <= plan.total
                &&& 1 <= plan.seeds@.len() <= plan.total
                &&& plan.chunk_size == spec_chunk_size(plan.total as nat, plan.seeds@.len())
                &&& plan.seeds@.len() * plan.chunk_size >= plan.total
            },
            None => true,
        },
        nrows * ncols == 0 || nrows * ncols > usize::MAX ==> plan is None,
        exists|n_cpus: usize| spec_planned_on(plan, nrows, ncols, n_cpus),
{
    let n_cpus: usize = physical_cores();
    let plan = plan_chunks(nrows, ncols, seed, n_cpus);
    assert(spec_planned_on(plan, nrows, ncols, n_cpus));
    plan
}

/// Whether a matrix of `nrows` by `ncols` has a plan on a machine with
/// `n_cpus` cores: where it has an entry and no more than can be counted, and
/// the machine a core.
pub open spec fn spec_has_plan(nrows: usize, ncols: usize, n_cpus: usize) -> bool {
    0 < nrows * ncols <= usize::MAX && n_cpus > 0
}

/// Whether `plan` is the plan for a matrix of `nrows` by `ncols` on a machine
/// with `n_cpus` cores, whatever its seeds are: it counts the entries, has a
/// seed for each chunk, and the chunks have the size that shares the entries
/// out among them.
pub open spec fn spec_is_plan_for(plan: ChunkPlan, nrows: usize, ncols: usize, n_cpus: usize)
    -> bool {
    &&& plan.total == nrows * ncols
    &&& plan.seeds@.len() == spec_chunk_count(plan.total as nat, n_cpus as nat)
    &&& plan.chunk_size == spec_chunk_size(plan.total as nat, plan.seeds@.len())
}

/// Whether `plan` is what planning comes to on a machine with `n_cpus`
/// cores: the plan for that machine where the matrix has one there, and none
/// where it has none.
pub open spec fn spec_planned_on(
    plan: Option<ChunkPlan>,
    nrows: usize,
    ncols: usize,
    n_cpus: usize,
) -> bool {
    match plan {
        Some(plan) => spec_has_plan(nrows, ncols, n_cpus) && spec_is_plan_for(
            plan,
            nrows,
            ncols,
            n_cpus,
        ),
        None => !spec_has_plan(nrows, ncols, n_cpus),
    }
}

/// Plans the filling of a matrix of `nrows` by `ncols` random numbers on a
/// machine with `n_cpus` cores: a chunk for every `MIN_CHUNK` entries, at
/// least one per core and never more than entries, chunks of the size that
/// covers the matrix, and a seed for each chunk, drawn from a generator that
/// is seeded with `seed`. There is no plan where the matrix has no entry or
/// too many to count, nor on a machine without a core.
pub fn plan_chunks(nrows: usize, ncols: usize, seed: u64, n_cpus: usize) -> (plan: Option<
    ChunkPlan,
>)
    ensures
        spec_planned_on(plan, nrows, ncols, n_cpus),
        match plan {
            Some(plan) => {
                &&& plan.total > 0
                &&& 1 <= plan.chunk_size <= plan.total
                &&& 1 <= plan.seeds@.len() <= plan.total
                &&& plan.seeds@.len() * plan.chunk_size >= plan.total
            },
            None => true,
        },
{
    let total: usize = match matrix_len(nrows, ncols) {
        Some(total) => total,
        None => {
            return None;
        },
    };
    if total == 0 || n_cpus == 0 {
        return None;
    }
    let (chunk_count, chunk_size) = chunk_layout(total, n_cpus);
    let seeds = derive_chunk_seeds(seed, chunk_count);
    Some(ChunkPlan { total, chunk_size, seeds })
}

} // verus!
