//! One simulation: a model, a dimension, a number of steps and a number of
//! runs, with the file that belongs to them.

use vstd::prelude::*;
use vstd::string::*;
use super::error::StorageError;
use super::parallel_compute::{
    plan_model_simulation,
    spec_plan_model_simulation,
    SimulationPlan,
};
use super::progress::{check_append_progress, spec_check_append_progress};
use super::reader::{read_append_file, records_view, spec_file_content, spec_read_append_file};
use super::thread_manager::WriterConfig;
use crate::display_utils::{push_decimal, spec_decimal};
use crate::johansen_models::JohansenModel;

verus! {

/// The parameters of a simulation.
#[derive(Debug, Clone)]
pub struct EigenvalueSimulation {
    /// The model of the Johansen test.
    pub model: JohansenModel,
    /// The dimension of the process.
    pub dim: usize,
    /// The number of time steps of a run.
    pub steps: usize,
    /// The number of runs, with the seeds from 1 to this number.
    pub num_runs: usize,
}

/// The records of `records` whose seed is `limit` at most, in their order.
pub open spec fn spec_records_up_to(records: Seq<(u32, Seq<u64>)>, limit: u32) -> Seq<
    (u32, Seq<u64>),
>
    decreases records.len(),
{
    if records.len() == 0 {
        Seq::empty()
    } else {
        let before = spec_records_up_to(records.drop_last(), limit);
        if records.last().0 <= limit {
            before.push(records.last())
        } else {
            before
        }
    }
}

/// The name of the file of a model, a dimension and a number of steps. The
/// number of runs is no part of it, so that a run for more records goes on
/// with the same file.
pub open spec fn spec_file_name(model: JohansenModel, dim: usize, steps: usize) -> Seq<char> {
    "eigenvalues_model"@ + model.spec_digit() + "_dim"@ + spec_decimal(dim as nat) + "_steps"@
        + spec_decimal(steps as nat) + ".dat"@
}

/// What `read_data` makes of what a file holds.
pub open spec fn spec_read_data(
    read: Result<(Seq<(u32, Seq<u64>)>, u8, u8, u32), StorageError>,
    num_runs: usize,
) -> Result<Seq<(u32, Seq<u64>)>, StorageError> {
    match read {
        Err(e) => Err(e),
        Ok((records, _, _, _)) => {
            let expected = spec_records_up_to(records, num_runs as u32);
            if expected.len() == num_runs {
                Ok(expected)
            } else {
                Err(
                    StorageError::DataCountMismatch {
                        expected: num_runs,
                        found: expected.len() as usize,
                    },
                )
            }
        },
    }
}

/// Keeps the records whose seed is `limit` at most.
fn records_up_to(data: Vec<(u32, Vec<u64>)>, limit: u32) -> (kept: Vec<(u32, Vec<u64>)>)
    ensures
        records_view(kept@) == spec_records_up_to(records_view(data@), limit),
{
    let ghost all = records_view(data@);
    let mut reversed: Vec<(u32, Vec<u64>)> = Vec::new();
    let mut data = data;
    // from the back, so that every record is moved and none is copied
    assert(all.subrange(0, data.len() as int) =~= all);
    while data.len() > 0
        invariant
            data.len() <= all.len(),
            records_view(data@) == all.subrange(0, data.len() as int),
            spec_records_up_to(all, limit) == spec_records_up_to(records_view(data@), limit)
                + records_view(reversed@).reverse(),
        decreases data.len(),
    {
        let ghost before = records_view(data@);
        let ghost tail = records_view(reversed@).reverse();
        let record = data.pop().unwrap();
        proof {
            assert(records_view(data@) =~= before.drop_last());
            assert(records_view(data@) =~= all.subrange(0, data.len() as int));
            assert(before.last() == (record.0, record.1@));
        }
        if record.0 <= limit {
            let ghost kept_view = (record.0, record.1@);
            reversed.push(record);
            proof {
                assert(records_view(reversed@).reverse() =~= seq![kept_view] + tail);
                assert(spec_records_up_to(before.drop_last(), limit).push(kept_view) + tail
                    =~= spec_records_up_to(before.drop_last(), limit) + (seq![kept_view] + tail));
            }
        }
    }
    let mut kept: Vec<(u32, Vec<u64>)> = Vec::new();
    let ghost turned = records_view(reversed@);
    assert(turned.subrange(0, reversed.len() as int) =~= turned);
    assert(spec_records_up_to(records_view(data@), limit) =~= Seq::empty());
    assert(turned.reverse() =~= spec_records_up_to(all, limit));
    while reversed.len() > 0
        invariant
            reversed.len() <= turned.len(),
            records_view(reversed@) == turned.subrange(0, reversed.len() as int),
            records_view(kept@) == turned.subrange(
                reversed.len() as int,
                turned.len() as int,
            ).reverse(),
        decreases reversed.len(),
    {
        let ghost so_far = records_view(kept@);
        let ghost left = records_view(reversed@);
        let record = reversed.pop().unwrap();
        let ghost moved = (record.0, record.1@);
        kept.push(record);
        proof {
            assert(left.last() == moved);
            assert(records_view(reversed@) =~= turned.subrange(0, reversed.len() as int));
            assert(records_view(kept@) =~= so_far.push(moved));
            assert(records_view(kept@) =~= turned.subrange(
                reversed.len() as int,
                turned.len() as int,
            ).reverse());
        }
    }
    assert(turned.subrange(0, turned.len() as int) =~= turned);
    kept
}

impl EigenvalueSimulation {
    /// A simulation with these parameters.
    pub fn new(model: JohansenModel, dim: usize, steps: usize, num_runs: usize) -> (simulation:
        Self)
        ensures
            simulation.model == model,
            simulation.dim == dim,
            simulation.steps == steps,
            simulation.num_runs == num_runs,
    {
        EigenvalueSimulation { model, dim, steps, num_runs }
    }

    /// The name of the file for `model`, with the dimension and the steps of
    /// this simulation: `eigenvalues_model2_dim5_steps1000.dat`.
    pub fn file_name(&self, model: JohansenModel) -> (name: String)
        ensures
            name@ == spec_file_name(model, self.dim, self.steps),
    {
        let mut name = String::from_str("eigenvalues_model");
        name.append(model.digit());
        name.append("_dim");
        push_decimal(&mut name, self.dim);
        name.append("_steps");
        push_decimal(&mut name, self.steps);
        name.append(".dat");
        name
    }

    /// Decides what a run of this simulation has to do, given its file:
    /// nothing, the seeds that are left, or a new start where the file belongs
    /// to another configuration.
    pub fn plan_simulation(&self, existing: Option<&[u8]>) -> (plan: SimulationPlan)
        ensures
            plan@ == spec_plan_model_simulation(
                spec_check_append_progress(
                    spec_file_content(existing),
                    self.model.spec_to_number(),
                    self.dim as u8,
                    self.steps as u32,
                ),
                self.num_runs,
            ),
    {
        let progress = check_append_progress(
            existing,
            self.model.to_number(),
            self.dim as u8,
            self.steps as u32,
        );
        plan_model_simulation(progress, self.num_runs)
    }

    /// What the writing thread of a run of this simulation is told.
    pub fn writer_config(&self, filename: String, completed_runs: usize, quiet: bool) -> (config:
        WriterConfig)
        ensures
            config.filename == filename,
            config.total_runs == self.num_runs,
            config.completed_runs == completed_runs,
            config.dim == self.dim,
            config.steps == self.steps,
            config.model == self.model,
            config.quiet == quiet,
    {
        WriterConfig {
            filename,
            total_runs: self.num_runs,
            completed_runs,
            dim: self.dim,
            steps: self.steps,
            model: self.model,
            quiet,
        }
    }

    /// All records of the file of this simulation, in file order, which need
    /// not be the order of the seeds.
    pub fn read_all_data(&self, bytes: &[u8]) -> (result: Result<
        Vec<(u32, Vec<u64>)>,
        StorageError,
    >)
        ensures
            match result {
                Ok(data) => spec_read_append_file(bytes@) is Ok && spec_read_append_file(
                    bytes@,
                )->Ok_0.0 == records_view(data@),
                Err(e) => spec_read_append_file(bytes@) == Err::<
                    (Seq<(u32, Seq<u64>)>, u8, u8, u32),
                    StorageError,
                >(e),
            },
    {
        match read_append_file(bytes) {
            Ok((data, _model, _dim, _steps)) => Ok(data),
            Err(e) => Err(e),
        }
    }

    /// The records of the file of this simulation whose seed is within the
    /// number of runs, in file order. Another number of such records than the
    /// number of runs is an error: the simulation is not complete.
    pub fn read_data(&self, bytes: &[u8]) -> (result: Result<Vec<(u32, Vec<u64>)>, StorageError>)
        ensures
            match result {
                Ok(data) => spec_read_data(spec_read_append_file(bytes@), self.num_runs) == Ok::<
                    Seq<(u32, Seq<u64>)>,
                    StorageError,
                >(records_view(data@)),
                Err(e) => spec_read_data(spec_read_append_file(bytes@), self.num_runs) == Err::<
                    Seq<(u32, Seq<u64>)>,
                    StorageError,
                >(e),
            },
    {
        let all_data = match self.read_all_data(bytes) {
            Ok(data) => data,
            Err(e) => {
                return Err(e);
            },
        };
        let filtered_data = records_up_to(all_data, self.num_runs as u32);
        if filtered_data.len() != self.num_runs {
            return Err(
                StorageError::DataCountMismatch {
                    expected: self.num_runs,
                    found: filtered_data.len(),
                },
            );
        }
        Ok(filtered_data)
    }
}

} // verus!
