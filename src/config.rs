//! The settings of one run, and turning them into a sampling engine.
use vstd::prelude::*;

use crate::engine::{config_verdict, SampleError, SamplingEngine};
use crate::filter::first_position;

verus! {

/// What the user asked for.
pub struct Settings {
    /// The number of records to keep.
    pub sample_count: usize,
    /// The column with the weights; without it every weight is 1.
    pub weights: Option<String>,
    /// Identifiers of records that are always kept.
    pub forced: Vec<String>,
    /// Identifiers of records that are never kept.
    pub exclude: Vec<String>,
    /// The identifier column; without it the first column.
    pub id_col: Option<String>,
}

/// A run as configured, before the input's header is known.
pub struct DataProc {
    pub args: Settings,
}

impl DataProc {
    /// A run with these settings.
    pub fn new(args: Settings) -> (r: DataProc)
        ensures
            r.args == args,
    {
        DataProc { args }
    }

    /// Checks the settings against the input's header and starts the run:
    /// fails exactly as `SamplingEngine::new` does on them.
    pub fn process_args(self, headers: &Vec<String>) -> (r: Result<SamplingEngine, SampleError>)
        ensures
            r is Ok <==> config_verdict(
                self.args.sample_count,
                headers@,
                self.args.weights,
                self.args.id_col,
            ) is None,
            config_verdict(self.args.sample_count, headers@, self.args.weights, self.args.id_col) matches Some(
                p,
            ) ==> r == Err::<SamplingEngine, SampleError>(SampleError::Configuration(p)),
            r matches Ok(e) ==> {
                &&& e.wf()
                &&& e.cap() == self.args.sample_count
                &&& e.width == headers@.len()
                &&& e.forced@ == self.args.forced@
                &&& e.exclude@ == self.args.exclude@
                &&& e.arrivals == 0
                &&& e.failure is None
                &&& e.offered@ == Seq::<crate::selector::Candidate>::empty()
                &&& e.held().len() == 0
                &&& (self.args.weights matches Some(w) ==> e.weight_col matches Some(c)
                    && first_position(headers@, w@, c as int))
                &&& (self.args.weights is None ==> e.weight_col is None)
                &&& (self.args.id_col matches Some(n) ==> first_position(headers@, n@, e.id_col as int))
                &&& (self.args.id_col is None ==> e.id_col == 0)
            },
    {
        let a = self.args;
        SamplingEngine::new(a.sample_count, headers, a.weights, a.id_col, a.forced, a.exclude)
    }
}

} // verus!
