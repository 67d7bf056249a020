use vstd::prelude::*;
use std::path::PathBuf;
use std::time::Duration;

use crate::solver::VerificationStatus;

verus! {

#[verifier::external_type_specification]
#[verifier::external_body]
pub struct ExPathBuf(PathBuf);

/// The program under verification: its text and its number of instructions.
pub struct ProgramInfo {
    pub program_str: String,
    pub program_len: usize,
}

/// The options of a verification run: the configuration file, the number
/// of trials, the report file, the method, the opcode, the range interval,
/// whether closures are blocked, the ablations (no heuristic, no
/// simplification, no refinement), whether the terminal view is off and
/// whether to stop at the first failed trial.
#[derive(Debug)]
pub struct Args {
    pub config: PathBuf,
    pub num_trial: usize,
    pub ouptput_path: PathBuf,
    pub method: String,
    pub opcode_str: String,
    pub range_interval: usize,
    pub blocking_closure: bool,
    pub no_heuristic: bool,
    pub no_simplify: bool,
    pub no_refinement: bool,
    pub turn_off_ui: bool,
    pub fail_fast: bool,
}

/// The outcome of a verification run: how the search ended, the number of
/// distinct solutions, the number of trials, the time taken and the area
/// covered by the solutions.
#[derive(Debug)]
pub struct VerificationResult {
    pub status: VerificationStatus,
    pub num_solutions: usize,
    pub num_total_trials: usize,
    pub execution_time: Duration,
    pub area: i128,
}

impl VerificationResult {
    /// The search ended with the constraints verified.
    pub fn is_verified(&self) -> (r: bool)
        ensures
            r == (self.status is Verified),
    {
        match self.status {
            VerificationStatus::Verified => true,
            _ => false,
        }
    }
}

} // verus!
