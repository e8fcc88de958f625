//! The command-line surface: the values the argument parser hands over.

use vstd::prelude::*;

verus! {

/// The parsed command line: an optional configuration file, the input
/// files, and the identifier and pattern overrides.
pub struct Cli {
    pub config: Option<String>,
    pub input: Vec<String>,
    pub ecu_id: Option<String>,
    pub app_id: Option<String>,
    pub context_id: Option<String>,
    pub patterns: Vec<String>,
}

impl Cli {
    pub fn config(&self) -> (r: &Option<String>)
        ensures
            r == self.config,
    {
        &self.config
    }

    pub fn input(&self) -> (r: &Vec<String>)
        ensures
            r == self.input,
    {
        &self.input
    }
}

} // verus!
