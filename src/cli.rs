//! The settings that the command line gives.

use vstd::prelude::*;

verus! {

/// Where the XML files are read from and where the JSON files are written.
#[derive(Debug)]
pub struct Cli {
    /// The directory containing XML files to convert to JSON.
    pub input: String,
    /// The directory to output JSON to.
    pub output: String,
}

/// Builds the settings from the two positional arguments, input directory first.
pub fn get_args(input: String, output: String) -> (r: Cli)
    ensures
        r.input@ == input@,
        r.output@ == output@,
{
    Cli { input, output }
}

} // verus!
