//! The two files that one run of the solver reads and writes.
use vstd::prelude::*;

verus! {

/// The file to read graphs from and the file to write the answers to.
#[derive(Debug)]
pub struct PingPongArguments {
    /// The file to read graphs from.
    pub input_file: String,
    /// The file to write the answers to.
    pub output_file: String,
}

impl PingPongArguments {
    /// The arguments with the given names of files.
    pub fn new(input_file: &str, output_file: &str) -> (args: Self)
        ensures
            args.input_file@ == input_file@,
            args.output_file@ == output_file@,
    {
        PingPongArguments { input_file: input_file.to_owned(), output_file: output_file.to_owned() }
    }
}

} // verus!
