//! The files that one run of the solver reads and writes.
use vstd::prelude::*;

verus! {

/// The file to read graphs from and, where there is one, the file to write
/// the answers to.
#[derive(Debug)]
pub struct PingPongArguments {
    /// The file to read graphs from.
    pub input_file: String,
    /// The file to write the answers to. Without one they are printed.
    pub output_file: Option<String>,
}

impl PingPongArguments {
    /// The arguments with the given names of files.
    pub fn new(input_file: &str, output_file: Option<String>) -> (args: Self)
        ensures
            args.input_file@ == input_file@,
            args.output_file == output_file,
    {
        PingPongArguments { input_file: input_file.to_owned(), output_file }
    }

    /// What the options of the command line ask for: nothing where help is
    /// asked for or no input file is named, else the named files.
    pub fn from_options(help: bool, input: Option<String>, output: Option<String>) -> (args: Option<Self>)
        ensures
            args is Some <==> !help && input is Some,
            args is Some ==> args->Some_0.input_file == input->Some_0 && args->Some_0.output_file == output,
    {
        if help {
            return None;
        }
        match input {
            Some(input_file) => Some(PingPongArguments { input_file, output_file: output }),
            None => None,
        }
    }
}

} // verus!
