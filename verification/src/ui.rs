//! What a front end needs to run the harness as a child process of its own.

use vstd::prelude::*;

verus! {

/// The arguments of the child process: it shows the answers as they come,
/// writes the records to `output_path`, and reads the input document from its
/// standard input. Where the GPU is asked for, that flag comes first.
pub open spec fn child_command_line(output_path: Seq<char>, use_gpu: bool) -> Seq<Seq<char>> {
    let run = seq!["--show-output"@, "--output"@, output_path, "run"@, "-"@];
    if use_gpu {
        seq!["--use-gpu"@] + run
    } else {
        run
    }
}

/// The arguments with which a front end starts the harness as a child
/// process.
pub fn child_arguments(output_path: &str, use_gpu: bool) -> (arguments: Vec<String>)
    ensures
        arguments.deep_view() == child_command_line(output_path@, use_gpu),
{
    let mut arguments: Vec<String> = Vec::new();
    if use_gpu {
        arguments.push(String::from_str("--use-gpu"));
    }
    arguments.push(String::from_str("--show-output"));
    arguments.push(String::from_str("--output"));
    arguments.push(String::from_str(output_path));
    arguments.push(String::from_str("run"));
    arguments.push(String::from_str("-"));
    arguments
}

} // verus!
