//! The assembler's settings.

use vstd::prelude::*;
use vstd::string::StringExecFns;

verus! {

/// The settings given on the command line.
#[derive(Debug, PartialEq, Eq)]
pub struct Args {
    /// Output file for the binary.
    pub output: Option<String>,
    /// Path to the input.
    pub file: Option<String>,
    /// Verbose output.
    pub verbose: bool,
    /// Debugging output.
    pub debug: bool,
}

/// The view of an optional string.
pub open spec fn opt_string_view(o: Option<String>) -> Option<Seq<char>> {
    match o {
        Some(s) => Some(s@),
        None => None,
    }
}

/// The given string, or `default` when none was given.
fn or_default(given: Option<String>, default: &str) -> (r: String)
    ensures
        r@ == match given {
            Some(s) => s@,
            None => default@,
        },
{
    match given {
        Some(s) => s,
        None => String::from_str(default),
    }
}

/// The configuration made from the command-line settings: the input file
/// defaults to `main.asm` and the output file to `main`.
pub fn declare_config(cli: Args) -> (r: Args)
    ensures
        opt_string_view(r.file) == Some(
            match cli.file {
                Some(f) => f@,
                None => "main.asm"@,
            },
        ),
        opt_string_view(r.output) == Some(
            match cli.output {
                Some(o) => o@,
                None => "main"@,
            },
        ),
        r.verbose == cli.verbose,
        r.debug == cli.debug,
{
    let file = or_default(cli.file, "main.asm");
    let output = or_default(cli.output, "main");
    Args { file: Some(file), output: Some(output), verbose: cli.verbose, debug: cli.debug }
}

} // verus!
