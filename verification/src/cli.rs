//! The option set of the command-line front end. The front end itself
//! (argument parsing, default paths, files) lives outside the library;
//! these types carry its choices as plain values.

use vstd::prelude::*;

verus! {

/// The options shared by both subcommands.
pub struct CommonArgs {
    /// Path of the history store to read.
    pub input: String,
    /// Path of the JSON file to write.
    pub output: String,
    /// Whether an existing output file may be overwritten.
    pub force: bool,
}

/// Which query to run, with its options.
pub enum Commands {
    /// Extract page visits.
    Visit { args: CommonArgs },
    /// Extract aggregated search terms.
    Search { args: CommonArgs },
}

/// The options of whichever subcommand was given.
pub fn get_common_args(cmd: &Commands) -> (r: CommonArgs)
    ensures
        match *cmd {
            Commands::Visit { args } => r == args,
            Commands::Search { args } => r == args,
        },
{
    match cmd {
        Commands::Visit { args } => CommonArgs {
            input: args.input.clone(),
            output: args.output.clone(),
            force: args.force,
        },
        Commands::Search { args } => CommonArgs {
            input: args.input.clone(),
            output: args.output.clone(),
            force: args.force,
        },
    }
}

} // verus!
