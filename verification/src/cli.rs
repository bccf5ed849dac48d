//! The command-line dispatch: a closed set of commands, each carrying its
//! typed arguments, resolved from the raw argument list by exact name.

use vstd::prelude::*;
use crate::errors::ActError;

verus! {

/// The available commands.
pub enum Commands {
    /// Prints detailed information about a routine.
    Info { routine: String },
    /// Stages a routine's repository: adds its files and commits them.
    Stage { routine: String, message: Option<String> },
    /// Creates and registers a new routine file.
    Init { name: Option<String> },
    /// Synchronizes the routine library with the routine folder.
    Sync,
    /// Pushes a routine's repository to its remote.
    Throw,
    /// Pulls a routine's repository from its remote.
    Catch,
    /// Reverts a routine's repository to a previous commit.
    Wind,
}

/// The contents of a command.
pub enum CommandsV {
    Info { routine: Seq<char> },
    Stage { routine: Seq<char>, message: Option<Seq<char>> },
    Init { name: Option<Seq<char>> },
    Sync,
    Throw,
    Catch,
    Wind,
}

impl View for Commands {
    type V = CommandsV;

    open spec fn view(&self) -> CommandsV {
        match self {
            Commands::Info { routine } => CommandsV::Info { routine: routine@ },
            Commands::Stage { routine, message } => CommandsV::Stage {
                routine: routine@,
                message: crate::routine::view_opt(*message),
            },
            Commands::Init { name } => CommandsV::Init { name: crate::routine::view_opt(*name) },
            Commands::Sync => CommandsV::Sync,
            Commands::Throw => CommandsV::Throw,
            Commands::Catch => CommandsV::Catch,
            Commands::Wind => CommandsV::Wind,
        }
    }
}

/// The parsed command line.
pub struct Args {
    pub command: Commands,
}

/// Which command an argument list names: the word after the program name
/// picks the command, and the remaining words must fit its arguments
/// exactly.
pub open spec fn parse_args_spec(argv: Seq<Seq<char>>) -> Option<CommandsV> {
    if argv.len() < 2 {
        None
    } else {
        let c = argv[1];
        if c == "info"@ {
            if argv.len() == 3 {
                Some(CommandsV::Info { routine: argv[2] })
            } else {
                None
            }
        } else if c == "stage"@ {
            if argv.len() == 3 {
                Some(CommandsV::Stage { routine: argv[2], message: None })
            } else if argv.len() == 4 {
                Some(CommandsV::Stage { routine: argv[2], message: Some(argv[3]) })
            } else {
                None
            }
        } else if c == "init"@ {
            if argv.len() == 2 {
                Some(CommandsV::Init { name: None })
            } else if argv.len() == 3 {
                Some(CommandsV::Init { name: Some(argv[2]) })
            } else {
                None
            }
        } else if c == "sync"@ {
            if argv.len() == 2 {
                Some(CommandsV::Sync)
            } else {
                None
            }
        } else if c == "throw"@ {
            if argv.len() == 2 {
                Some(CommandsV::Throw)
            } else {
                None
            }
        } else if c == "catch"@ {
            if argv.len() == 2 {
                Some(CommandsV::Catch)
            } else {
                None
            }
        } else if c == "wind"@ {
            if argv.len() == 2 {
                Some(CommandsV::Wind)
            } else {
                None
            }
        } else {
            None
        }
    }
}

impl Args {
    /// Parses an argument list, the program's own name first.
    pub fn parse_from(args: Vec<&str>) -> (r: Result<Args, ActError>)
        ensures
            match parse_args_spec(args@.map_values(|s: &str| s@)) {
                Some(c) => r matches Ok(a) && a.command@ == c,
                None => r matches Err(e) && e is ParseError,
            },
    {
        let ghost argv = args@.map_values(|s: &str| s@);
        proof {
            assert(forall|i: int| 0 <= i < args@.len() ==> argv[i] == args@[i]@);
        }
        if args.len() < 2 {
            return Err(ActError::ParseError("usage".to_owned()));
        }
        let c: &str = args[1];
        if crate::text::string_eq(c, "info") {
            if args.len() == 3 {
                Ok(Args { command: Commands::Info { routine: args[2].to_owned() } })
            } else {
                Err(ActError::ParseError("info".to_owned()))
            }
        } else if crate::text::string_eq(c, "stage") {
            if args.len() == 3 {
                Ok(
                    Args {
                        command: Commands::Stage { routine: args[2].to_owned(), message: None },
                    },
                )
            } else if args.len() == 4 {
                Ok(
                    Args {
                        command: Commands::Stage {
                            routine: args[2].to_owned(),
                            message: Some(args[3].to_owned()),
                        },
                    },
                )
            } else {
                Err(ActError::ParseError("stage".to_owned()))
            }
        } else if crate::text::string_eq(c, "init") {
            if args.len() == 2 {
                Ok(Args { command: Commands::Init { name: None } })
            } else if args.len() == 3 {
                Ok(Args { command: Commands::Init { name: Some(args[2].to_owned()) } })
            } else {
                Err(ActError::ParseError("init".to_owned()))
            }
        } else if crate::text::string_eq(c, "sync") {
            if args.len() == 2 {
                Ok(Args { command: Commands::Sync })
            } else {
                Err(ActError::ParseError("sync".to_owned()))
            }
        } else if crate::text::string_eq(c, "throw") {
            if args.len() == 2 {
                Ok(Args { command: Commands::Throw })
            } else {
                Err(ActError::ParseError("throw".to_owned()))
            }
        } else if crate::text::string_eq(c, "catch") {
            if args.len() == 2 {
                Ok(Args { command: Commands::Catch })
            } else {
                Err(ActError::ParseError("catch".to_owned()))
            }
        } else if crate::text::string_eq(c, "wind") {
            if args.len() == 2 {
                Ok(Args { command: Commands::Wind })
            } else {
                Err(ActError::ParseError("wind".to_owned()))
            }
        } else {
            Err(ActError::ParseError("unknown command".to_owned()))
        }
    }
}

} // verus!
