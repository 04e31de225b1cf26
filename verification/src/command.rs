//! The command line: at most one flag and one free-text query.

use vstd::prelude::*;
use vstd::string::*;
use crate::text::{same_text, texts};

verus! {

/// What the user asks for.
#[derive(Clone, Copy, Debug, PartialEq, Eq, Structural)]
pub enum Command {
    Load,
    Save,
    Delete,
    View,
    Open,
    Edit,
    Reset,
    Help,
}

/// Why a command line is refused.
#[derive(Debug)]
pub enum ArgsError {
    /// More than a flag and a query were given.
    TooManyArguments,
    /// The first argument begins with `-` and is no known flag.
    UnrecognizedArgument(String),
}

/// The mathematical content of an `ArgsError`.
pub enum ArgsFault {
    TooManyArguments,
    UnrecognizedArgument(Seq<char>),
}

impl View for ArgsError {
    type V = ArgsFault;

    open spec fn view(&self) -> ArgsFault {
        match self {
            ArgsError::TooManyArguments => ArgsFault::TooManyArguments,
            ArgsError::UnrecognizedArgument(flag) => ArgsFault::UnrecognizedArgument(flag@),
        }
    }
}

/// The text of the error, as it is shown to the user.
pub open spec fn args_message(fault: ArgsFault) -> Seq<char> {
    match fault {
        ArgsFault::TooManyArguments => "Too many arguments provided"@,
        ArgsFault::UnrecognizedArgument(flag) => "Unrecognized argument provided: "@ + flag,
    }
}

impl ArgsError {
    /// The text of the error, as it is shown to the user.
    pub fn message(&self) -> (text: String)
        ensures
            text@ == args_message(self@),
    {
        match self {
            ArgsError::TooManyArguments => String::from_str("Too many arguments provided"),
            ArgsError::UnrecognizedArgument(flag) => {
                let mut text = String::from_str("Unrecognized argument provided: ");
                text.append(flag.as_str());
                text
            },
        }
    }
}

/// An argument is a flag when it begins with `-`.
pub open spec fn is_flag(arg: Seq<char>) -> bool {
    arg.len() > 0 && arg[0] == '-'
}

/// The command that a flag stands for.
pub open spec fn flag_command(flag: Seq<char>) -> Option<Command> {
    if flag == "-h"@ || flag == "--help"@ {
        Some(Command::Help)
    } else if flag == "-s"@ || flag == "--save"@ {
        Some(Command::Save)
    } else if flag == "-d"@ || flag == "--delete"@ {
        Some(Command::Delete)
    } else if flag == "-v"@ || flag == "--view"@ {
        Some(Command::View)
    } else if flag == "-o"@ || flag == "--open"@ {
        Some(Command::Open)
    } else if flag == "-e"@ || flag == "--edit"@ {
        Some(Command::Edit)
    } else if flag == "--reset"@ {
        Some(Command::Reset)
    } else {
        None
    }
}

/// Whether the first argument after the program's name is a flag.
pub open spec fn has_flag(args: Seq<Seq<char>>) -> bool {
    args.len() > 1 && is_flag(args[1])
}

/// The query: the argument after the flag, or the first one where there is no
/// flag; empty where none is given.
pub open spec fn query_of(args: Seq<Seq<char>>) -> Seq<char> {
    let at: int = if has_flag(args) { 2 } else { 1 };
    if at < args.len() {
        args[at]
    } else {
        Seq::<char>::empty()
    }
}

/// The reading of a command line whose first element is the program's name.
/// More than three elements are too many; a flag must be known; without a flag
/// the command is `Load`.
pub open spec fn parse_spec(args: Seq<Seq<char>>) -> Result<(Command, Seq<char>), ArgsFault> {
    if args.len() > 3 {
        Err(ArgsFault::TooManyArguments)
    } else if has_flag(args) {
        match flag_command(args[1]) {
            Some(command) => Ok((command, query_of(args))),
            None => Err(ArgsFault::UnrecognizedArgument(args[1])),
        }
    } else {
        Ok((Command::Load, query_of(args)))
    }
}

fn begins_with_dash(arg: &str) -> (dash: bool)
    ensures
        dash == is_flag(arg@),
{
    if arg.is_empty() {
        false
    } else {
        arg.get_char(0) == '-'
    }
}

fn command_of_flag(flag: &str) -> (command: Option<Command>)
    ensures
        command == flag_command(flag@),
{
    if same_text(flag, "-h") || same_text(flag, "--help") {
        Some(Command::Help)
    } else if same_text(flag, "-s") || same_text(flag, "--save") {
        Some(Command::Save)
    } else if same_text(flag, "-d") || same_text(flag, "--delete") {
        Some(Command::Delete)
    } else if same_text(flag, "-v") || same_text(flag, "--view") {
        Some(Command::View)
    } else if same_text(flag, "-o") || same_text(flag, "--open") {
        Some(Command::Open)
    } else if same_text(flag, "-e") || same_text(flag, "--edit") {
        Some(Command::Edit)
    } else if same_text(flag, "--reset") {
        Some(Command::Reset)
    } else {
        None
    }
}

/// Reads the command line `args`, whose first element is the program's name.
pub fn parse_args(args: &Vec<String>) -> (parsed: Result<(Command, String), ArgsError>)
    ensures
        match parsed {
            Ok((command, query)) => parse_spec(texts(args@)) == Ok::<
                (Command, Seq<char>),
                ArgsFault,
            >((command, query@)),
            Err(error) => parse_spec(texts(args@)) == Err::<(Command, Seq<char>), ArgsFault>(
                error@,
            ),
        },
{
    if args.len() > 3 {
        return Err(ArgsError::TooManyArguments);
    }
    let flagged = args.len() > 1 && begins_with_dash(args[1].as_str());
    let command = if flagged {
        match command_of_flag(args[1].as_str()) {
            Some(command) => command,
            None => {
                return Err(ArgsError::UnrecognizedArgument(args[1].clone()));
            },
        }
    } else {
        Command::Load
    };
    let at: usize = if flagged { 2 } else { 1 };
    let query = if at < args.len() {
        args[at].clone()
    } else {
        String::new()
    };
    Ok((command, query))
}

} // verus!
