//! The command line: from the list of arguments to the settings of a run.
//!
//! Nothing is printed and nothing exits here. The caller gets the settings,
//! a request for the help text, or the reason why the arguments were
//! refused.

use vstd::prelude::*;
use crate::text::{parse_usize, same_text, written_usize};

verus! {

/// The number of parallel downloads where `-j` is not given.
pub const DEFAULT_NUM_JOBS: usize = 500;

/// The settings of a run.
#[derive(Debug, PartialEq, Eq)]
pub struct Args {
    pub input_csv: String,
    pub output_dir: String,
    pub jobs: usize,
    pub cli: bool,
}

/// The settings of a run, as values.
pub struct Settings {
    pub input_csv: Seq<char>,
    pub output_dir: Seq<char>,
    pub jobs: usize,
    pub cli: bool,
}

impl View for Args {
    type V = Settings;

    open spec fn view(&self) -> Settings {
        Settings {
            input_csv: self.input_csv@,
            output_dir: self.output_dir@,
            jobs: self.jobs,
            cli: self.cli,
        }
    }
}

/// A flag that takes a value.
#[derive(Debug, Clone, Copy, PartialEq, Eq, Structural)]
pub enum Flag {
    /// `-i`, the input file.
    Input,
    /// `-o`, the output directory.
    Output,
    /// `-j`, the number of parallel downloads.
    Jobs,
}

/// Why a list of arguments was refused.
#[derive(Debug, PartialEq, Eq)]
pub enum ArgsError {
    /// The flag is the last argument: its value is missing.
    MissingValue(Flag),
    /// The value of `-j` is not a count.
    InvalidJobs(String),
    /// The argument is no flag that is known.
    UnknownArgument(String),
    /// `--cli` was given, and `-i` was not.
    MissingInput,
    /// `--cli` and `-i` were given, and `-o` was not.
    MissingOutput,
}

/// Why a list of arguments was refused, as a value.
pub enum Refusal {
    MissingValue(Flag),
    InvalidJobs(Seq<char>),
    UnknownArgument(Seq<char>),
    MissingInput,
    MissingOutput,
}

impl View for ArgsError {
    type V = Refusal;

    open spec fn view(&self) -> Refusal {
        match self {
            ArgsError::MissingValue(flag) => Refusal::MissingValue(*flag),
            ArgsError::InvalidJobs(value) => Refusal::InvalidJobs(value@),
            ArgsError::UnknownArgument(argument) => Refusal::UnknownArgument(argument@),
            ArgsError::MissingInput => Refusal::MissingInput,
            ArgsError::MissingOutput => Refusal::MissingOutput,
        }
    }
}

/// What a list of arguments asks for.
#[derive(Debug, PartialEq, Eq)]
pub enum ParsedArgs {
    /// The help text.
    Help,
    /// A run with these settings.
    Run(Args),
    /// Nothing that can be done.
    Refused(ArgsError),
}

/// What a list of arguments asks for, as a value.
pub enum Request {
    Help,
    Run(Settings),
    Refused(Refusal),
}

impl View for ParsedArgs {
    type V = Request;

    open spec fn view(&self) -> Request {
        match self {
            ParsedArgs::Help => Request::Help,
            ParsedArgs::Run(args) => Request::Run(args@),
            ParsedArgs::Refused(error) => Request::Refused(error@),
        }
    }
}

/// What the flags read so far have set.
pub struct Flags {
    pub input_csv: Option<Seq<char>>,
    pub output_dir: Option<Seq<char>>,
    pub jobs: usize,
    pub cli: bool,
}

/// The flags before any argument is read.
pub open spec fn no_flags() -> Flags {
    Flags { input_csv: None, output_dir: None, jobs: DEFAULT_NUM_JOBS, cli: false }
}

/// The arguments as texts.
pub open spec fn texts(args: Seq<String>) -> Seq<Seq<char>> {
    args.map_values(|argument: String| argument@)
}

/// Reads the flags from index `at` on. `-i`, `-o` and `-j` take the next
/// argument as their value; a flag given twice counts the last time. The
/// first argument that cannot be read ends the reading.
pub open spec fn read_flags(args: Seq<Seq<char>>, at: int, flags: Flags) -> Result<Flags, Refusal>
    decreases args.len() - at,
{
    if at < 0 || at >= args.len() {
        Ok(flags)
    } else if args[at] == "-i"@ {
        if at + 1 >= args.len() {
            Err(Refusal::MissingValue(Flag::Input))
        } else {
            read_flags(args, at + 2, Flags { input_csv: Some(args[at + 1]), ..flags })
        }
    } else if args[at] == "-o"@ {
        if at + 1 >= args.len() {
            Err(Refusal::MissingValue(Flag::Output))
        } else {
            read_flags(args, at + 2, Flags { output_dir: Some(args[at + 1]), ..flags })
        }
    } else if args[at] == "-j"@ {
        if at + 1 >= args.len() {
            Err(Refusal::MissingValue(Flag::Jobs))
        } else {
            match written_usize(args[at + 1]) {
                Some(jobs) => read_flags(args, at + 2, Flags { jobs, ..flags }),
                None => Err(Refusal::InvalidJobs(args[at + 1])),
            }
        }
    } else if args[at] == "--cli"@ {
        read_flags(args, at + 1, Flags { cli: true, ..flags })
    } else {
        Err(Refusal::UnknownArgument(args[at]))
    }
}

/// The settings that the flags give. With `--cli` the input file and the
/// output directory have to be named; without it they may be left out, and
/// are then empty.
pub open spec fn settings_of(flags: Flags) -> Request {
    if flags.cli {
        match (flags.input_csv, flags.output_dir) {
            (None, _) => Request::Refused(Refusal::MissingInput),
            (Some(_), None) => Request::Refused(Refusal::MissingOutput),
            (Some(input_csv), Some(output_dir)) => Request::Run(
                Settings { input_csv, output_dir, jobs: flags.jobs, cli: true },
            ),
        }
    } else {
        Request::Run(
            Settings {
                input_csv: match flags.input_csv {
                    Some(input_csv) => input_csv,
                    None => Seq::empty(),
                },
                output_dir: match flags.output_dir {
                    Some(output_dir) => output_dir,
                    None => Seq::empty(),
                },
                jobs: flags.jobs,
                cli: false,
            },
        )
    }
}

/// What the arguments of a program ask for. The first is the program's
/// name. `-h` or `--help` right behind it asks for the help text, whatever
/// follows.
pub open spec fn request_of(args: Seq<Seq<char>>) -> Request {
    if args.len() > 1 && (args[1] == "-h"@ || args[1] == "--help"@) {
        Request::Help
    } else {
        match read_flags(args, 1, no_flags()) {
            Ok(flags) => settings_of(flags),
            Err(refusal) => Request::Refused(refusal),
        }
    }
}

/// The text of an optional setting: empty where it was not given.
fn text_or_empty(value: Option<String>) -> (text: String)
    ensures
        text@ == match value {
            Some(given) => given@,
            None => Seq::<char>::empty(),
        },
{
    match value {
        Some(given) => given,
        None => String::new(),
    }
}

/// Reads the arguments of the program, the program's name first.
pub fn parse_args(args: &Vec<String>) -> (parsed: ParsedArgs)
    ensures
        parsed@ == request_of(texts(args@)),
{
    let ghost all = texts(args@);
    if args.len() > 1 && (same_text(args[1].as_str(), "-h") || same_text(
        args[1].as_str(),
        "--help",
    )) {
        assert(all[1] == args@[1]@);
        return ParsedArgs::Help;
    }
    proof {
        if args.len() > 1 {
            assert(all[1] == args@[1]@);
        }
    }
    let mut input_csv: Option<String> = None;
    let mut output_dir: Option<String> = None;
    let mut jobs: usize = DEFAULT_NUM_JOBS;
    let mut cli: bool = false;
    let mut i: usize = 1;
    while i < args.len()
        invariant
            1 <= i,
            all == texts(args@),
            !(all.len() > 1 && (all[1] == "-h"@ || all[1] == "--help"@)),
            read_flags(all, 1, no_flags()) == read_flags(
                all,
                i as int,
                Flags {
                    input_csv: match input_csv {
                        Some(given) => Some(given@),
                        None => None,
                    },
                    output_dir: match output_dir {
                        Some(given) => Some(given@),
                        None => None,
                    },
                    jobs,
                    cli,
                },
            ),
        decreases args.len() - i,
    {
        assert(all[i as int] == args@[i as int]@);
        let argument = args[i].as_str();
        if same_text(argument, "-i") {
            if i + 1 >= args.len() {
                return ParsedArgs::Refused(ArgsError::MissingValue(Flag::Input));
            }
            assert(all[i + 1] == args@[i + 1]@);
            input_csv = Some(args[i + 1].clone());
            i += 2;
        } else if same_text(argument, "-o") {
            if i + 1 >= args.len() {
                return ParsedArgs::Refused(ArgsError::MissingValue(Flag::Output));
            }
            assert(all[i + 1] == args@[i + 1]@);
            output_dir = Some(args[i + 1].clone());
            i += 2;
        } else if same_text(argument, "-j") {
            if i + 1 >= args.len() {
                return ParsedArgs::Refused(ArgsError::MissingValue(Flag::Jobs));
            }
            assert(all[i + 1] == args@[i + 1]@);
            match parse_usize(args[i + 1].as_str()) {
                Some(count) => {
                    jobs = count;
                },
                None => {
                    return ParsedArgs::Refused(ArgsError::InvalidJobs(args[i + 1].clone()));
                },
            }
            i += 2;
        } else if same_text(argument, "--cli") {
            cli = true;
            i += 1;
        } else {
            return ParsedArgs::Refused(ArgsError::UnknownArgument(args[i].clone()));
        }
    }
    if cli {
        match input_csv {
            None => ParsedArgs::Refused(ArgsError::MissingInput),
            Some(input_csv) => match output_dir {
                None => ParsedArgs::Refused(ArgsError::MissingOutput),
                Some(output_dir) => ParsedArgs::Run(Args { input_csv, output_dir, jobs, cli }),
            },
        }
    } else {
        ParsedArgs::Run(
            Args {
                input_csv: text_or_empty(input_csv),
                output_dir: text_or_empty(output_dir),
                jobs,
                cli,
            },
        )
    }
}

} // verus!
