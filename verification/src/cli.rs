//! The command line: which command to run, with which profile and options,
//! and which flags to pass through to the compiler.

use vstd::prelude::*;
use crate::config::{
    at_least_one,
    usize_value,
    workers_wanted,
    BuildProfile,
    ConfigView,
    ProjectConfig,
};
use crate::error::{BuildError, ErrorView};
use crate::text::{
    append_chars,
    append_str,
    chars_are,
    from_chars,
    parse_decimal,
    texts,
    to_chars,
};

verus! {

/// What the program is asked to do.
#[derive(Debug)]
pub enum Command {
    /// Create the skeleton of a project of this name.
    Create(String),
    /// Show the help text.
    Help,
    /// Build the project.
    Build,
    /// Build the project and run the program.
    Run,
}

/// The mathematical value of a `Command`.
pub enum CommandView {
    Create(Seq<char>),
    Help,
    Build,
    Run,
}

impl View for Command {
    type V = CommandView;

    open spec fn view(&self) -> CommandView {
        match self {
            Command::Create(name) => CommandView::Create(name@),
            Command::Help => CommandView::Help,
            Command::Build => CommandView::Build,
            Command::Run => CommandView::Run,
        }
    }
}

/// The parsed command line.
#[derive(Debug)]
pub struct CliArgs {
    pub command: Command,
    pub profile: BuildProfile,
    /// The flags passed through to compiler and linker.
    pub extra_flags: Vec<String>,
    /// The number of workers, where the command line names one.
    pub parallel_override: Option<usize>,
    pub verbose: bool,
    pub aggregate_errors: bool,
}

/// The mathematical value of `CliArgs`.
pub struct CliView {
    pub command: CommandView,
    pub profile: BuildProfile,
    pub extra_flags: Seq<Seq<char>>,
    pub parallel_override: Option<usize>,
    pub verbose: bool,
    pub aggregate_errors: bool,
}

impl View for CliArgs {
    type V = CliView;

    open spec fn view(&self) -> CliView {
        CliView {
            command: self.command@,
            profile: self.profile,
            extra_flags: texts(self.extra_flags@),
            parallel_override: self.parallel_override,
            verbose: self.verbose,
            aggregate_errors: self.aggregate_errors,
        }
    }
}

/// What has been read of a command line.
pub struct Scanned {
    /// The last command named, if any was.
    pub command: Option<CommandView>,
    pub profile: BuildProfile,
    pub extra_flags: Seq<Seq<char>>,
    pub parallel_override: Option<usize>,
    pub verbose: bool,
    pub aggregate_errors: bool,
    /// Whether `--` has been read: every later argument is passed through.
    pub pass_through: bool,
}

/// Nothing read yet.
pub open spec fn nothing_scanned() -> Scanned {
    Scanned {
        command: None,
        profile: BuildProfile::Debug,
        extra_flags: Seq::empty(),
        parallel_override: None,
        verbose: false,
        aggregate_errors: false,
        pass_through: false,
    }
}

pub open spec fn missing_number_text() -> Seq<char> {
    "--parallel requires a number"@
}

pub open spec fn bad_number_text(arg: Seq<char>) -> Seq<char> {
    "--parallel: expected number, got '"@ + arg + "'"@
}

pub open spec fn missing_name_text() -> Seq<char> {
    "'create' requires a project name"@
}

pub open spec fn unknown_argument_text(arg: Seq<char>) -> Seq<char> {
    "Unknown command or option: '"@ + arg + "'. Run `drakkar help`."@
}

/// The command line read from argument `i` on, with `state` read so far.
///
/// After `--` every argument is passed through. Before it, options and
/// commands are recognised by their names, `--parallel` and `create` take
/// the next argument as their value, any other argument that starts with
/// `-` is passed through, and anything else is an error.
pub open spec fn scan_args(args: Seq<Seq<char>>, i: int, state: Scanned) -> Result<Scanned, ErrorView>
    decreases args.len() - i,
{
    if i < 0 || i >= args.len() {
        Ok(state)
    } else {
        let arg = args[i];
        if state.pass_through {
            scan_args(args, i + 1, Scanned { extra_flags: state.extra_flags.push(arg), ..state })
        } else if arg == "--"@ {
            scan_args(args, i + 1, Scanned { pass_through: true, ..state })
        } else if arg == "--verbose"@ || arg == "-v"@ {
            scan_args(args, i + 1, Scanned { verbose: true, ..state })
        } else if arg == "--aggregate-errors"@ {
            scan_args(args, i + 1, Scanned { aggregate_errors: true, ..state })
        } else if arg == "--parallel"@ || arg == "-j"@ {
            if i + 1 >= args.len() {
                Err(ErrorView::Parse(missing_number_text()))
            } else {
                match usize_value(args[i + 1]) {
                    Some(n) => scan_args(
                        args,
                        i + 2,
                        Scanned { parallel_override: Some(n), ..state },
                    ),
                    None => Err(ErrorView::Parse(bad_number_text(args[i + 1]))),
                }
            }
        } else if arg == "help"@ || arg == "--help"@ || arg == "-h"@ {
            scan_args(args, i + 1, Scanned { command: Some(CommandView::Help), ..state })
        } else if arg == "create"@ {
            if i + 1 >= args.len() {
                Err(ErrorView::Parse(missing_name_text()))
            } else {
                scan_args(
                    args,
                    i + 2,
                    Scanned { command: Some(CommandView::Create(args[i + 1])), ..state },
                )
            }
        } else if arg == "build"@ {
            scan_args(args, i + 1, Scanned { command: Some(CommandView::Build), ..state })
        } else if arg == "run"@ {
            scan_args(args, i + 1, Scanned { command: Some(CommandView::Run), ..state })
        } else if arg == "debug"@ {
            scan_args(args, i + 1, Scanned { profile: BuildProfile::Debug, ..state })
        } else if arg == "release"@ {
            scan_args(args, i + 1, Scanned { profile: BuildProfile::Release, ..state })
        } else if arg.len() > 0 && arg[0] == '-' {
            scan_args(args, i + 1, Scanned { extra_flags: state.extra_flags.push(arg), ..state })
        } else {
            Err(ErrorView::Parse(unknown_argument_text(arg)))
        }
    }
}

/// The command line that was read: without a command it asks for help.
pub open spec fn scanned_cli(state: Scanned) -> CliView {
    CliView {
        command: match state.command {
            Some(c) => c,
            None => CommandView::Help,
        },
        profile: state.profile,
        extra_flags: state.extra_flags,
        parallel_override: state.parallel_override,
        verbose: state.verbose,
        aggregate_errors: state.aggregate_errors,
    }
}

/// The meaning of the arguments `args`, the program's name not among them.
pub open spec fn parse_args(args: Seq<Seq<char>>) -> Result<CliView, ErrorView> {
    match scan_args(args, 0, nothing_scanned()) {
        Ok(state) => Ok(scanned_cli(state)),
        Err(e) => Err(e),
    }
}

/// The value of what the parser holds while it reads.
spec fn scanned_of(
    command: Option<Command>,
    profile: BuildProfile,
    extra_flags: Seq<String>,
    parallel_override: Option<usize>,
    verbose: bool,
    aggregate_errors: bool,
    pass_through: bool,
) -> Scanned {
    Scanned {
        command: match command {
            Some(c) => Some(c@),
            None => None,
        },
        profile,
        extra_flags: texts(extra_flags),
        parallel_override,
        verbose,
        aggregate_errors,
        pass_through,
    }
}

fn quoted_error(before: &str, subject: &Vec<char>, after: &str) -> (e: BuildError)
    ensures
        e@ == ErrorView::Parse(before@ + subject@ + after@),
{
    let mut msg: Vec<char> = Vec::new();
    append_str(&mut msg, before);
    append_chars(&mut msg, subject);
    append_str(&mut msg, after);
    assert(msg@ == before@ + subject@ + after@);
    BuildError::ParseError(from_chars(&msg))
}

/// Parses the arguments of the program, its own name not among them.
pub fn parse_cli_args(args: &Vec<String>) -> (r: Result<CliArgs, BuildError>)
    ensures
        match parse_args(texts(args@)) {
            Ok(cli) => r matches Ok(parsed) && parsed@ == cli,
            Err(e) => r matches Err(err) && err@ == e,
        },
{
    let n = args.len();
    let mut command: Option<Command> = None;
    let mut profile = BuildProfile::Debug;
    let mut extra_flags: Vec<String> = Vec::new();
    let mut parallel_override: Option<usize> = None;
    let mut verbose = false;
    let mut aggregate_errors = false;
    let mut pass_through = false;
    let mut i: usize = 0;
    let ghost all = texts(args@);
    assert(texts(extra_flags@) == Seq::<Seq<char>>::empty());
    while i < n
        invariant
            i <= n == args.len(),
            all == texts(args@),
            scan_args(all, 0, nothing_scanned()) == scan_args(
                all,
                i as int,
                scanned_of(
                    command,
                    profile,
                    extra_flags@,
                    parallel_override,
                    verbose,
                    aggregate_errors,
                    pass_through,
                ),
            ),
        decreases n - i,
    {
        let arg = to_chars(args[i].as_str());
        assert(arg@ == all[i as int]);
        if pass_through {
            let ghost before = extra_flags@;
            let flag = args[i].clone();
            extra_flags.push(flag);
            assert(texts(before.push(flag)) == texts(before).push(flag@));
            i = i + 1;
        } else if chars_are(&arg, "--") {
            pass_through = true;
            i = i + 1;
        } else if chars_are(&arg, "--verbose") || chars_are(&arg, "-v") {
            verbose = true;
            i = i + 1;
        } else if chars_are(&arg, "--aggregate-errors") {
            aggregate_errors = true;
            i = i + 1;
        } else if chars_are(&arg, "--parallel") || chars_are(&arg, "-j") {
            if i + 1 >= n {
                return Err(BuildError::ParseError("--parallel requires a number".to_owned()));
            }
            let value = to_chars(args[i + 1].as_str());
            assert(value@ == all[i + 1]);
            match parse_decimal(&value) {
                Some(jobs) => {
                    parallel_override = Some(jobs);
                },
                None => {
                    return Err(quoted_error("--parallel: expected number, got '", &value, "'"));
                },
            }
            i = i + 2;
        } else if chars_are(&arg, "help") || chars_are(&arg, "--help") || chars_are(&arg, "-h") {
            command = Some(Command::Help);
            i = i + 1;
        } else if chars_are(&arg, "create") {
            if i + 1 >= n {
                return Err(BuildError::ParseError("'create' requires a project name".to_owned()));
            }
            assert(args@[i + 1]@ == all[i + 1]);
            command = Some(Command::Create(args[i + 1].clone()));
            i = i + 2;
        } else if chars_are(&arg, "build") {
            command = Some(Command::Build);
            i = i + 1;
        } else if chars_are(&arg, "run") {
            command = Some(Command::Run);
            i = i + 1;
        } else if chars_are(&arg, "debug") {
            profile = BuildProfile::Debug;
            i = i + 1;
        } else if chars_are(&arg, "release") {
            profile = BuildProfile::Release;
            i = i + 1;
        } else if arg.len() > 0 && arg[0] == '-' {
            let ghost before = extra_flags@;
            let flag = args[i].clone();
            extra_flags.push(flag);
            assert(texts(before.push(flag)) == texts(before).push(flag@));
            i = i + 1;
        } else {
            return Err(
                quoted_error("Unknown command or option: '", &arg, "'. Run `drakkar help`."),
            );
        }
    }
    let command = match command {
        Some(c) => c,
        None => Command::Help,
    };
    Ok(CliArgs { command, profile, extra_flags, parallel_override, verbose, aggregate_errors })
}

/// `config` with the options of the command line `cli` applied: the number
/// of workers where one is named, and the two switches where they are on.
/// The result has at least one worker, also where the command line asks for
/// none.
pub open spec fn with_overrides(config: ConfigView, cli: CliView) -> ConfigView {
    ConfigView {
        parallel_jobs: at_least_one(
            match cli.parallel_override {
                Some(jobs) => jobs,
                None => config.parallel_jobs,
            },
        ),
        verbose: config.verbose || cli.verbose,
        aggregate_errors: config.aggregate_errors || cli.aggregate_errors,
        ..config
    }
}

impl CliArgs {
    /// Applies the options of the command line to a configuration.
    pub fn apply_to(&self, config: ProjectConfig) -> (r: ProjectConfig)
        ensures
            r@ == with_overrides(config@, self@),
            r@.parallel_jobs >= 1,
    {
        let mut config = config;
        match self.parallel_override {
            Some(jobs) => {
                config.parallel_jobs = workers_wanted(jobs);
            },
            None => {
                config.parallel_jobs = workers_wanted(config.parallel_jobs);
            },
        }
        if self.verbose {
            config.verbose = true;
        }
        if self.aggregate_errors {
            config.aggregate_errors = true;
        }
        config
    }
}

/// The exit code of the program: that of the program it ran, 1 where that
/// has none, and 0 where it ran none.
pub fn exit_code(ran: Option<Option<i32>>) -> (r: i32)
    ensures
        r == match ran {
            Some(Some(code)) => code,
            Some(None) => 1,
            None => 0,
        },
{
    match ran {
        Some(Some(code)) => code,
        Some(None) => 1,
        None => 0,
    }
}

} // verus!
