//! Command-line arguments: `--config PATH`, `--socket PATH`, `--help`.
use vstd::prelude::*;

use crate::text::{chars_eq_str, chars_of, string_from};

verus! {

#[derive(Debug, Default)]
pub struct Cli {
    pub config: Option<String>,
    pub socket: Option<String>,
}

#[derive(Debug)]
pub enum CliAction {
    Run(Cli),
    Help,
}

#[derive(Debug)]
pub enum CliError {
    /// `--config` without a path.
    MissingConfigPath,
    /// `--socket` without a path.
    MissingSocketPath,
    UnknownArgument(String),
}

/// What the arguments ask for, over their characters.
pub enum CliOutcome {
    Run(Option<Seq<char>>, Option<Seq<char>>),
    Help,
    MissingConfigPath,
    MissingSocketPath,
    Unknown(Seq<char>),
}

pub open spec fn is_config_flag(a: Seq<char>) -> bool {
    a == "-c"@ || a == "--config"@
}

pub open spec fn is_socket_flag(a: Seq<char>) -> bool {
    a == "-s"@ || a == "--socket"@
}

pub open spec fn is_help_flag(a: Seq<char>) -> bool {
    a == "-h"@ || a == "--help"@
}

/// Reading the arguments left to right, starting from the settings found so
/// far: a flag that needs a value takes the next argument (a later one
/// replaces an earlier one); help stops reading; anything else is an error.
pub open spec fn cli_scan(
    args: Seq<Seq<char>>,
    config: Option<Seq<char>>,
    socket: Option<Seq<char>>,
) -> CliOutcome
    decreases args.len(),
{
    if args.len() == 0 {
        CliOutcome::Run(config, socket)
    } else if is_config_flag(args[0]) {
        if args.len() < 2 {
            CliOutcome::MissingConfigPath
        } else {
            cli_scan(args.skip(2), Some(args[1]), socket)
        }
    } else if is_socket_flag(args[0]) {
        if args.len() < 2 {
            CliOutcome::MissingSocketPath
        } else {
            cli_scan(args.skip(2), config, Some(args[1]))
        }
    } else if is_help_flag(args[0]) {
        CliOutcome::Help
    } else {
        CliOutcome::Unknown(args[0])
    }
}

pub open spec fn arg_views(args: Seq<String>) -> Seq<Seq<char>> {
    args.map_values(|a: String| a@)
}

pub open spec fn opt_view(o: Option<String>) -> Option<Seq<char>> {
    match o {
        Some(s) => Some(s@),
        None => None,
    }
}

/// Whether `r` is the result the outcome `o` describes.
pub open spec fn outcome_matches(r: Result<CliAction, CliError>, o: CliOutcome) -> bool {
    match (r, o) {
        (Ok(CliAction::Run(cli)), CliOutcome::Run(config, socket)) => opt_view(cli.config)
            == config && opt_view(cli.socket) == socket,
        (Ok(CliAction::Help), CliOutcome::Help) => true,
        (Err(CliError::MissingConfigPath), CliOutcome::MissingConfigPath) => true,
        (Err(CliError::MissingSocketPath), CliOutcome::MissingSocketPath) => true,
        (Err(CliError::UnknownArgument(a)), CliOutcome::Unknown(b)) => a@ == b,
        _ => false,
    }
}

/// Parse the command-line arguments (without the program name).
pub fn parse_cli(args: &Vec<String>) -> (r: Result<CliAction, CliError>)
    ensures
        outcome_matches(r, cli_scan(arg_views(args@), None, None)),
{
    let ghost av = arg_views(args@);
    let mut config: Option<String> = None;
    let mut socket: Option<String> = None;
    let mut i: usize = 0;
    assert(av.skip(0) == av);
    while i < args.len()
        invariant
            av == arg_views(args@),
            i <= args.len(),
            cli_scan(av, None, None) == cli_scan(av.skip(i as int), opt_view(config), opt_view(
                socket,
            )),
        decreases args.len() - i,
    {
        let ghost rest = av.skip(i as int);
        assert(rest[0] == args@[i as int]@);
        let arg = chars_of(args[i].as_str());
        if chars_eq_str(&arg, "-c") || chars_eq_str(&arg, "--config") {
            if i + 1 >= args.len() {
                return Err(CliError::MissingConfigPath);
            }
            assert(rest[1] == args@[i + 1]@);
            assert(rest.skip(2) == av.skip(i + 2));
            config = Some(string_from(args[i + 1].as_str()));
            i += 2;
        } else if chars_eq_str(&arg, "-s") || chars_eq_str(&arg, "--socket") {
            if i + 1 >= args.len() {
                return Err(CliError::MissingSocketPath);
            }
            assert(rest[1] == args@[i + 1]@);
            assert(rest.skip(2) == av.skip(i + 2));
            socket = Some(string_from(args[i + 1].as_str()));
            i += 2;
        } else if chars_eq_str(&arg, "-h") || chars_eq_str(&arg, "--help") {
            return Ok(CliAction::Help);
        } else {
            return Err(CliError::UnknownArgument(string_from(args[i].as_str())));
        }
    }
    Ok(CliAction::Run(Cli { config, socket }))
}

} // verus!
