//! The command line of the wrapper:
//! `[--quiet] [--log-file PATH] [--exclude-exec PATH]... [--] COMMAND [ARGS...]`.
//! Options may appear before the command; the first token that is not an
//! option starts the command, and everything after it belongs to the
//! command verbatim.

use vstd::prelude::*;

use crate::strutil::str_eq;

verus! {

/// The parsed command line.
#[derive(Debug)]
pub struct CliArgs {
    /// Suppress denial records on the standard error stream.
    pub quiet: bool,
    /// Write denial records to this file.
    pub log_file: Option<String>,
    /// Executable paths whose accesses bypass rule enforcement.
    pub exclude_exec: Vec<String>,
    /// The command to run and its arguments; never empty.
    pub command: Vec<String>,
}

/// The mathematical value of a parsed command line.
pub struct CliModel {
    pub quiet: bool,
    pub log_file: Option<Seq<char>>,
    pub exclude_exec: Seq<Seq<char>>,
    pub command: Seq<Seq<char>>,
}

impl View for CliArgs {
    type V = CliModel;

    open spec fn view(&self) -> CliModel {
        CliModel {
            quiet: self.quiet,
            log_file: match self.log_file {
                Some(ref p) => Some(p@),
                None => None,
            },
            exclude_exec: self.exclude_exec.deep_view(),
            command: self.command.deep_view(),
        }
    }
}

/// Why a command line was rejected.
#[derive(Debug)]
pub enum CliError {
    /// No command was given.
    MissingCommand,
    /// The named option takes a value and none followed it.
    MissingValue(String),
    /// A token that looks like an option but is not one of the known
    /// options appeared before the command.
    UnknownOption(String),
}

/// The mathematical value of a `CliError`.
pub enum CliErrorModel {
    MissingCommand,
    MissingValue(Seq<char>),
    UnknownOption(Seq<char>),
}

impl View for CliError {
    type V = CliErrorModel;

    open spec fn view(&self) -> CliErrorModel {
        match self {
            CliError::MissingCommand => CliErrorModel::MissingCommand,
            CliError::MissingValue(s) => CliErrorModel::MissingValue(s@),
            CliError::UnknownOption(s) => CliErrorModel::UnknownOption(s@),
        }
    }
}

impl CliError {
    /// A one-line description of the error.
    pub fn message(&self) -> (r: String)
        ensures
            r@ == match self@ {
                CliErrorModel::MissingCommand => "missing command to run"@,
                CliErrorModel::MissingValue(s) => "option requires a value: "@ + s,
                CliErrorModel::UnknownOption(s) => "unknown option: "@ + s,
            },
    {
        match self {
            CliError::MissingCommand => String::from_str("missing command to run"),
            CliError::MissingValue(s) => {
                let mut m = String::from_str("option requires a value: ");
                m.append(s.as_str());
                m
            },
            CliError::UnknownOption(s) => {
                let mut m = String::from_str("unknown option: ");
                m.append(s.as_str());
                m
            },
        }
    }
}

/// The meaning of the command line from token `i` on, with the options
/// gathered so far.
pub open spec fn spec_parse_cli(
    args: Seq<Seq<char>>,
    i: int,
    quiet: bool,
    log_file: Option<Seq<char>>,
    excludes: Seq<Seq<char>>,
) -> Result<CliModel, CliErrorModel>
    decreases args.len() - i,
{
    if i < 0 || i >= args.len() {
        Err(CliErrorModel::MissingCommand)
    } else {
        let t = args[i];
        if t == "--"@ {
            if i + 1 < args.len() {
                Ok(CliModel { quiet, log_file, exclude_exec: excludes, command: args.skip(i + 1) })
            } else {
                Err(CliErrorModel::MissingCommand)
            }
        } else if t == "--quiet"@ || t == "-q"@ {
            spec_parse_cli(args, i + 1, true, log_file, excludes)
        } else if t == "--log-file"@ {
            if i + 1 < args.len() {
                spec_parse_cli(args, i + 2, quiet, Some(args[i + 1]), excludes)
            } else {
                Err(CliErrorModel::MissingValue(t))
            }
        } else if t == "--exclude-exec"@ {
            if i + 1 < args.len() {
                spec_parse_cli(args, i + 2, quiet, log_file, excludes.push(args[i + 1]))
            } else {
                Err(CliErrorModel::MissingValue(t))
            }
        } else if t.len() >= 2 && t[0] == '-' {
            Err(CliErrorModel::UnknownOption(t))
        } else {
            Ok(CliModel { quiet, log_file, exclude_exec: excludes, command: args.skip(i) })
        }
    }
}

/// The meaning of a whole command line: the first token is the program's
/// own name and is skipped.
pub open spec fn spec_parse_args(args: Seq<Seq<char>>) -> Result<CliModel, CliErrorModel> {
    spec_parse_cli(args, 1, false, None, Seq::empty())
}

/// The tokens of `args` from index `from` on, as owned strings.
fn suffix(args: &Vec<String>, from: usize) -> (r: Vec<String>)
    requires
        from <= args.len(),
    ensures
        r.deep_view() == args.deep_view().skip(from as int),
{
    let mut r: Vec<String> = Vec::new();
    let n = args.len();
    let mut k: usize = from;
    while k < n
        invariant
            from <= k <= n,
            n == args.len(),
            r.deep_view() =~= args.deep_view().subrange(from as int, k as int),
        decreases n - k,
    {
        let ghost prev = r.deep_view();
        r.push(args[k].clone());
        proof {
            assert(r.deep_view() =~= prev.push(args.deep_view()[k as int]));
            assert(r.deep_view() =~= args.deep_view().subrange(from as int, k + 1));
        }
        k += 1;
    }
    proof {
        assert(args.deep_view().subrange(from as int, n as int) =~= args.deep_view().skip(
            from as int,
        ));
    }
    r
}

/// Parses the command line. `args` holds the program's own name first,
/// then its arguments, as `main` receives them.
pub fn parse_args(args: &Vec<String>) -> (r: Result<CliArgs, CliError>)
    ensures
        match r {
            Ok(c) => spec_parse_args(args.deep_view()) == Ok::<CliModel, CliErrorModel>(c@)
                && c@.command.len() >= 1,
            Err(e) => spec_parse_args(args.deep_view()) == Err::<CliModel, CliErrorModel>(e@),
        },
{
    let ghost args_v = args.deep_view();
    let n = args.len();
    let mut quiet = false;
    let mut log_file: Option<String> = None;
    let mut exclude_exec: Vec<String> = Vec::new();
    let mut i: usize = 1;
    proof {
        assert(exclude_exec.deep_view() =~= Seq::<Seq<char>>::empty());
    }
    while i < n
        invariant
            n == args.len(),
            args_v == args.deep_view(),
            1 <= i,
            spec_parse_args(args_v) == spec_parse_cli(
                args_v,
                i as int,
                quiet,
                match log_file {
                    Some(ref p) => Some(p@),
                    None => None,
                },
                exclude_exec.deep_view(),
            ),
        decreases n - i,
    {
        let t = &args[i];
        proof {
            assert(args_v[i as int] == t@);
        }
        if str_eq(t.as_str(), "--") {
            if i + 1 < n {
                let command = suffix(args, i + 1);
                return Ok(CliArgs { quiet, log_file, exclude_exec, command });
            } else {
                return Err(CliError::MissingCommand);
            }
        } else if str_eq(t.as_str(), "--quiet") || str_eq(t.as_str(), "-q") {
            quiet = true;
            i += 1;
        } else if str_eq(t.as_str(), "--log-file") {
            if i + 1 < n {
                log_file = Some(args[i + 1].clone());
                i += 2;
            } else {
                return Err(CliError::MissingValue(t.clone()));
            }
        } else if str_eq(t.as_str(), "--exclude-exec") {
            if i + 1 < n {
                let ghost prev = exclude_exec.deep_view();
                exclude_exec.push(args[i + 1].clone());
                proof {
                    assert(exclude_exec.deep_view() =~= prev.push(args_v[i + 1]));
                }
                i += 2;
            } else {
                return Err(CliError::MissingValue(t.clone()));
            }
        } else {
            let tlen = t.unicode_len();
            if tlen >= 2 && t.get_char(0) == '-' {
                return Err(CliError::UnknownOption(t.clone()));
            }
            let command = suffix(args, i);
            return Ok(CliArgs { quiet, log_file, exclude_exec, command });
        }
    }
    Err(CliError::MissingCommand)
}

impl CliArgs {
    /// A parsed command line always carries a command.
    pub open spec fn wf(&self) -> bool {
        self@.command.len() >= 1
    }

    /// The name of the command to run.
    pub fn command_name(&self) -> (r: &String)
        requires
            self.wf(),
        ensures
            r@ == self@.command[0],
    {
        &self.command[0]
    }

    /// The command's arguments: everything after the command name.
    pub fn command_args(&self) -> (r: Vec<String>)
        requires
            self.wf(),
        ensures
            r.deep_view() == self@.command.skip(1),
    {
        suffix(&self.command, 1)
    }
}

} // verus!
