//! The command line: which paths to watch, which command to run, and
//! whether to log.
use vstd::prelude::*;
use vstd::string::*;

verus! {

/// What the command line asks for.
pub struct Config {
    pub files: Vec<String>,
    pub command: Vec<String>,
    pub silent: bool,
}

/// Why the command line was not accepted. The index is that of the
/// offending argument.
#[derive(Clone, Copy, Debug, PartialEq, Eq, Structural)]
pub enum ArgError {
    Help,
    InvalidOption(usize),
    UnexpectedArgument(usize),
    NoFiles,
}

/// The parser's state after some arguments: the list that plain arguments
/// go to (none, the files, or the command), the files, the command words,
/// and whether silent mode was asked for.
pub struct ParseState {
    pub mode: ArgMode,
    pub files: Seq<Seq<char>>,
    pub command: Seq<Seq<char>>,
    pub silent: bool,
}

/// Where a plain argument goes.
#[derive(Clone, Copy, Debug, PartialEq, Eq, Structural)]
pub enum ArgMode {
    Neither,
    Files,
    Command,
}

/// An argument that starts with `-` is an option.
pub open spec fn is_option(arg: Seq<char>) -> bool {
    arg.len() > 0 && arg[0] == '-'
}

/// The parser's state after the first `n` arguments, or the first error.
pub open spec fn parse_prefix(args: Seq<Seq<char>>, n: int) -> Result<ParseState, ArgError>
    decreases n,
{
    if n <= 0 {
        Ok(ParseState { mode: ArgMode::Neither, files: seq![], command: seq![], silent: false })
    } else {
        match parse_prefix(args, n - 1) {
            Err(e) => Err(e),
            Ok(st) => {
                let a = args[n - 1];
                if is_option(a) {
                    if a == "--help"@ || a == "-h"@ {
                        Err(ArgError::Help)
                    } else if a == "--files"@ || a == "-f"@ {
                        Ok(ParseState { mode: ArgMode::Files, ..st })
                    } else if a == "--command"@ || a == "-c"@ {
                        Ok(ParseState { mode: ArgMode::Command, ..st })
                    } else if a == "--silent"@ || a == "-s"@ {
                        Ok(ParseState { silent: true, ..st })
                    } else {
                        Err(ArgError::InvalidOption((n - 1) as usize))
                    }
                } else {
                    match st.mode {
                        ArgMode::Files => Ok(ParseState { files: st.files.push(a), ..st }),
                        ArgMode::Command => Ok(ParseState { command: st.command.push(a), ..st }),
                        ArgMode::Neither => Err(ArgError::UnexpectedArgument((n - 1) as usize)),
                    }
                }
            },
        }
    }
}

/// Once parsing has failed, later arguments do not change the error.
proof fn lemma_error_persists(args: Seq<Seq<char>>, k: int, n: int)
    requires
        k <= n,
        parse_prefix(args, k) is Err,
    ensures
        parse_prefix(args, n) == parse_prefix(args, k),
    decreases n - k,
{
    if k < n {
        lemma_error_persists(args, k, n - 1);
    }
}

/// The outcome of parsing all of `args`: an empty file list is refused.
pub open spec fn parse_spec(args: Seq<Seq<char>>) -> Result<ParseState, ArgError> {
    match parse_prefix(args, args.len() as int) {
        Err(e) => Err(e),
        Ok(st) => if st.files.len() == 0 {
            Err(ArgError::NoFiles)
        } else {
            Ok(st)
        },
    }
}

/// Whether two strings hold the same text.
fn same_text(a: &str, b: &str) -> (r: bool)
    ensures
        r == (a@ == b@),
{
    let n: usize = a.unicode_len();
    if n != b.unicode_len() {
        return false;
    }
    let mut i: usize = 0;
    while i < n
        invariant
            i <= n,
            n == a@.len(),
            n == b@.len(),
            forall|j: int| 0 <= j < i ==> a@[j] == b@[j],
        decreases n - i,
    {
        if a.get_char(i) != b.get_char(i) {
            return false;
        }
        i = i + 1;
    }
    assert(a@ =~= b@);
    true
}

/// Reads the arguments that follow the program name. `--files` (`-f`) and
/// `--command` (`-c`) choose where the plain arguments after them go,
/// `--silent` (`-s`) turns logging off, and `--help` (`-h`) stops at once.
/// Any other argument that starts with `-` is refused, as is a plain
/// argument before either list was chosen, and a command line that names no
/// file.
pub fn parse_args(args: &Vec<String>) -> (r: Result<Config, ArgError>)
    ensures
        match parse_spec(args@.map_values(|s: String| s@)) {
            Ok(st) => r matches Ok(c) && c.files@.map_values(|s: String| s@) == st.files
                && c.command@.map_values(|s: String| s@) == st.command && c.silent == st.silent,
            Err(e) => r == Err::<Config, ArgError>(e),
        },
{
    let ghost views = args@.map_values(|s: String| s@);
    let mut mode = ArgMode::Neither;
    let mut files: Vec<String> = Vec::new();
    let mut command: Vec<String> = Vec::new();
    let mut silent = false;
    let mut i: usize = 0;
    assert(files@.map_values(|s: String| s@) =~= Seq::<Seq<char>>::empty());
    assert(command@.map_values(|s: String| s@) =~= Seq::<Seq<char>>::empty());
    while i < args.len()
        invariant
            i <= args@.len(),
            views == args@.map_values(|s: String| s@),
            parse_prefix(views, i as int) == Ok::<ParseState, ArgError>(
                ParseState {
                    mode,
                    files: files@.map_values(|s: String| s@),
                    command: command@.map_values(|s: String| s@),
                    silent,
                },
            ),
        decreases args@.len() - i,
    {
        let arg = args[i].as_str();
        assert(views[i as int] == arg@);
        let ghost old_files = files@.map_values(|s: String| s@);
        let ghost old_command = command@.map_values(|s: String| s@);
        if arg.unicode_len() > 0 && arg.get_char(0) == '-' {
            if same_text(arg, "--help") || same_text(arg, "-h") {
                proof {
                    lemma_error_persists(views, i + 1, views.len() as int);
                }
                return Err(ArgError::Help);
            } else if same_text(arg, "--files") || same_text(arg, "-f") {
                mode = ArgMode::Files;
            } else if same_text(arg, "--command") || same_text(arg, "-c") {
                mode = ArgMode::Command;
            } else if same_text(arg, "--silent") || same_text(arg, "-s") {
                silent = true;
            } else {
                proof {
                    lemma_error_persists(views, i + 1, views.len() as int);
                }
                return Err(ArgError::InvalidOption(i));
            }
        } else {
            match mode {
                ArgMode::Files => {
                    files.push(args[i].clone());
                    assert(files@.map_values(|s: String| s@) =~= old_files.push(arg@));
                },
                ArgMode::Command => {
                    command.push(args[i].clone());
                    assert(command@.map_values(|s: String| s@) =~= old_command.push(arg@));
                },
                ArgMode::Neither => {
                    proof {
                        lemma_error_persists(views, i + 1, views.len() as int);
                    }
                    return Err(ArgError::UnexpectedArgument(i));
                },
            }
        }
        i = i + 1;
    }
    assert(views.len() == args@.len());
    if files.len() == 0 {
        return Err(ArgError::NoFiles);
    }
    Ok(Config { files, command, silent })
}

} // verus!
