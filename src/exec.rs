use vstd::prelude::*;

use crate::input_parser::{InputValue, ParsedInput};
use crate::text::{chars_of, string_of};

verus! {

/// The words that `shlex::split` finds in `s`, or nothing when its quoting
/// is erroneous.
pub uninterp spec fn shell_words_of(s: Seq<char>) -> Option<Seq<Seq<char>>>;

pub open spec fn strings_view(v: Seq<String>) -> Seq<Seq<char>> {
    v.map_values(|s: String| s@)
}

/// Relies on `shlex::split`: the words of `s` under POSIX shell quoting rules,
/// or `None` when `s` is erroneous (an unterminated quote or escape).
#[verifier::external_body]
pub(crate) fn shell_split(s: &str) -> (r: Option<Vec<String>>)
    ensures
        r is None ==> shell_words_of(s@) is None,
        r matches Some(v) ==> shell_words_of(s@) == Some(strings_view(v@)),
{
    shlex::split(s)
}

/// Why a command cannot be started.
#[derive(Clone, Copy, Debug, PartialEq, Eq)]
pub enum ExecError {
    /// The entry's command line has unbalanced quoting.
    InvalidCommand,
    /// The typed arguments have unbalanced quoting.
    InvalidArguments,
    /// The typed environment variables have unbalanced quoting.
    InvalidEnvs,
    /// No program to run.
    EmptyCommand,
    /// A word holds a NUL character.
    NulByte,
    /// The selected sub-action does not exist.
    NoSuchAction,
}

/// A process to start: its argument vector, the variables to add to its
/// environment and the directory to start it in.
#[derive(Clone, Debug, PartialEq, Eq)]
pub struct Command {
    pub argv: Vec<String>,
    pub env_vars: Option<Vec<String>>,
    pub working_dir: Option<String>,
}

/// The words joined by single spaces.
pub open spec fn join_words(ws: Seq<Seq<char>>) -> Seq<char>
    decreases ws.len(),
{
    if ws.len() == 0 {
        Seq::empty()
    } else if ws.len() == 1 {
        ws[0]
    } else {
        join_words(ws.drop_last()) + seq![' '] + ws.last()
    }
}

pub open spec fn has_nul(s: Seq<char>) -> bool {
    exists|i: int| 0 <= i < s.len() && s[i] == '\0'
}

pub open spec fn any_nul(ws: Seq<Seq<char>>) -> bool {
    exists|i: int| 0 <= i < ws.len() && has_nul(ws[i])
}

/// The argument vector: in a terminal, the terminal command followed by one
/// word holding the command line and the typed arguments; else the command's
/// words followed by the words of the typed arguments.
pub open spec fn argv_spec(
    term: Option<Seq<Seq<char>>>,
    command: Seq<Seq<char>>,
    input: ParsedInput,
) -> Option<Seq<Seq<char>>> {
    match term {
        Some(t) => {
            let line = match input.args {
                Some(a) => join_words(command) + seq![' '] + a,
                None => join_words(command),
            };
            Some(t.push(line))
        },
        None => match input.args {
            Some(a) => match shell_words_of(a) {
                Some(ws) => Some(command + ws),
                None => None,
            },
            None => Some(command),
        },
    }
}

/// What `command` returns for these values.
pub open spec fn command_spec(
    term: Option<Seq<Seq<char>>>,
    command: Seq<Seq<char>>,
    input: ParsedInput,
) -> Result<(Seq<Seq<char>>, Option<Seq<Seq<char>>>), ExecError> {
    match argv_spec(term, command, input) {
        None => Err(ExecError::InvalidArguments),
        Some(argv) => {
            let env = match input.env_vars {
                Some(e) => shell_words_of(e),
                None => Some(Seq::empty()),
            };
            match env {
                None => Err(ExecError::InvalidEnvs),
                Some(env_words) => if argv.len() == 0 {
                    Err(ExecError::EmptyCommand)
                } else if any_nul(argv) || any_nul(env_words) {
                    Err(ExecError::NulByte)
                } else {
                    Ok(
                        (
                            argv,
                            if input.env_vars is Some {
                                Some(env_words)
                            } else {
                                None
                            },
                        ),
                    )
                },
            }
        },
    }
}

pub open spec fn opt_strings(o: Option<Vec<String>>) -> Option<Seq<Seq<char>>> {
    match o {
        Some(v) => Some(strings_view(v@)),
        None => None,
    }
}

/// `r` is the process that `expected` describes, started in `working_dir`,
/// or the same error.
pub open spec fn command_matches(
    r: Result<Command, ExecError>,
    expected: Result<(Seq<Seq<char>>, Option<Seq<Seq<char>>>), ExecError>,
    working_dir: Option<String>,
) -> bool {
    match expected {
        Ok((argv, env)) => r matches Ok(c) && strings_view(c.argv@) == argv && opt_strings(c.env_vars)
            == env && c.working_dir == working_dir,
        Err(e) => r == Err::<Command, ExecError>(e),
    }
}

fn join(words: &Vec<String>) -> (r: Vec<char>)
    ensures
        r@ == join_words(strings_view(words@)),
{
    let mut r: Vec<char> = Vec::new();
    let mut i: usize = 0;
    while i < words.len()
        invariant
            i <= words@.len(),
            r@ == join_words(strings_view(words@).take(i as int)),
        decreases words.len() - i,
    {
        let ghost pre = strings_view(words@).take(i as int);
        assert(strings_view(words@).take(i + 1).drop_last() =~= pre);
        if i > 0 {
            r.push(' ');
        }
        let mut w = chars_of(words[i].as_str());
        r.append(&mut w);
        assert(r@ =~= join_words(strings_view(words@).take(i + 1)));
        i += 1;
    }
    assert(strings_view(words@).take(words@.len() as int) =~= strings_view(words@));
    r
}

fn contains_nul(s: &String) -> (r: bool)
    ensures
        r == has_nul(s@),
{
    let c = chars_of(s.as_str());
    let mut i: usize = 0;
    while i < c.len()
        invariant
            i <= c@.len(),
            c@ == s@,
            forall|k: int| 0 <= k < i ==> c@[k] != '\0',
        decreases c.len() - i,
    {
        if c[i] == '\0' {
            return true;
        }
        i += 1;
    }
    false
}

fn any_contains_nul(v: &Vec<String>) -> (r: bool)
    ensures
        r == any_nul(strings_view(v@)),
{
    let mut i: usize = 0;
    while i < v.len()
        invariant
            i <= v@.len(),
            forall|k: int| 0 <= k < i ==> !has_nul(#[trigger] strings_view(v@)[k]),
        decreases v.len() - i,
    {
        if contains_nul(&v[i]) {
            assert(has_nul(strings_view(v@)[i as int]));
            return true;
        }
        i += 1;
    }
    false
}

/// Builds the process to start from a terminal command (if the program runs
/// in one), the program's words and the parsed input.
pub fn command(term: Option<Vec<String>>, words: Vec<String>, input: &InputValue) -> (r: Result<
    Command,
    ExecError,
>)
    ensures
        command_matches(
            r,
            command_spec(opt_strings(term), strings_view(words@), input.parsed()),
            input.working_dir,
        ),
{
    let mut argv: Vec<String> = match term {
        Some(mut t) => {
            let mut line = join(&words);
            let ghost j = line@;
            match &input.args {
                Some(a) => {
                    line.push(' ');
                    let mut ac = chars_of(a.as_str());
                    let ghost ac0 = ac@;
                    line.append(&mut ac);
                    assert(line@ =~= j + seq![' '] + a@);
                },
                None => {},
            }
            let ghost line_v = line@;
            let s = string_of(line.as_slice());
            assert(s@ == line_v);
            let ghost t0 = t@;
            t.push(s);
            assert(strings_view(t@) =~= strings_view(t0).push(
                match input.parsed().args {
                    Some(a) => join_words(strings_view(words@)) + seq![' '] + a,
                    None => join_words(strings_view(words@)),
                },
            ));
            t
        },
        None => {
            let mut argv = words;
            match &input.args {
                Some(a) => match shell_split(a.as_str()) {
                    Some(mut extra) => {
                        let ghost a0 = argv@;
                        let ghost e0 = extra@;
                        argv.append(&mut extra);
                        assert(strings_view(argv@) =~= strings_view(a0) + strings_view(e0));
                    },
                    None => {
                        return Err(ExecError::InvalidArguments);
                    },
                },
                None => {},
            }
            argv
        },
    };
    let env_vars: Option<Vec<String>> = match &input.env_vars {
        Some(e) => match shell_split(e.as_str()) {
            Some(words) => Some(words),
            None => {
                return Err(ExecError::InvalidEnvs);
            },
        },
        None => None,
    };
    if argv.len() == 0 {
        return Err(ExecError::EmptyCommand);
    }
    if any_contains_nul(&argv) {
        return Err(ExecError::NulByte);
    }
    match &env_vars {
        Some(v) => {
            if any_contains_nul(v) {
                return Err(ExecError::NulByte);
            }
        },
        None => {
            assert(!any_nul(Seq::<Seq<char>>::empty()));
        },
    }
    let working_dir = match &input.working_dir {
        Some(d) => Some(d.clone()),
        None => None,
    };
    Ok(Command { argv, env_vars, working_dir })
}

} // verus!
