//! The shared wire types that carry keymaps between the tools, and the
//! splitting of shell command strings. Reading and writing the binary
//! keymap file happens outside.

use vstd::prelude::*;

verus! {

/// The editor configuration as it travels between the tools.
#[derive(Debug)]
pub struct FastEditorConfigProtocal {
    pub keymap: Vec<FastKeyMapProtocol>,
}

/// A list of keymap entries as read from the configuration file.
#[derive(Debug)]
pub struct KeyMapListProtocal(pub Vec<FastKeyMapProtocol>);

/// One keymap entry: the input description and the command name, both
/// still unparsed.
#[derive(Debug)]
pub struct FastKeyMapProtocol {
    pub input: String,
    pub command: String,
}

/// The words `shlex` splits a shell command string into, or nothing if
/// the string cannot be split.
pub uninterp spec fn shlex_words(s: Seq<char>) -> Option<Seq<Seq<char>>>;

/// Relies on `shlex::split`: splits a command string into its words
/// under POSIX shell quoting, or reports that the string is erroneous;
/// the result depends on the string alone.
#[verifier::external_body]
fn shlex_split(command_string: &str) -> (r: Option<Vec<String>>)
    ensures
        match r {
            Some(v) => shlex_words(command_string@) matches Some(w) && v.deep_view() == w,
            None => shlex_words(command_string@) is None,
        },
{
    shlex::split(command_string)
}

/// Why a command string yields no command.
#[derive(Debug, PartialEq, Eq)]
pub enum ShellCommandError {
    /// The string cannot be split under shell quoting rules.
    Unparsable,
    /// The string holds no words at all.
    Empty,
}

/// The program and arguments a command string names: the split words,
/// refused when the string cannot be split or holds no word. The caller
/// builds the actual process from them.
pub fn native_shell_parts(command_string: &str) -> (r: Result<Vec<String>, ShellCommandError>)
    ensures
        match r {
            Ok(v) => shlex_words(command_string@) matches Some(w) && v.deep_view() == w
                && w.len() > 0,
            Err(e) => match e {
                ShellCommandError::Unparsable => shlex_words(command_string@) is None,
                ShellCommandError::Empty => shlex_words(command_string@) matches Some(w) && w.len()
                    == 0,
            },
        },
{
    let args = match shlex_split(command_string) {
        Some(a) => a,
        None => {
            return Err(ShellCommandError::Unparsable);
        },
    };
    if args.len() == 0 {
        proof {
            assert(args.deep_view() =~= Seq::<Seq<char>>::empty());
        }
        return Err(ShellCommandError::Empty);
    }
    Ok(args)
}

} // verus!
