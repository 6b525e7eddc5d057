//! The command line that opens the override file in an editor.

use vstd::prelude::*;
use vstd::string::StringExecFns;

verus! {

/// The words of a shell command line; `None` where it is malformed.
pub uninterp spec fn shell_words(s: Seq<char>) -> Option<Seq<Seq<char>>>;

pub open spec fn string_views(v: Seq<String>) -> Seq<Seq<char>> {
    v.map_values(|s: String| s@)
}

/// Relies on `shlex::split`: splits a command line into words as a POSIX
/// shell would, `None` on erroneous input.
#[verifier::external_body]
fn split_words(s: &str) -> (r: Option<Vec<String>>)
    ensures
        match r {
            Some(v) => shell_words(s@) == Some(string_views(v@)),
            None => shell_words(s@) is None,
        },
{
    shlex::split(s)
}

/// The words of the editor command: those of `editor` where it is given
/// and well formed, else the default editor alone.
pub open spec fn editor_words(editor: Option<Seq<char>>, default_editor: Seq<char>) -> Seq<
    Seq<char>,
> {
    match editor {
        Some(e) => match shell_words(e) {
            Some(w) => w,
            None => seq![default_editor],
        },
        None => seq![default_editor],
    }
}

#[derive(Debug, PartialEq, Eq)]
pub enum EditorError {
    /// The editor command has no words.
    Empty,
}

/// A program and the arguments that precede the file to edit.
pub struct EditorCommand {
    pub program: String,
    pub args: Vec<String>,
}

/// The editor command: its last word is the program, the words before it
/// its leading arguments.
pub fn editor_command(editor: Option<&str>, default_editor: &str) -> (r: Result<
    EditorCommand,
    EditorError,
>)
    ensures
        ({
            let w = editor_words(
                match editor {
                    Some(e) => Some(e@),
                    None => None,
                },
                default_editor@,
            );
            &&& (r is Ok <==> w.len() > 0)
            &&& (r matches Ok(c) ==> c.program@ == w.last() && string_views(c.args@)
                == w.drop_last())
        }),
{
    let split = match editor {
        Some(e) => split_words(e),
        None => None,
    };
    let mut words = match split {
        Some(w) => w,
        None => {
            let mut w: Vec<String> = Vec::new();
            w.push(String::from_str(default_editor));
            assert(string_views(w@) =~= seq![default_editor@]);
            w
        },
    };
    let ghost all = string_views(words@);
    match words.pop() {
        Some(p) => {
            assert(string_views(words@) =~= all.drop_last());
            Ok(EditorCommand { program: p, args: words })
        },
        None => Err(EditorError::Empty),
    }
}

} // verus!
