//! Reading operator input through an injected line editor.
use crate::editor::Editor;
use crate::error::Error;
use std::io::Write;
use vstd::prelude::*;
use vstd::string::StrSliceExecFns;

verus! {

/// Whether the answer reads yes, in any letter case.
pub open spec fn answer_yes(s: Seq<char>) -> bool {
    ||| (s.len() == 1 && (s[0] == 'y' || s[0] == 'Y'))
    ||| (s.len() == 3 && (s[0] == 'y' || s[0] == 'Y') && (s[1] == 'e' || s[1] == 'E') && (s[2]
        == 's' || s[2] == 'S'))
}

/// Whether the answer reads no, in any letter case.
pub open spec fn answer_no(s: Seq<char>) -> bool {
    ||| (s.len() == 1 && (s[0] == 'n' || s[0] == 'N'))
    ||| (s.len() == 2 && (s[0] == 'n' || s[0] == 'N') && (s[1] == 'o' || s[1] == 'O'))
}

/// Classifies a confirmation answer: yes, no, or not an answer at all.
pub fn confirmation_answer(answer: &str) -> (r: Option<bool>)
    ensures
        r == if answer_yes(answer@) {
            Some(true)
        } else if answer_no(answer@) {
            Some(false)
        } else {
            None::<bool>
        },
{
    let len = answer.unicode_len();
    if len == 1 {
        let c = answer.get_char(0);
        if c == 'y' || c == 'Y' {
            Some(true)
        } else if c == 'n' || c == 'N' {
            Some(false)
        } else {
            None
        }
    } else if len == 2 {
        let a = answer.get_char(0);
        let b = answer.get_char(1);
        if (a == 'n' || a == 'N') && (b == 'o' || b == 'O') {
            Some(false)
        } else {
            None
        }
    } else if len == 3 {
        let a = answer.get_char(0);
        let b = answer.get_char(1);
        let c = answer.get_char(2);
        if (a == 'y' || a == 'Y') && (b == 'e' || b == 'E') && (c == 's' || c == 'S') {
            Some(true)
        } else {
            None
        }
    } else {
        None
    }
}

/// Relies on std::io::Stdout::write_fmt, through the writeln macro: shows the
/// prompt to the operator. Nothing is promised of the terminal.
#[verifier::external_body]
fn print_prompt(message: &str) {
    let _ = writeln!(std::io::stdout(), "  {}", message);
}

/// Reads operator input through an injected line editor.
pub struct InputReader<E: Editor> {
    editor: E,
}

impl<E: Editor> InputReader<E> {
    pub fn new(editor: E) -> InputReader<E> {
        InputReader { editor }
    }

    /// Shows the prompt and hands back whatever line the editor produces;
    /// what that line holds is the editor's affair alone.
    pub fn request_user_input(&mut self, request_msg: &str) -> Result<String, Error> {
        print_prompt(request_msg);
        self.editor.read_line()
    }

    /// Asks until the editor produces a line reading yes or no, in any letter
    /// case; an editor error counts as no answer and is asked again. An
    /// operator who gives no usable answer within the attempt bound has not
    /// confirmed.
    pub fn ask_confirmation(&mut self, confirmation_msg: &str) -> bool {
        let mut attempts: usize = 0;
        while attempts < MAX_CONFIRMATION_ATTEMPTS
            decreases MAX_CONFIRMATION_ATTEMPTS - attempts,
        {
            attempts = attempts + 1;
            let answer = match self.request_user_input(confirmation_msg) {
                Ok(line) => line,
                Err(_) => {
                    continue ;
                },
            };
            match confirmation_answer(answer.as_str()) {
                Some(decision) => {
                    return decision;
                },
                None => {
                    print_prompt("Invalid answer, try typing 'y' for yes or 'n' for no.");
                },
            }
        }
        false
    }
}

/// How often a confirmation is re-asked before it counts as declined.
pub const MAX_CONFIRMATION_ATTEMPTS: usize = 100;

} // verus!
