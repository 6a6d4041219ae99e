//! The one error type of the pipeline.

use vstd::prelude::*;
use vstd::string::StringExecFns;

verus! {

/// Which stage gave up.
#[derive(Clone, Copy, Debug, PartialEq, Eq, Structural)]
pub enum ErrorKind {
    /// The tokenizer found text that starts no token.
    Lexical,
    /// A line is indented less than the line before it, to a width at which
    /// no open block started.
    Indentation,
    /// The tokens do not form a program.
    Syntax,
}

/// A failed compilation: the stage that gave up and the source offset at
/// which it did.
#[derive(Clone, Copy, Debug, PartialEq, Eq, Structural)]
pub struct CompileError {
    pub kind: ErrorKind,
    pub position: usize,
}

impl ErrorKind {
    /// The text of [`CompileError::message`] for this kind.
    pub open spec fn message_text(self) -> Seq<char> {
        match self {
            ErrorKind::Lexical => "Unrecognized character sequence."@,
            ErrorKind::Indentation => "Invalid indention."@,
            ErrorKind::Syntax => "Unexpected token."@,
        }
    }
}

impl CompileError {
    /// A lexical error at `position`.
    pub fn lexical(position: usize) -> (r: CompileError)
        ensures
            r == (CompileError { kind: ErrorKind::Lexical, position }),
    {
        CompileError { kind: ErrorKind::Lexical, position }
    }

    /// An indentation error at `position`.
    pub fn indentation(position: usize) -> (r: CompileError)
        ensures
            r == (CompileError { kind: ErrorKind::Indentation, position }),
    {
        CompileError { kind: ErrorKind::Indentation, position }
    }

    /// A syntax error at `position`.
    pub fn syntax(position: usize) -> (r: CompileError)
        ensures
            r == (CompileError { kind: ErrorKind::Syntax, position }),
    {
        CompileError { kind: ErrorKind::Syntax, position }
    }

    /// A sentence that says what went wrong.
    pub fn message(&self) -> (r: String)
        ensures
            r@ == self.kind.message_text(),
    {
        match self.kind {
            ErrorKind::Lexical => String::from_str("Unrecognized character sequence."),
            ErrorKind::Indentation => String::from_str("Invalid indention."),
            ErrorKind::Syntax => String::from_str("Unexpected token."),
        }
    }
}

} // verus!
