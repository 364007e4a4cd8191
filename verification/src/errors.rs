use vstd::prelude::*;

use crate::scanner::models::{TokenInfo, TokenInfoView, TokenKind, TokenView};
use crate::text::{decimal, push_decimal};

verus! {

/// An error found while scanning, parsing, resolving or running a program.
#[derive(Debug)]
pub enum InterpreterError {
    Scanner { line: u32, message: String },
    Parser { line: u32, pos: usize, location: String, message: String },
    Runtime { line: u32, message: String },
    Resolver { line: u32, location: String, message: String },
}

/// An error as plain values.
pub enum ErrorView {
    Scanner { line: u32, message: Seq<char> },
    Parser { line: u32, pos: usize, location: Seq<char>, message: Seq<char> },
    Runtime { line: u32, message: Seq<char> },
    Resolver { line: u32, location: Seq<char>, message: Seq<char> },
}

impl View for InterpreterError {
    type V = ErrorView;

    open spec fn view(&self) -> ErrorView {
        match self {
            InterpreterError::Scanner { line, message } => ErrorView::Scanner {
                line: *line,
                message: message@,
            },
            InterpreterError::Parser { line, pos, location, message } => ErrorView::Parser {
                line: *line,
                pos: *pos,
                location: location@,
                message: message@,
            },
            InterpreterError::Runtime { line, message } => ErrorView::Runtime {
                line: *line,
                message: message@,
            },
            InterpreterError::Resolver { line, location, message } => ErrorView::Resolver {
                line: *line,
                location: location@,
                message: message@,
            },
        }
    }
}

/// Where a parse error is reported: `end` at the end of input, else the
/// token's text in single quotes.
pub open spec fn error_location(t: TokenView) -> Seq<char> {
    if t.kind == TokenKind::Eof {
        "end"@
    } else {
        "'"@ + t.lexeme() + "'"@
    }
}

/// `'name'`: a name in single quotes.
pub open spec fn quoted(name: Seq<char>) -> Seq<char> {
    "'"@ + name + "'"@
}

/// The error for a name that no scope defines.
pub open spec fn undefined_variable_view(line: u32, name: Seq<char>) -> ErrorView {
    ErrorView::Runtime { line, message: "Undefined variable "@ + quoted(name) + "."@ }
}

/// The text shown for an error.
pub open spec fn render_view(e: ErrorView) -> Seq<char> {
    match e {
        ErrorView::Scanner { line, message } => "[line "@ + decimal(line as nat) + "] Error: "@
            + message,
        ErrorView::Parser { line, pos: _, location, message } => "[line "@ + decimal(line as nat)
            + "] Error at "@ + location + ": "@ + message,
        ErrorView::Runtime { line, message } => message + "\n[line "@ + decimal(line as nat)
            + "]"@,
        ErrorView::Resolver { line, location, message } => "[line "@ + decimal(line as nat)
            + "] Error at "@ + location + ": "@ + message,
    }
}

/// A new string `'name'`.
pub fn quote(name: &str) -> (r: String)
    ensures
        r@ == quoted(name@),
{
    let mut r = String::from_str("'");
    r.append(name);
    r.append("'");
    r
}

impl InterpreterError {
    pub fn scanner_error(line: u32, message: String) -> (r: InterpreterError)
        ensures
            r@ == (ErrorView::Scanner { line, message: message@ }),
    {
        Self::Scanner { line, message }
    }

    pub fn parser_error(pos: usize, token: &TokenInfo, message: String) -> (r: InterpreterError)
        ensures
            r@ == (ErrorView::Parser {
                line: token.line,
                pos,
                location: error_location(token.token@),
                message: message@,
            }),
    {
        let location = match token.token.kind() {
            TokenKind::Eof => String::from_str("end"),
            _ => quote(token.token.lexeme()),
        };
        Self::Parser { line: token.line, pos, location, message }
    }

    pub fn runtime_error(line: u32, message: String) -> (r: InterpreterError)
        ensures
            r@ == (ErrorView::Runtime { line, message: message@ }),
    {
        InterpreterError::Runtime { line, message }
    }

    pub fn operands_must_be_numbers_error(line: u32) -> (r: InterpreterError)
        ensures
            r@ == (ErrorView::Runtime { line, message: "Operands must be numbers."@ }),
    {
        InterpreterError::Runtime { line, message: String::from_str("Operands must be numbers.") }
    }

    pub fn undefined_variable(line: u32, name: &str) -> (r: InterpreterError)
        ensures
            r@ == undefined_variable_view(line, name@),
    {
        let mut message = String::from_str("Undefined variable ");
        message.append(quote(name).as_str());
        message.append(".");
        InterpreterError::Runtime { line, message }
    }

    pub fn top_level_return(line: u32, location: String) -> (r: InterpreterError)
        ensures
            r@ == (ErrorView::Resolver {
                line,
                location: location@,
                message: "Can't return from top-level code."@,
            }),
    {
        InterpreterError::Resolver {
            line,
            location,
            message: String::from_str("Can't return from top-level code."),
        }
    }

    pub fn self_ref_initializer(line: u32, location: String) -> (r: InterpreterError)
        ensures
            r@ == (ErrorView::Resolver {
                line,
                location: location@,
                message: "Can't read local variable in its own initializer."@,
            }),
    {
        InterpreterError::Resolver {
            line,
            location,
            message: String::from_str("Can't read local variable in its own initializer."),
        }
    }

    pub fn already_defined_variable(line: u32, location: String) -> (r: InterpreterError)
        ensures
            r@ == (ErrorView::Resolver {
                line,
                location: location@,
                message: "Already a variable with this name in this scope."@,
            }),
    {
        InterpreterError::Resolver {
            line,
            location,
            message: String::from_str("Already a variable with this name in this scope."),
        }
    }

    /// The text shown for this error.
    pub fn render(&self) -> (r: String)
        ensures
            r@ == render_view(self@),
    {
        match self {
            InterpreterError::Scanner { line, message } => {
                let mut r = String::from_str("[line ");
                push_decimal(&mut r, *line as u64);
                r.append("] Error: ");
                r.append(message.as_str());
                r
            },
            InterpreterError::Parser { line, pos: _, location, message } => {
                let mut r = String::from_str("[line ");
                push_decimal(&mut r, *line as u64);
                r.append("] Error at ");
                r.append(location.as_str());
                r.append(": ");
                r.append(message.as_str());
                r
            },
            InterpreterError::Runtime { line, message } => {
                let mut r = String::from_str(message.as_str());
                r.append("\n[line ");
                push_decimal(&mut r, *line as u64);
                r.append("]");
                r
            },
            InterpreterError::Resolver { line, location, message } => {
                let mut r = String::from_str("[line ");
                push_decimal(&mut r, *line as u64);
                r.append("] Error at ");
                r.append(location.as_str());
                r.append(": ");
                r.append(message.as_str());
                r
            },
        }
    }
}

} // verus!
