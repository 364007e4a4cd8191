use vstd::prelude::*;

pub mod ast;
pub mod errors;
pub mod interpreter;
pub mod parser;
pub mod resolver;
pub mod runtime;
pub mod scanner;
pub mod state;
pub mod text;

use crate::runtime::Number;

verus! {

/// A value as a program's outside sees it.
#[derive(Debug)]
pub enum VariableValue {
    Str { value: String },
    Num { value: Number },
    Boolean { value: bool },
}

impl VariableValue {
    /// The text shown for this value. A number has none here: its text is
    /// floating-point formatting, left to the host.
    pub fn text(&self) -> (r: Option<String>)
        ensures
            match self {
                VariableValue::Str { value } => r matches Some(t) && t@ == value@,
                VariableValue::Num { .. } => r is None,
                VariableValue::Boolean { value } => r matches Some(t) && t@ == (if *value {
                    "true"@
                } else {
                    "false"@
                }),
            },
    {
        match self {
            VariableValue::Str { value } => Some(value.clone()),
            VariableValue::Num { .. } => None,
            VariableValue::Boolean { value } => if *value {
                Some(String::from_str("true"))
            } else {
                Some(String::from_str("false"))
            },
        }
    }
}

} // verus!
