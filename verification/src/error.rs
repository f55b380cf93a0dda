use vstd::prelude::*;
use crate::chars::{dec_of, push_str_chars, push_all, u32_to_chars, chars_to_string};

verus! {

/// Everything that can go wrong in the library or at its edges.
#[derive(Debug)]
pub enum TodoError {
    /// No task carries the requested identifier.
    TaskNotFound(u32),
    /// The surrounding file operation failed; the text tells how.
    IoError(String),
    /// The persisted document could not be decoded; the text tells why.
    SerdeError(String),
    /// The given word names no priority.
    InvalidPriority(String),
    /// The given text is no `YYYY-MM-DD` calendar day.
    InvalidDateFormat(String),
    /// Any other failure, described by its text.
    Custom(String),
}

pub type TodoResult<T> = Result<T, TodoError>;

/// The user-facing description of an error.
pub open spec fn message_spec(e: TodoError) -> Seq<char> {
    match e {
        TodoError::TaskNotFound(id) => "Task with ID "@ + dec_of(id as nat) + " not found"@,
        TodoError::IoError(m) => "File operation failed: "@ + m@,
        TodoError::SerdeError(m) => "JSON parsing failed: "@ + m@,
        TodoError::InvalidPriority(p) => "Invalid priority '"@ + p@
            + "'. Use: high, medium, or low"@,
        TodoError::InvalidDateFormat(d) => "Invalid date format '"@ + d@
            + "'. Expected: YYYY-MM-DD"@,
        TodoError::Custom(m) => "Error: "@ + m@,
    }
}

impl TodoError {
    /// The user-facing description of this error.
    pub fn message(&self) -> (r: String)
        ensures
            r@ == message_spec(*self),
    {
        let mut out: Vec<char> = Vec::new();
        match self {
            TodoError::TaskNotFound(id) => {
                push_str_chars(&mut out, "Task with ID ");
                let digits = u32_to_chars(*id);
                push_all(&mut out, &digits);
                push_str_chars(&mut out, " not found");
            },
            TodoError::IoError(m) => {
                push_str_chars(&mut out, "File operation failed: ");
                push_str_chars(&mut out, m.as_str());
            },
            TodoError::SerdeError(m) => {
                push_str_chars(&mut out, "JSON parsing failed: ");
                push_str_chars(&mut out, m.as_str());
            },
            TodoError::InvalidPriority(p) => {
                push_str_chars(&mut out, "Invalid priority '");
                push_str_chars(&mut out, p.as_str());
                push_str_chars(&mut out, "'. Use: high, medium, or low");
            },
            TodoError::InvalidDateFormat(d) => {
                push_str_chars(&mut out, "Invalid date format '");
                push_str_chars(&mut out, d.as_str());
                push_str_chars(&mut out, "'. Expected: YYYY-MM-DD");
            },
            TodoError::Custom(m) => {
                push_str_chars(&mut out, "Error: ");
                push_str_chars(&mut out, m.as_str());
            },
        }
        chars_to_string(&out)
    }
}

} // verus!
