//! Error type for TAML parsing: a message with an optional 1-based line
//! number.

use vstd::prelude::*;
use crate::num::int_text;
use crate::text::chars_to_string;
use crate::num::i64_to_chars;
use vstd::string::StringExecFns;

verus! {

/// Result type for TAML operations.
pub type TAMLResult<T> = Result<T, TAMLError>;

/// Error type for TAML operations.
#[derive(Debug, Clone, PartialEq)]
pub struct TAMLError {
    pub message: String,
    pub line: Option<usize>,
}

impl TAMLError {
    /// Create a new TAML error.
    pub fn new(message: &str) -> (e: TAMLError)
        ensures
            e.message@ == message@,
            e.line is None,
    {
        TAMLError { message: message.to_owned(), line: None }
    }

    /// Create a new TAML error with line number.
    pub fn with_line(message: &str, line: usize) -> (e: TAMLError)
        ensures
            e.message@ == message@,
            e.line == Some(line),
    {
        TAMLError { message: message.to_owned(), line: Some(line) }
    }

    /// The error rendered for display: the message, prefixed with its line
    /// number when one is known.
    pub fn display_string(&self) -> (r: String)
        ensures
            r@ == spec_display_string(self.message@, self.line),
    {
        match self.line {
            Some(line) => {
                let mut s: String = "Line ".to_owned();
                if line as u64 <= 0x7FFF_FFFF_FFFF_FFFFu64 {
                    let digits = i64_to_chars(line as i64);
                    let num = chars_to_string(&digits, 0, digits.len());
                    proof {
                        assert(digits@.subrange(0, digits@.len() as int) =~= digits@);
                        assert(num@ == int_text(line as int));
                    }
                    s.append(num.as_str());
                    proof {
                        assert(s@ == "Line "@ + int_text(line as int));
                    }
                }
                s.append(": ");
                s.append(self.message.as_str());
                proof {
                    if !(line as int <= i64::MAX as int) {
                        assert("Line "@ + Seq::<char>::empty() =~= "Line "@);
                    }
                    assert(s@ == spec_display_string(self.message@, self.line));
                }
                s
            },
            None => {
                let s = self.message.clone();
                s
            },
        }
    }
}

/// What `display_string` yields: `Line <n>: <message>` when a line is known,
/// the bare message otherwise.
pub open spec fn spec_display_string(message: Seq<char>, line: Option<usize>) -> Seq<char> {
    match line {
        Some(n) => "Line "@ + (if n as int <= i64::MAX as int { int_text(n as int) } else { Seq::empty() })
            + ": "@ + message,
        None => message,
    }
}

} // verus!
