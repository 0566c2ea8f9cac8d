use vstd::prelude::*;

use crate::offset::{canonical_text, error_message};
use crate::parse::{normalize, spec_normalize};
use crate::text::{chars_of, trim, trim_bounds};

verus! {

/// What the batch mode has seen so far: whether any non-blank line came in,
/// and whether any of them was not an offset.
#[derive(Debug, Clone, Copy, PartialEq, Eq, Structural)]
pub struct BatchState {
    pub saw_any: bool,
    pub had_error: bool,
}

/// What to do with one line of input.
#[derive(Debug)]
pub enum LineReport {
    /// A blank line: nothing to print.
    Skip,
    /// Print this to standard output.
    Output(String),
    /// Print this to standard error.
    ErrorOutput(String),
}

/// How the batch mode ends.
#[derive(Debug, Clone, Copy, PartialEq, Eq, Structural)]
pub enum BatchEnd {
    /// Every line was an offset.
    Success,
    /// Some line was not an offset.
    Failure,
    /// There was no non-blank line at all: print the usage and fail.
    Usage,
}

impl BatchState {
    /// The state before the first line.
    pub fn new() -> (s: Self)
        ensures
            !s.saw_any,
            !s.had_error,
    {
        BatchState { saw_any: false, had_error: false }
    }
}

/// Handles one line of the batch mode: a blank line is skipped; any other
/// line is trimmed and normalized, and reported as `line -> +HH:MM` for
/// standard output or `line -> error: message` for standard error. A bad
/// line is remembered but does not stop the batch.
pub fn batch_line(state: BatchState, line: &str) -> (r: (BatchState, LineReport))
    ensures
        trim(line@).len() == 0 ==> r.0 == state && r.1 is Skip,
        trim(line@).len() > 0 ==> r.0 == (BatchState {
            saw_any: true,
            had_error: state.had_error || spec_normalize(trim(line@)) is Err,
        }),
        trim(line@).len() > 0 ==> match spec_normalize(trim(line@)) {
            Ok(m) => r.1 matches LineReport::Output(s) && s@ == trim(line@) + " -> "@
                + canonical_text(m),
            Err(e) => r.1 matches LineReport::ErrorOutput(s) && s@ == trim(line@)
                + " -> error: "@ + error_message(e),
        },
{
    let v = chars_of(line);
    assert(v@.subrange(0, v@.len() as int) =~= v@);
    let (a, b) = trim_bounds(v.as_slice(), 0, v.len());
    if a == b {
        return (state, LineReport::Skip);
    }
    let trimmed: &str = line.substring_char(a, b);
    let mut text = String::from_str(trimmed);
    match normalize(trimmed) {
        Ok(offset) => {
            text.append(" -> ");
            let canonical = offset.to_string();
            text.append(canonical.as_str());
            (BatchState { saw_any: true, had_error: state.had_error }, LineReport::Output(text))
        },
        Err(e) => {
            text.append(" -> error: ");
            let message = e.to_string();
            text.append(message.as_str());
            (BatchState { saw_any: true, had_error: true }, LineReport::ErrorOutput(text))
        },
    }
}

/// How the batch mode ends once the input is exhausted: with the usage when
/// no non-blank line came in, with failure when some line was not an
/// offset, with success otherwise.
pub fn batch_end(state: BatchState) -> (e: BatchEnd)
    ensures
        e == if !state.saw_any {
            BatchEnd::Usage
        } else if state.had_error {
            BatchEnd::Failure
        } else {
            BatchEnd::Success
        },
{
    if !state.saw_any {
        BatchEnd::Usage
    } else if state.had_error {
        BatchEnd::Failure
    } else {
        BatchEnd::Success
    }
}

} // verus!
