//! What a command-line session decides: its exit code, and, over the runs
//! of `main` that replay the input read so far, which part of the output is
//! new.
use crate::text::{chars_of, string_from_chars, sub_chars};
use vstd::prelude::*;

verus! {

/// The exit code of a session: 2 when the program has compile errors (then
/// nothing runs), 0 for a check without errors, otherwise 1 when an `Error`
/// reached `main` and 0 when the run succeeded.
pub open spec fn spec_exit_code(compile_errors: nat, check_only: bool, run_failed: bool) -> i32 {
    if compile_errors > 0 {
        2
    } else if check_only {
        0
    } else if run_failed {
        1
    } else {
        0
    }
}

/// The exit code of a session (see `spec_exit_code`).
pub fn exit_code(compile_errors: usize, check_only: bool, run_failed: bool) -> (c: i32)
    ensures
        c == spec_exit_code(compile_errors as nat, check_only, run_failed),
{
    if compile_errors > 0 {
        2
    } else if check_only {
        0
    } else if run_failed {
        1
    } else {
        0
    }
}

/// The output of a run not shown yet, when the first `shown` characters
/// were, and how many characters are shown after it.
pub fn fresh_output(output: &str, shown: usize) -> (r: (String, usize))
    ensures
        shown < output@.len() ==> r.0@ == output@.subrange(shown as int, output@.len() as int) && r.1 == output@.len(),
        shown >= output@.len() ==> r.0@.len() == 0 && r.1 == shown,
{
    let cs = chars_of(output);
    if shown < cs.len() {
        let rest = sub_chars(&cs, shown, cs.len());
        (string_from_chars(rest.as_slice()), cs.len())
    } else {
        let none: Vec<char> = Vec::new();
        (string_from_chars(none.as_slice()), shown)
    }
}

} // verus!
