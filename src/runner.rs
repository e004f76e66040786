//! Outcomes of runs of the external model runner.
use vstd::prelude::*;

verus! {

/// What `str::trim` leaves of a text.
pub uninterp spec fn trimmed_of(s: Seq<char>) -> Seq<char>;

/// The text holds only whitespace: trimming leaves nothing.
pub open spec fn is_blank_text(s: Seq<char>) -> bool {
    trimmed_of(s).len() == 0
}

/// Relies on `str::trim`: the text without leading and trailing whitespace.
#[verifier::external_body]
fn trimmed(s: &str) -> (r: String)
    ensures
        r@ == trimmed_of(s@),
        s@.len() == 0 ==> r@.len() == 0,
{
    s.trim().to_string()
}

/// The result of a finished run: its output on success; otherwise its error
/// output, or `failure` when the error output is blank.
pub fn command_outcome(success: bool, stdout: String, stderr: String, failure: &str) -> (r: Result<
    String,
    String,
>)
    ensures
        success ==> r is Ok && r->Ok_0@ == stdout@,
        !success && is_blank_text(stderr@) ==> r is Err && r->Err_0@ == failure@,
        !success && !is_blank_text(stderr@) ==> r is Err && r->Err_0@ == stderr@,
{
    if success {
        Ok(stdout)
    } else if trimmed(stderr.as_str()).as_str().is_empty() {
        Err(String::from_str(failure))
    } else {
        Err(stderr)
    }
}

} // verus!
