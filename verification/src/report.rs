//! How a failure is put into words for the log.

use vstd::prelude::*;
use vstd::string::StringExecFns;

verus! {

/// The line that names the failed call and the failure.
pub open spec fn failure_line(method_name: Seq<char>, err: Seq<char>) -> Seq<char> {
    method_name + "() failed: "@ + err
}

/// The line that names one cause of the failure.
pub open spec fn cause_line(source: Seq<char>) -> Seq<char> {
    "  Caused by: "@ + source
}

/// The lines to log for a failed call, given what the error says and what
/// the error and each of its sources say, the error first: one line for the
/// failure, then one for each source but the error itself.
pub fn log_error(method_name: &str, err: &str, sources: &Vec<String>) -> (lines: Vec<String>)
    ensures
        lines@.len() == if sources@.len() == 0 {
            1
        } else {
            sources@.len()
        },
        lines@[0]@ == failure_line(method_name@, err@),
        forall|k: int|
            1 <= k < sources@.len() ==> (#[trigger] lines@[k])@ == cause_line(sources@[k]@),
{
    let mut lines: Vec<String> = Vec::new();
    let mut first = String::from_str(method_name);
    first.append("() failed: ");
    first.append(err);
    lines.push(first);
    let mut k: usize = 1;
    while k < sources.len()
        invariant
            1 <= k,
            lines@.len() == if sources@.len() == 0 {
                1
            } else if k <= sources@.len() {
                k as int
            } else {
                sources@.len() as int
            },
            lines@[0]@ == failure_line(method_name@, err@),
            forall|j: int|
                1 <= j < k && j < sources@.len() ==> (#[trigger] lines@[j])@ == cause_line(
                    sources@[j]@,
                ),
        decreases sources.len() - k,
    {
        let mut line = String::from_str("  Caused by: ");
        line.append(sources[k].as_str());
        lines.push(line);
        k = k + 1;
    }
    lines
}

} // verus!
