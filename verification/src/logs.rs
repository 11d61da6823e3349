use vstd::prelude::*;

verus! {

/// A log entry: a separator line, the time stamp on a line of its own, then
/// the text of the run.
pub open spec fn log_entry_text(timestamp: Seq<char>, log: Seq<char>) -> Seq<char> {
    "----\n"@ + timestamp + seq!['\n'] + log
}

/// Builds the log entry written for a run at time `timestamp` (an RFC 2822
/// date).
pub fn log_entry(timestamp: &str, log: &str) -> (entry: String)
    ensures
        entry@ == log_entry_text(timestamp@, log@),
{
    let mut entry = String::from_str("----\n");
    entry.append(timestamp);
    entry.append("\n");
    entry.append(log);
    proof {
        reveal_strlit("\n");
    }
    entry
}

} // verus!
