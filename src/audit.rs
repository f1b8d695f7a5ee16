//! Lines of the audit log.
use vstd::prelude::*;
use vstd::string::*;

verus! {

/// A line of the audit log: the time stamp, an arrow, the message and a line
/// break.
pub open spec fn log_line_text(stamp: Seq<char>, message: Seq<char>) -> Seq<char> {
    stamp + " => "@ + message + "\n"@
}

/// Relies on chrono's `Local::now` and `DateTime::format`: the local time of
/// the call as `%Y-%m-%d %H:%M:%S`. It depends on the clock and the time zone,
/// so nothing is promised of it.
#[verifier::external_body]
fn local_timestamp() -> (r: String) {
    chrono::Local::now().format("%Y-%m-%d %H:%M:%S").to_string()
}

/// Builds an audit log line from a time stamp and a message.
pub fn log_line(stamp: &str, message: &str) -> (r: String)
    ensures
        r@ == log_line_text(stamp@, message@),
{
    let mut r = stamp.to_owned();
    r.append(" => ");
    r.append(message);
    r.append("\n");
    r
}

/// Builds an audit log line for a message, stamped with the local time now.
pub fn stamped_log_line(message: &str) -> (r: String)
    ensures
        exists|stamp: Seq<char>| r@ == log_line_text(stamp, message@),
{
    let stamp = local_timestamp();
    let r = log_line(stamp.as_str(), message);
    assert(r@ == log_line_text(stamp@, message@));
    r
}

} // verus!
