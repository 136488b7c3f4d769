//! The lines that nodes show, and how a reply is normalised.

use vstd::prelude::*;
use vstd::string::StringExecFns;

verus! {

/// A reply line without its leading and trailing white space, as `str::trim` gives it.
pub uninterp spec fn trimmed(s: Seq<char>) -> Seq<char>;

/// The characters held by each string of a sequence.
pub open spec fn texts(v: Seq<String>) -> Seq<Seq<char>> {
    v.map_values(|s: String| s@)
}

/// How an option of a choice is shown: its label in brackets.
pub open spec fn option_line(label: Seq<char>) -> Seq<char> {
    "[ "@ + label + " ]"@
}

/// The notice shown when a reply names no option; it echoes the reply as read.
pub open spec fn notice_line(reply: Seq<char>) -> Seq<char> {
    "Invalid selection! You wrote: "@ + reply
}

/// Relies on `str::trim`: the reply without leading and trailing white space
/// (the line break that a line read keeps included), which depends on the
/// reply's characters alone.
#[verifier::external_body]
pub(crate) fn trim_reply(reply: &String) -> (r: String)
    ensures
        r@ == trimmed(reply@),
{
    reply.trim().to_string()
}

/// The line that shows one option of a choice.
pub fn option_text(label: &String) -> (r: String)
    ensures
        r@ == option_line(label@),
{
    let mut line = String::from_str("[ ");
    line.append(label.as_str());
    line.append(" ]");
    line
}

/// The line that rejects a reply naming no option.
pub fn notice_text(reply: &String) -> (r: String)
    ensures
        r@ == notice_line(reply@),
{
    let mut line = String::from_str("Invalid selection! You wrote: ");
    line.append(reply.as_str());
    line
}

} // verus!
