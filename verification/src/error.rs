//! The lines of text in which errors are reported.
use vstd::prelude::*;
use vstd::string::StringExecFns;

verus! {

/// An error as a line of a log: the time and the tag of its kind in
/// brackets, then what it says.
pub fn error_line(time: &str, tag: &str, msg: &str) -> (text: String)
    ensures
        text@ == "["@ + time@ + " "@ + tag@ + "] "@ + msg@,
{
    let mut text = String::from_str("[");
    text.append(time);
    text.append(" ");
    text.append(tag);
    text.append("] ");
    text.append(msg);
    text
}

/// What is said of a browser that the page does not work in, with the
/// address at which more can be read.
pub fn incompatible_text(link: &str) -> (text: String)
    ensures
        text@ == "This page is not supported by your browser, check <"@ + link@
            + "> to get more information"@,
{
    let mut text = String::from_str("This page is not supported by your browser, check <");
    text.append(link);
    text.append("> to get more information");
    text
}

/// What is sent of an error: its line, and what was being done.
pub fn submitted_text(line: &str, msg: &str) -> (text: String)
    ensures
        text@ == line@ + "-> "@ + msg@,
{
    let mut text = String::from_str(line);
    text.append("-> ");
    text.append(msg);
    text
}

} // verus!
