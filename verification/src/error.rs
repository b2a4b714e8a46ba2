//! The error of a text that cannot be read as key-value pairs.

use vstd::prelude::*;
use vstd::string::StringExecFns;

verus! {

/// A segment of the text in which the key-value separator does not occur.
#[derive(Debug, PartialEq, Eq)]
pub struct ParseError {
    /// The key-value separator that was looked for.
    pub separator: String,
    /// The segment in which it was not found.
    pub segment: String,
}

/// The text of the message for a `segment` without `separator`.
pub open spec fn message_text(separator: Seq<char>, segment: Seq<char>) -> Seq<char> {
    "Cannot find "@ + separator + " in "@ + segment
}

impl ParseError {
    /// A message that names the separator and the segment.
    pub fn message(&self) -> (text: String)
        ensures
            text@ == message_text(self.separator@, self.segment@),
    {
        let mut text = String::from_str("Cannot find ");
        text.append(self.separator.as_str());
        text.append(" in ");
        text.append(self.segment.as_str());
        text
    }
}

} // verus!
