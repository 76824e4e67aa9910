//! What can go wrong while dive statistics are gathered and merged.

use vstd::prelude::*;

verus! {

/// The failures of this crate.  Each carries the text that explains it.
#[derive(Debug)]
pub enum Fit2SrtError {
    /// Two sets of statistics do not go together, or a unit is not known.
    MergeError(String),
    /// The statistics of a log could not be read.
    SummaryError(String),
}

impl Fit2SrtError {
    /// What `message` returns.
    pub open spec fn message_spec(self) -> Seq<char> {
        match self {
            Fit2SrtError::MergeError(text) => "Can not merge: `"@ + text@ + "`"@,
            Fit2SrtError::SummaryError(text) => "Parse Summary Error: "@ + text@,
        }
    }

    /// The failure as a line for the user.
    pub fn message(&self) -> (line: String)
        ensures
            line@ == self.message_spec(),
    {
        match self {
            Fit2SrtError::MergeError(text) => {
                let mut line = String::from_str("Can not merge: `");
                line.append(text.as_str());
                line.append("`");
                line
            },
            Fit2SrtError::SummaryError(text) => {
                let mut line = String::from_str("Parse Summary Error: ");
                line.append(text.as_str());
                line
            },
        }
    }
}

} // verus!
