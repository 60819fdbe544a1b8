//! The failure model: a parse failure carries a human-readable message, an
//! optional diagnostic context, and a flag telling an ordinary (backtrackable)
//! failure apart from a committed ("cut") one.

use vstd::prelude::*;

verus! {

/// A parse failure. `cut == false` means "this alternative does not match
/// here" and may be recovered by rewinding; `cut == true` means "this
/// alternative was right but malformed further in" and is never rewound.
#[derive(Debug)]
pub struct ParseFailure {
    pub message: String,
    pub context: Option<String>,
    pub cut: bool,
}

impl ParseFailure {
    /// An ordinary, backtrackable failure with no context attached yet.
    pub fn ordinary(message: String) -> (e: ParseFailure)
        ensures
            e.message == message,
            e.context is None,
            !e.cut,
    {
        ParseFailure { message, context: None, cut: false }
    }

    /// A committed failure: it forecloses further alternatives.
    pub fn committed(message: String) -> (e: ParseFailure)
        ensures
            e.message == message,
            e.context is None,
            e.cut,
    {
        ParseFailure { message, context: None, cut: true }
    }

    /// Whether this failure is committed.
    pub fn is_cut(&self) -> (r: bool)
        ensures
            r == self.cut,
    {
        self.cut
    }

    /// The same failure with the given diagnostic context attached.
    pub fn with_context(self, context: Option<String>) -> (e: ParseFailure)
        ensures
            e.message == self.message,
            e.context == context,
            e.cut == self.cut,
    {
        ParseFailure { message: self.message, context, cut: self.cut }
    }
}

} // verus!
