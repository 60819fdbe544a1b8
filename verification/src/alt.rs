//! The ordered-alternative selection engine: tries candidate branches in
//! order against a saved marker, rewinds the cursor on an ordinary failure,
//! commits on the first success, and turns a cut failure into an immediate
//! hard result without rewinding.
//!
//! Grammar code drives the engine one branch at a time: it captures the
//! engine with [`Switch::begin`], runs a branch's sub-parse against the
//! cursor, hands the outcome to [`Switch::branch`], and, once no branch is
//! left, closes the attempt with [`Switch::finish`].

use vstd::prelude::*;

use crate::error::ParseFailure;
use crate::text::Marker;
use crate::text::Text;
use crate::text::snippet;

verus! {

/// Where an alternative-selection attempt stands: a branch is being tried,
/// one has fully matched, or a failure has become the overall result.
pub enum SwitchState<T> {
    Scanning,
    Committed(T),
    Exhausted(ParseFailure),
}

/// An ordered-alternative attempt over one cursor. Holds the marker taken
/// before the first branch; every ordinary branch failure rewinds to it.
pub struct Switch<T> {
    pub start: Marker,
    pub state: SwitchState<T>,
}

impl<T> Switch<T> {
    /// Opens an attempt, capturing the pre-attempt position of `input`.
    /// `info` is a diagnostic hint only.
    pub fn begin(input: &Text, info: &str) -> (s: Switch<T>)
        requires
            input.wf(),
        ensures
            s.start == input.marker_at(),
            s.state is Scanning,
            input.valid_marker(s.start),
    {
        Switch { start: input.mark(info), state: SwitchState::Scanning }
    }

    /// True while no branch has matched and no failure has become final,
    /// i.e. while the next branch should still be run.
    pub fn is_scanning(&self) -> (r: bool)
        ensures
            r == (self.state is Scanning),
    {
        match &self.state {
            SwitchState::Scanning => true,
            _ => false,
        }
    }

    /// Feeds one branch's outcome to the engine. A success commits: its
    /// result is final and the cursor keeps the branch's consumption. An
    /// ordinary failure rewinds the cursor to the pre-attempt marker and
    /// scanning goes on. A failure of a branch marked `cut`, or one already
    /// committed, never rewinds: the cursor stays where the branch left it
    /// and the failure becomes the overall result, hardened to committed.
    pub fn branch(&mut self, input: &mut Text, outcome: Result<T, ParseFailure>, cut: bool)
        requires
            old(self).state is Scanning,
            old(input).wf(),
            old(input).valid_marker(old(self).start),
        ensures
            final(self).start == old(self).start,
            final(input).wf(),
            final(input).valid_marker(old(self).start),
            (match outcome {
                Ok(v) => {
                    &&& final(self).state == SwitchState::Committed(v)
                    &&& *final(input) == *old(input)
                },
                Err(e) => {
                    if cut || e.cut {
                        &&& final(self).state matches SwitchState::Exhausted(h)
                            && h.message == e.message
                            && h.context == e.context
                            && h.cut
                        &&& *final(input) == *old(input)
                    } else {
                        &&& final(self).state is Scanning
                        &&& *final(input) == old(input).rewound(old(self).start)
                    }
                },
            }),
    {
        match outcome {
            Ok(v) => {
                self.state = SwitchState::Committed(v);
            },
            Err(e) => {
                if cut || e.is_cut() {
                    self.state = SwitchState::Exhausted(
                        ParseFailure { message: e.message, context: e.context, cut: true },
                    );
                } else {
                    input.rewind(self.start);
                }
            },
        }
    }

    /// Closes the attempt. A committed branch yields its result; a hard
    /// failure surfaces as it is. If every branch failed ordinarily, the
    /// overall result is an ordinary failure carrying `message` and the
    /// diagnostic context at the cursor's current position (the position at
    /// which the branches were attempted).
    pub fn finish(self, input: &Text, message: String) -> (r: Result<T, ParseFailure>)
        requires
            input.wf(),
        ensures
            (match self.state {
                SwitchState::Committed(v) => r == Ok::<T, ParseFailure>(v),
                SwitchState::Exhausted(e) => r == Err::<T, ParseFailure>(e),
                SwitchState::Scanning => (match r {
                    Err(e) => {
                        &&& e.message == message
                        &&& !e.cut
                        &&& (match e.context {
                            Some(c) => input.remaining().len() > 0 && c@ == snippet(
                                input.remaining(),
                            ),
                            None => input.remaining().len() == 0,
                        })
                    },
                    Ok(_) => false,
                }),
            }),
    {
        match self.state {
            SwitchState::Committed(v) => Ok(v),
            SwitchState::Exhausted(e) => Err(e),
            SwitchState::Scanning => {
                let context = input.context(None);
                Err(ParseFailure { message, context, cut: false })
            },
        }
    }
}

/// A single speculative attempt, the `try` form of the engine: a success
/// becomes a present value, an ordinary failure becomes an absent value with
/// the cursor rewound to `start`, and a committed failure propagates
/// unmodified without rewinding.
pub fn attempt<T>(input: &mut Text, start: Marker, outcome: Result<T, ParseFailure>) -> (r: Result<
    Option<T>,
    ParseFailure,
>)
    requires
        old(input).wf(),
        old(input).valid_marker(start),
    ensures
        final(input).wf(),
        (match outcome {
            Ok(v) => r == Ok::<Option<T>, ParseFailure>(Some(v)) && *final(input) == *old(input),
            Err(e) => {
                if e.cut {
                    r == Err::<Option<T>, ParseFailure>(e) && *final(input) == *old(input)
                } else {
                    r == Ok::<Option<T>, ParseFailure>(None::<T>) && *final(input) == old(
                        input,
                    ).rewound(start)
                }
            },
        }),
{
    match outcome {
        Ok(v) => Ok(Some(v)),
        Err(e) => {
            if e.is_cut() {
                Err(e)
            } else {
                input.rewind(start);
                Ok(None)
            }
        },
    }
}

} // verus!
