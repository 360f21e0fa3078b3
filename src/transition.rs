//! Slide transitions of the presentation app: their kinds, and the state of
//! one in progress.
use vstd::prelude::*;

use std::time::Instant;

use crate::text::chars_of;

verus! {

#[verifier::external_type_specification]
#[verifier::external_body]
pub struct ExInstant(std::time::Instant);

/// `Instant::now`: the current time; nothing is known of its value.
pub assume_specification[ std::time::Instant::now ]() -> std::time::Instant;

/// `Instant::elapsed`: the time since the instant; nothing is known of it.
pub assume_specification[ std::time::Instant::elapsed ](i: &std::time::Instant) -> core::time::Duration;

/// `Duration::as_millis`: whole milliseconds of a duration.
pub assume_specification[ core::time::Duration::as_millis ](d: &core::time::Duration) -> u128;

/// How long a transition lasts, in milliseconds.
pub const TRANSITION_MILLIS: u128 = 300;

#[derive(Debug, Clone, Copy, PartialEq, Eq, Structural)]
pub enum TransitionKind {
    Fade,
    SlideHorizontal,
    NoTransition,
}

#[derive(Debug, Clone, Copy, PartialEq, Eq, Structural)]
pub enum TransitionDirection {
    Forward,
    Backward,
}

pub struct ActiveTransition {
    pub from: usize,
    pub to: usize,
    pub kind: TransitionKind,
    pub direction: TransitionDirection,
    pub start: Instant,
}

/// The transition a name selects: `fade` and `none`; every other name,
/// `slide` included, selects the horizontal slide.
pub open spec fn kind_named(name: Seq<char>) -> TransitionKind {
    if name == seq!['f', 'a', 'd', 'e'] {
        TransitionKind::Fade
    } else if name == seq!['n', 'o', 'n', 'e'] {
        TransitionKind::NoTransition
    } else {
        TransitionKind::SlideHorizontal
    }
}

/// Whether a transition that has run `elapsed_ms` milliseconds is over.
pub fn transition_done(elapsed_ms: u128) -> (r: bool)
    ensures
        r == (elapsed_ms >= TRANSITION_MILLIS),
{
    elapsed_ms >= TRANSITION_MILLIS
}

impl ActiveTransition {
    /// A transition from slide `from` to slide `to`, starting now.
    pub fn new(
        from: usize,
        to: usize,
        kind: TransitionKind,
        direction: TransitionDirection,
    ) -> (r: Self)
        ensures
            r.from == from,
            r.to == to,
            r.kind == kind,
            r.direction == direction,
    {
        ActiveTransition { from, to, kind, direction, start: Instant::now() }
    }

    /// Whether the transition has run its whole length (read from the clock).
    pub fn is_complete(&self) -> bool {
        let elapsed = self.start.elapsed();
        transition_done(elapsed.as_millis())
    }
}

impl TransitionKind {
    /// The transition a name selects: `fade`, `none`; anything else selects
    /// the horizontal slide.
    pub fn from_name(name: &str) -> (r: Self)
        ensures
            r == kind_named(name@),
    {
        let n = chars_of(name);
        let fade: Vec<char> = vec!['f', 'a', 'd', 'e'];
        let none: Vec<char> = vec!['n', 'o', 'n', 'e'];
        if crate::text::eq_chars(&n, &fade) {
            TransitionKind::Fade
        } else if crate::text::eq_chars(&n, &none) {
            TransitionKind::NoTransition
        } else {
            TransitionKind::SlideHorizontal
        }
    }
}

} // verus!
