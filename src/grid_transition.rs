//! Slide transitions of the deck viewer, which lays slides out on a grid and
//! can also move across it: their kinds, and the state of one in progress.
use vstd::prelude::*;

use std::time::Instant;

use crate::text::chars_of;
use crate::transition::transition_done;

verus! {

#[derive(Debug, Clone, Copy, PartialEq, Eq, Structural)]
pub enum TransitionKind {
    Fade,
    SlideHorizontal,
    Spatial,
    NoTransition,
}

#[derive(Debug, Clone, Copy, PartialEq, Eq, Structural)]
pub enum TransitionDirection {
    Forward,
    Backward,
}

pub struct ActiveTransition {
    pub from: usize,
    pub to: usize,
    pub kind: TransitionKind,
    pub direction: TransitionDirection,
    pub start: Instant,
}

/// The transition a name selects; unknown names select the horizontal slide.
pub open spec fn kind_named(name: Seq<char>) -> TransitionKind {
    if name == seq!['f', 'a', 'd', 'e'] {
        TransitionKind::Fade
    } else if name == seq!['s', 'l', 'i', 'd', 'e'] {
        TransitionKind::SlideHorizontal
    } else if name == seq!['s', 'p', 'a', 't', 'i', 'a', 'l'] {
        TransitionKind::Spatial
    } else if name == seq!['n', 'o', 'n', 'e'] {
        TransitionKind::NoTransition
    } else {
        TransitionKind::SlideHorizontal
    }
}

/// The sign of `d`: -1, 0 or 1.
pub open spec fn sign(d: int) -> i8 {
    if d < 0 {
        -1i8
    } else if d > 0 {
        1i8
    } else {
        0i8
    }
}

fn sign_of(a: usize, b: usize) -> (r: i8)
    ensures
        r == sign(b - a),
{
    if b < a {
        -1
    } else if b > a {
        1
    } else {
        0
    }
}

impl ActiveTransition {
    /// A transition from slide `from` to slide `to`, starting now.
    pub fn new(
        from: usize,
        to: usize,
        kind: TransitionKind,
        direction: TransitionDirection,
    ) -> (r: Self)
        ensures
            r.from == from,
            r.to == to,
            r.kind == kind,
            r.direction == direction,
    {
        ActiveTransition { from, to, kind, direction, start: Instant::now() }
    }

    /// Whether the transition has run its whole length (read from the clock).
    pub fn is_complete(&self) -> bool {
        let elapsed = self.start.elapsed();
        transition_done(elapsed.as_millis())
    }

    /// The direction of a move on a grid of `cols` columns: the signs of the
    /// column and row changes from `from` to `to`.
    pub fn spatial_direction(&self, cols: usize) -> (r: (i8, i8))
        requires
            cols > 0,
        ensures
            r.0 == sign((self.to % cols) - (self.from % cols)),
            r.1 == sign((self.to / cols) - (self.from / cols)),
    {
        let dx = sign_of(self.from % cols, self.to % cols);
        let dy = sign_of(self.from / cols, self.to / cols);
        (dx, dy)
    }
}

impl TransitionKind {
    /// The transition a name selects: `fade`, `slide`, `spatial`, `none`;
    /// anything else selects `slide`.
    pub fn from_name(name: &str) -> (r: Self)
        ensures
            r == kind_named(name@),
    {
        let n = chars_of(name);
        let fade: Vec<char> = vec!['f', 'a', 'd', 'e'];
        let slide: Vec<char> = vec!['s', 'l', 'i', 'd', 'e'];
        let spatial: Vec<char> = vec!['s', 'p', 'a', 't', 'i', 'a', 'l'];
        let none: Vec<char> = vec!['n', 'o', 'n', 'e'];
        if crate::text::eq_chars(&n, &fade) {
            TransitionKind::Fade
        } else if crate::text::eq_chars(&n, &slide) {
            TransitionKind::SlideHorizontal
        } else if crate::text::eq_chars(&n, &spatial) {
            TransitionKind::Spatial
        } else if crate::text::eq_chars(&n, &none) {
            TransitionKind::NoTransition
        } else {
            TransitionKind::SlideHorizontal
        }
    }
}

} // verus!
