//! Animation cursors: the frame indices an animated entity runs through,
//! one per frame of the game.

use vstd::prelude::*;
use crate::components::{Renderable, RenderableType};

verus! {

/// A sequence of frame indices with a cursor. It either ends behind its last
/// index or starts over from the first.
#[derive(Clone, Debug, PartialEq, Eq)]
pub struct AnimationSequence {
    frames: Vec<usize>,
    cursor: usize,
    cyclic: bool,
}

/// What an `AnimationSequence` holds: its frame indices, how many of them
/// the cursor has passed in this round, and whether it starts over.
pub ghost struct Cursor {
    pub frames: Seq<usize>,
    pub at: nat,
    pub cyclic: bool,
}

impl Cursor {
    /// The index the sequence yields next, if it has not ended.
    pub open spec fn peek(self) -> Option<usize> {
        if self.at < self.frames.len() {
            Some(self.frames[self.at as int])
        } else {
            None
        }
    }

    /// The cursor after it yielded once. A cursor that has ended stays as it
    /// is.
    pub open spec fn advanced(self) -> Cursor {
        if self.at < self.frames.len() {
            if self.cyclic && self.at + 1 == self.frames.len() {
                Cursor { at: 0, ..self }
            } else {
                Cursor { at: self.at + 1, ..self }
            }
        } else {
            self
        }
    }

    /// The cursor after it yielded `steps` times.
    pub open spec fn advanced_by(self, steps: nat) -> Cursor
        decreases steps,
    {
        if steps == 0 {
            self
        } else {
            self.advanced().advanced_by((steps - 1) as nat)
        }
    }

    /// The cursor back at the first index.
    pub open spec fn restarted(self) -> Cursor {
        Cursor { at: 0, ..self }
    }
}

impl View for AnimationSequence {
    type V = Cursor;

    closed spec fn view(&self) -> Cursor {
        Cursor { frames: self.frames@, at: self.cursor as nat, cyclic: self.cyclic }
    }
}

impl AnimationSequence {
    /// A sequence that yields `frames` once and ends.
    pub fn once(frames: Vec<usize>) -> (sequence: AnimationSequence)
        ensures
            sequence@ == (Cursor { frames: frames@, at: 0, cyclic: false }),
    {
        AnimationSequence { frames, cursor: 0, cyclic: false }
    }

    /// A sequence that yields `frames` over and over. With no frames it
    /// yields nothing.
    pub fn cycle(frames: Vec<usize>) -> (sequence: AnimationSequence)
        ensures
            sequence@ == (Cursor { frames: frames@, at: 0, cyclic: true }),
    {
        AnimationSequence { frames, cursor: 0, cyclic: true }
    }

    /// Yields the next frame index and moves the cursor on, or yields
    /// nothing where the sequence has ended.
    pub fn next(&mut self) -> (frame: Option<usize>)
        ensures
            frame == old(self)@.peek(),
            final(self)@ == old(self)@.advanced(),
    {
        if self.cursor < self.frames.len() {
            let frame: usize = self.frames[self.cursor];
            if self.cyclic && self.cursor + 1 == self.frames.len() {
                self.cursor = 0;
            } else {
                self.cursor = self.cursor + 1;
            }
            Some(frame)
        } else {
            None
        }
    }

    /// Puts the cursor back to the first frame index.
    pub fn restart(&mut self)
        ensures
            final(self)@ == old(self)@.restarted(),
    {
        self.cursor = 0;
    }
}

/// An entity whose shown animation frame follows a sequence.
#[derive(Clone, Debug, PartialEq, Eq)]
pub struct HasAnimationSequence {
    pub sequence: AnimationSequence,
}

/// One frame of the game for an animated entity. An animation takes the
/// next index of its sequence as its frame, and the sequence moves on; where
/// the sequence has ended the animation keeps its frame. A renderable that
/// is no animation leaves the sequence untouched.
pub open spec fn fast_forward(cursor: Cursor, renderable: Renderable) -> (Cursor, Renderable) {
    match (renderable.tpe, cursor.peek()) {
        (RenderableType::Animation { .. }, Some(next)) => (
            cursor.advanced(),
            renderable.with_frame(next),
        ),
        _ => (cursor, renderable),
    }
}

/// A cyclic sequence with at least one frame never ends: after any number
/// of steps it yields the frame that many places on, counted round the
/// frames.
pub proof fn cyclic_sequence_never_ends(cursor: Cursor, steps: nat)
    requires
        cursor.cyclic,
        cursor.at < cursor.frames.len(),
    ensures
        cursor.advanced_by(steps) == (Cursor {
            at: (((cursor.at + steps) as int) % (cursor.frames.len() as int)) as nat,
            ..cursor
        }),
        cursor.advanced_by(steps).peek() == Some(
            cursor.frames[((cursor.at + steps) as int) % (cursor.frames.len() as int)],
        ),
    decreases steps,
{
    let n = cursor.frames.len() as int;
    let at = cursor.at as int;
    if steps == 0 {
        vstd::arithmetic::div_mod::lemma_small_mod(cursor.at, cursor.frames.len());
    } else {
        let next = cursor.advanced();
        cyclic_sequence_never_ends(next, (steps - 1) as nat);
        assert((next.at + (steps - 1)) % n == (at + steps) % n) by {
            if at + 1 == n {
                vstd::arithmetic::div_mod::lemma_mod_add_multiples_vanish(steps - 1, n);
            }
        }
        vstd::arithmetic::div_mod::lemma_mod_bound(at + steps, n);
    }
}

/// A sequence that does not start over yields its remaining frames in
/// order and ends: it yields nothing from there on.
pub proof fn finite_sequence_ends(cursor: Cursor, steps: nat)
    requires
        !cursor.cyclic,
        cursor.at <= cursor.frames.len(),
    ensures
        cursor.at + steps < cursor.frames.len() ==> cursor.advanced_by(steps).peek() == Some(
            cursor.frames[(cursor.at + steps) as int],
        ),
        cursor.at + steps >= cursor.frames.len() ==> cursor.advanced_by(steps).peek() is None,
    decreases steps,
{
    if steps > 0 {
        finite_sequence_ends(cursor.advanced(), (steps - 1) as nat);
    }
}

} // verus!
