//! Named, time-windowed pixel overlays.

use crate::clock::Ticks;
use crate::model::{Color, PixelPosition};
use vstd::prelude::*;

verus! {

/// What a [`Frame`] is, as plain values.
pub struct FrameView {
    pub name: Seq<char>,
    pub start: Ticks,
    pub duration: Ticks,
    pub pixels: Seq<(PixelPosition, Color)>,
}

impl FrameView {
    /// Whether `clock` lies in the window `[start, start + duration)`.
    pub open spec fn active_at(self, clock: Ticks) -> bool {
        self.start.0 <= clock.0 < self.start.0 + self.duration.0
    }

    /// The colour that the frame lays over `position`: that of the last
    /// of its pixels at that position.
    pub open spec fn color_at(self, position: PixelPosition) -> Option<Color>
        decreases self.pixels.len(),
    {
        if self.pixels.len() == 0 {
            None
        } else if self.pixels.last().0 == position {
            Some(self.pixels.last().1)
        } else {
            (FrameView { pixels: self.pixels.drop_last(), ..self }).color_at(position)
        }
    }
}

/// An overlay that is shown while the clock lies in its window.
#[derive(Debug)]
pub struct Frame {
    pub name: String,
    pub start: Ticks,
    pub duration: Ticks,
    pub pixels: Vec<(PixelPosition, Color)>,
}

impl View for Frame {
    type V = FrameView;

    open spec fn view(&self) -> FrameView {
        FrameView {
            name: self.name@,
            start: self.start,
            duration: self.duration,
            pixels: self.pixels@,
        }
    }
}

impl Frame {
    pub fn new(name: String, start: Ticks, duration: Ticks, pixels: Vec<(PixelPosition, Color)>) -> (f:
        Self)
        ensures
            f@ == (FrameView { name: name@, start, duration, pixels: pixels@ }),
    {
        Frame { name, start, duration, pixels }
    }

    /// Whether `clock` lies in the frame's window.
    pub fn is_active_at(&self, clock: Ticks) -> (b: bool)
        ensures
            b == self@.active_at(clock),
    {
        self.start.0 <= clock.0 && (clock.0 as u64) < self.start.0 as u64 + self.duration.0 as u64
    }

    /// The colour that the frame lays over `position`, if any.
    pub fn color_at(&self, position: PixelPosition) -> (c: Option<Color>)
        ensures
            c == self@.color_at(position),
    {
        let mut i: usize = self.pixels.len();
        assert(self.pixels@.take(i as int) =~= self.pixels@);
        while i > 0
            invariant
                i <= self.pixels@.len(),
                self@.color_at(position) == (FrameView {
                    pixels: self.pixels@.take(i as int),
                    ..self@
                }).color_at(position),
            decreases i,
        {
            let (p, c) = self.pixels[i - 1];
            if p == position {
                return Some(c);
            }
            assert(self.pixels@.take(i as int).drop_last() =~= self.pixels@.take(i - 1));
            i = i - 1;
        }
        None
    }

    /// A copy with the same contents.
    pub fn copy(&self) -> (f: Self)
        ensures
            f@ == self@,
    {
        let mut pixels: Vec<(PixelPosition, Color)> = Vec::new();
        let mut i: usize = 0;
        while i < self.pixels.len()
            invariant
                i <= self.pixels@.len(),
                pixels@ == self.pixels@.take(i as int),
            decreases self.pixels@.len() - i,
        {
            pixels.push(self.pixels[i]);
            assert(self.pixels@.take(i + 1) =~= self.pixels@.take(i as int).push(
                self.pixels@[i as int],
            ));
            i = i + 1;
        }
        assert(self.pixels@.take(self.pixels@.len() as int) =~= self.pixels@);
        Frame { name: self.name.clone(), start: self.start, duration: self.duration, pixels }
    }
}

} // verus!
