//! The editing intents that users, scripts and remote controllers issue.

use crate::clock::Ticks;
use crate::frame::Frame;
use crate::marker::MarkKind;
use crate::model::{Color, PixelPosition, PixelPositionDelta};
use vstd::prelude::*;

verus! {

/// One editing intent.
#[derive(Debug)]
pub enum Command {
    /// Moves the cursor by a displacement or to an anchor.
    Move(MoveDestination),
    /// Begins a marking session at the cursor.
    Mark(MarkKind),
    /// Makes the given colour the drawing colour, adding it to the palette
    /// if it is new.
    Dip(Color),
    /// Selects the colour of the pixel under the cursor.
    Pick,
    /// Copies the marked pixels and clears them.
    Cut,
    /// Copies the marked pixels.
    Copy,
    /// Ends the marking session.
    Cancel,
    /// Clears the marked pixels, or the pixel under the cursor.
    Erase,
    /// Paints the marked pixels, or the pixel under the cursor.
    Draw,
    /// Takes back the latest group of effects.
    Undo,
    /// Carries out again the group that was taken back last.
    Redo,
    /// Ends the session.
    Quit,
    /// Changes the zoom by the given amount.
    Scale(i8),
    /// Moves the camera to the cursor or to an anchor.
    Center(CenterPoint),
    /// Puts an anchor of the given name at the cursor.
    Anchor(String),
    /// Puts a tag of the given name on the current version.
    Tag(String),
    /// Sets the background colour.
    BackgroundColor(Color),
    /// Goes back to a tagged version.
    Checkout(Checkout),
    /// Paints the given pixels.
    Import(Vec<(PixelPosition, Color)>),
    /// Stores a frame under its name.
    Embed(Frame),
    /// Moves the clock.
    Tick(i32),
    /// Starts playback.
    Play(PlayCommand),
    /// Removes a tag, an anchor or a frame.
    Remove(RemoveTarget),
    /// Makes the given colour the drawing colour, as `Dip` does.
    Color(Color),
    /// Mirrors the marked region, or the whole canvas.
    Flip(FlipDirection),
    /// Turns the marked region, or the whole canvas, a quarter clockwise.
    Rotate,
    /// Asks for an outside program to be run. The engine does not run it.
    ExternalCommand(ExternalCommand),
}

/// Where a `Move` goes.
#[derive(Debug)]
pub enum MoveDestination {
    Delta(PixelPositionDelta),
    Anchor(AnchorName),
}

/// The name of an anchor.
#[derive(Debug)]
pub struct AnchorName {
    pub anchor: String,
}

/// Where a `Center` puts the camera.
#[derive(Debug)]
pub enum CenterPoint {
    Cursor,
    Anchor(String),
}

/// What a `Checkout` goes back to.
#[derive(Debug)]
pub enum Checkout {
    Tag(String),
}

/// How playback runs: from `offset` for `duration` ticks, at `fps` ticks
/// per second, over and over if `repeat` is set. At a rate of 0 playback
/// stands still: it is in progress, the clock is at `offset`, and no tick
/// is ever due.
#[derive(Debug, Clone, Copy, PartialEq, Eq, Structural)]
pub struct PlayCommand {
    pub offset: Ticks,
    pub duration: Ticks,
    pub fps: u8,
    pub repeat: bool,
}

impl PlayCommand {
    /// The tick at which playback ends or starts over.
    pub open spec fn end(self) -> int {
        self.offset.0 + self.duration.0
    }
}

/// What a `Remove` removes.
#[derive(Debug)]
pub enum RemoveTarget {
    Tag(String),
    Anchor(String),
    Frame(String),
}

/// The axis of a `Flip`.
#[derive(Debug, Clone, Copy, PartialEq, Eq, Structural)]
pub enum FlipDirection {
    /// Left and right change places.
    Horizontal,
    /// Top and bottom change places.
    Vertical,
}

/// A program to run, with its arguments.
#[derive(Debug)]
pub struct ExternalCommand {
    pub program: String,
    pub args: Vec<String>,
}

} // verus!
