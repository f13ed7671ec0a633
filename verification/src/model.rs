//! Positions, colours, the cursor, the camera and the palette.

use crate::clock::Ticks;
use crate::failure::Failure;
use crate::frame::Frame;
use crate::scene::Effect;
use std::collections::BTreeMap;
use vstd::prelude::*;
use vstd::std_specs::cmp::OrdSpec;
use vstd::std_specs::iter::IteratorSpec;

verus! {

/// The value that a wrapping 16-bit addition gives for the exact sum `v`.
pub open spec fn wrap_i16(v: int) -> int {
    if v > i16::MAX {
        v - 0x1_0000
    } else if v < i16::MIN {
        v + 0x1_0000
    } else {
        v
    }
}

/// A position on the canvas. Positions are ordered by `y`, then by `x`.
#[derive(Debug, Clone, Copy, PartialEq, Eq, Structural, Hash, PartialOrd, Ord)]
pub struct PixelPosition {
    pub y: i16,
    pub x: i16,
}

impl PixelPosition {
    /// The position `(0, 0)`.
    pub fn origin() -> (p: Self)
        ensures
            p == (PixelPosition { y: 0, x: 0 }),
    {
        PixelPosition { y: 0, x: 0 }
    }

    /// The position reached from `self` by `delta`, each coordinate wrapping
    /// around at the ends of the 16-bit range.
    pub open spec fn shifted(self, delta: PixelPositionDelta) -> PixelPosition {
        PixelPosition {
            y: wrap_i16(self.y + delta.1) as i16,
            x: wrap_i16(self.x + delta.0) as i16,
        }
    }

    /// Moves by `delta`; see [`PixelPosition::shifted`].
    pub fn shift(self, delta: PixelPositionDelta) -> (p: Self)
        ensures
            p == self.shifted(delta),
    {
        PixelPosition { y: self.y.wrapping_add(delta.1), x: self.x.wrapping_add(delta.0) }
    }
}

impl View for PixelPosition {
    type V = PixelPosition;

    open spec fn view(&self) -> PixelPosition {
        *self
    }
}

impl Default for PixelPosition {
    fn default() -> (p: Self)
        ensures
            p == (PixelPosition { y: 0, x: 0 }),
    {
        PixelPosition { y: 0, x: 0 }
    }
}

impl From<(i16, i16)> for PixelPosition {
    fn from(xy: (i16, i16)) -> (p: Self) {
        PixelPosition { x: xy.0, y: xy.1 }
    }
}

impl vstd::std_specs::convert::FromSpecImpl<(i16, i16)> for PixelPosition {
    open spec fn obeys_from_spec() -> bool {
        true
    }

    open spec fn from_spec(xy: (i16, i16)) -> Self {
        PixelPosition { x: xy.0, y: xy.1 }
    }
}

/// A displacement `(dx, dy)` between two positions.
#[derive(Debug, Clone, Copy, PartialEq, Eq, Structural, Hash)]
pub struct PixelPositionDelta(pub i16, pub i16);

impl PixelPositionDelta {
    pub fn from_xy(x: i16, y: i16) -> (d: Self)
        ensures
            d == PixelPositionDelta(x, y),
    {
        PixelPositionDelta(x, y)
    }

    pub fn to_xy(self) -> (xy: (i16, i16))
        ensures
            xy == (self.0, self.1),
    {
        (self.0, self.1)
    }

    pub fn x(self) -> (x: i16)
        ensures
            x == self.0,
    {
        self.0
    }

    pub fn y(self) -> (y: i16)
        ensures
            y == self.1,
    {
        self.1
    }
}

impl Default for PixelPositionDelta {
    fn default() -> (d: Self)
        ensures
            d == PixelPositionDelta(0, 0),
    {
        PixelPositionDelta(0, 0)
    }
}

impl From<(i16, i16)> for PixelPositionDelta {
    fn from(xy: (i16, i16)) -> (d: Self) {
        PixelPositionDelta(xy.0, xy.1)
    }
}

impl vstd::std_specs::convert::FromSpecImpl<(i16, i16)> for PixelPositionDelta {
    open spec fn obeys_from_spec() -> bool {
        true
    }

    open spec fn from_spec(xy: (i16, i16)) -> Self {
        PixelPositionDelta(xy.0, xy.1)
    }
}

/// The pixel on which single-pixel operations act. It is never clamped:
/// moving past an end of the 16-bit range wraps around.
#[derive(Debug, Clone, Copy, PartialEq, Eq, Structural)]
pub struct Cursor {
    pub position: PixelPosition,
}

impl Cursor {
    pub fn x(self) -> (x: i16)
        ensures
            x == self.position.x,
    {
        self.position.x
    }

    pub fn y(self) -> (y: i16)
        ensures
            y == self.position.y,
    {
        self.position.y
    }

    pub fn move_x(&mut self, delta: i16)
        ensures
            final(self).position == old(self).position.shifted(PixelPositionDelta(delta, 0)),
    {
        self.position.x = self.position.x.wrapping_add(delta);
    }

    pub fn move_y(&mut self, delta: i16)
        ensures
            final(self).position == old(self).position.shifted(PixelPositionDelta(0, delta)),
    {
        self.position.y = self.position.y.wrapping_add(delta);
    }

    pub fn move_delta(&mut self, delta: PixelPositionDelta)
        ensures
            final(self).position == old(self).position.shifted(delta),
    {
        self.position = self.position.shift(delta);
    }
}

impl Default for Cursor {
    fn default() -> (c: Self)
        ensures
            c.position == (PixelPosition { y: 0, x: 0 }),
    {
        Cursor { position: PixelPosition { y: 0, x: 0 } }
    }
}

/// The position at the centre of the viewport.
#[derive(Debug, Clone, Copy, PartialEq, Eq, Structural)]
pub struct Camera {
    pub position: PixelPosition,
}

impl Default for Camera {
    fn default() -> (c: Self)
        ensures
            c.position == (PixelPosition { y: 0, x: 0 }),
    {
        Camera { position: PixelPosition { y: 0, x: 0 } }
    }
}

/// The key of a palette entry.
#[derive(Debug, Clone, Copy, PartialEq, Eq, Structural, Hash, PartialOrd, Ord)]
pub struct ColorIndex(pub usize);

/// An RGBA colour.
#[derive(Debug, Clone, Copy, PartialEq, Eq, Structural, Hash)]
pub struct Color {
    pub r: u8,
    pub g: u8,
    pub b: u8,
    pub a: u8,
}

impl Color {
    /// An opaque colour.
    pub fn rgb(r: u8, g: u8, b: u8) -> (c: Self)
        ensures
            c == (Color { r, g, b, a: 255 }),
    {
        Color { r, g, b, a: 255 }
    }

    pub fn rgba(r: u8, g: u8, b: u8, a: u8) -> (c: Self)
        ensures
            c == (Color { r, g, b, a }),
    {
        Color { r, g, b, a }
    }
}

/// A primitive, reversible change of the scene. Each command records what
/// it replaces, so that it can be undone exactly. Its view is an [`Effect`].
#[derive(Debug)]
#[allow(inconsistent_fields)]
pub enum Command {
    /// Moves the cursor.
    Move { from: PixelPosition, to: PixelPosition },
    /// Paints one pixel, or clears it where `color` is `None`.
    Dot { position: PixelPosition, previous: Option<ColorIndex>, color: Option<ColorIndex> },
    /// Selects the colour that drawing uses.
    SelectColor { index: ColorIndex, previous: ColorIndex },
    /// Sets or removes a palette entry.
    SetColor { index: ColorIndex, previous: Option<Color>, color: Option<Color> },
    /// Moves the camera.
    MoveCamera { from: PixelPosition, to: PixelPosition },
    /// Sets the zoom.
    SetScale { previous: u8, scale: u8 },
    /// Sets the background colour.
    SetBackground { previous: Color, color: Color },
    /// Sets the clock.
    SetClock { previous: Ticks, clock: Ticks },
    /// Sets or removes an anchor.
    SetAnchor { name: String, previous: Option<PixelPosition>, position: Option<PixelPosition> },
    /// Sets or removes a tag.
    SetTag { name: String, previous: Option<usize>, version: Option<usize> },
    /// Sets or removes a frame.
    SetFrame { name: String, previous: Option<Frame>, frame: Option<Frame> },
}

/// The view of a frame that may be absent.
pub open spec fn frame_view(frame: Option<Frame>) -> Option<crate::frame::FrameView> {
    match frame {
        Some(f) => Some(f@),
        None => None,
    }
}

fn copy_frame(frame: &Option<Frame>) -> (r: Option<Frame>)
    ensures
        frame_view(r) == frame_view(*frame),
{
    match frame {
        Some(f) => Some(f.copy()),
        None => None,
    }
}

impl View for Command {
    type V = Effect;

    open spec fn view(&self) -> Effect {
        match *self {
            Command::Move { from, to } => Effect::Move { from, to },
            Command::Dot { position, previous, color } => Effect::Dot { position, previous, color },
            Command::SelectColor { index, previous } => Effect::SelectColor { index, previous },
            Command::SetColor { index, previous, color } => Effect::SetColor {
                index,
                previous,
                color,
            },
            Command::MoveCamera { from, to } => Effect::MoveCamera { from, to },
            Command::SetScale { previous, scale } => Effect::SetScale { previous, scale },
            Command::SetBackground { previous, color } => Effect::SetBackground { previous, color },
            Command::SetClock { previous, clock } => Effect::SetClock { previous, clock },
            Command::SetAnchor { name, previous, position } => Effect::SetAnchor {
                name: name@,
                previous,
                position,
            },
            Command::SetTag { name, previous, version } => Effect::SetTag {
                name: name@,
                previous,
                version,
            },
            Command::SetFrame { name, previous, frame } => Effect::SetFrame {
                name: name@,
                previous: frame_view(previous),
                frame: frame_view(frame),
            },
        }
    }
}

impl Command {
    /// A copy that stands for the same effect.
    pub fn copy(&self) -> (c: Command)
        ensures
            c@ == self@,
    {
        match self {
            Command::Move { from, to } => Command::Move { from: *from, to: *to },
            Command::Dot { position, previous, color } => Command::Dot {
                position: *position,
                previous: *previous,
                color: *color,
            },
            Command::SelectColor { index, previous } => Command::SelectColor {
                index: *index,
                previous: *previous,
            },
            Command::SetColor { index, previous, color } => Command::SetColor {
                index: *index,
                previous: *previous,
                color: *color,
            },
            Command::MoveCamera { from, to } => Command::MoveCamera { from: *from, to: *to },
            Command::SetScale { previous, scale } => Command::SetScale {
                previous: *previous,
                scale: *scale,
            },
            Command::SetBackground { previous, color } => Command::SetBackground {
                previous: *previous,
                color: *color,
            },
            Command::SetClock { previous, clock } => Command::SetClock {
                previous: *previous,
                clock: *clock,
            },
            Command::SetAnchor { name, previous, position } => Command::SetAnchor {
                name: name.clone(),
                previous: *previous,
                position: *position,
            },
            Command::SetTag { name, previous, version } => Command::SetTag {
                name: name.clone(),
                previous: *previous,
                version: *version,
            },
            Command::SetFrame { name, previous, frame } => Command::SetFrame {
                name: name.clone(),
                previous: copy_frame(previous),
                frame: copy_frame(frame),
            },
        }
    }

    /// Whether the command sets a pixel to what it holds already.
    pub fn is_idle(&self) -> (b: bool)
        ensures
            b == self@.idle(),
    {
        match self {
            Command::Dot { position, previous, color } => *previous == *color,
            _ => false,
        }
    }

    /// The command that puts back what this one replaces.
    pub fn inverse(&self) -> (c: Command)
        ensures
            c@ == self@.inverse(),
    {
        match self {
            Command::Move { from, to } => Command::Move { from: *to, to: *from },
            Command::Dot { position, previous, color } => Command::Dot {
                position: *position,
                previous: *color,
                color: *previous,
            },
            Command::SelectColor { index, previous } => Command::SelectColor {
                index: *previous,
                previous: *index,
            },
            Command::SetColor { index, previous, color } => Command::SetColor {
                index: *index,
                previous: *color,
                color: *previous,
            },
            Command::MoveCamera { from, to } => Command::MoveCamera { from: *to, to: *from },
            Command::SetScale { previous, scale } => Command::SetScale {
                previous: *scale,
                scale: *previous,
            },
            Command::SetBackground { previous, color } => Command::SetBackground {
                previous: *color,
                color: *previous,
            },
            Command::SetClock { previous, clock } => Command::SetClock {
                previous: *clock,
                clock: *previous,
            },
            Command::SetAnchor { name, previous, position } => Command::SetAnchor {
                name: name.clone(),
                previous: *position,
                position: *previous,
            },
            Command::SetTag { name, previous, version } => Command::SetTag {
                name: name.clone(),
                previous: *version,
                version: *previous,
            },
            Command::SetFrame { name, previous, frame } => Command::SetFrame {
                name: name.clone(),
                previous: copy_frame(frame),
                frame: copy_frame(previous),
            },
        }
    }
}

/// Indices that the map hands out in its order go up strictly.
proof fn lemma_indices_increase(keys: Seq<usize>)
    requires
        vstd::std_specs::btree::increasing_seq(keys),
    ensures
        forall|i: int, j: int| 0 <= i < j < keys.len() ==> keys[i] < keys[j],
{
    vstd::std_specs::btree::axiom_increasing_seq_meaning(keys);
    assert forall|i: int, j: int| 0 <= i < j < keys.len() implies keys[i] < keys[j] by {
        assert(keys[i].cmp_spec(&keys[j]) is Less);
    }
}

/// A finite set of indices that holds every index below `n` has at least
/// `n` elements.
pub proof fn lemma_initial_segment_len(s: Set<usize>, n: nat)
    requires
        s.finite(),
        n <= usize::MAX + 1,
        forall|j: usize| j < n ==> s.contains(j),
    ensures
        s.len() >= n,
    decreases n,
{
    if n > 0 {
        let last = (n - 1) as usize;
        lemma_initial_segment_len(s.remove(last), (n - 1) as nat);
    }
}

/// The colours that pixels can have, each under its index, and the index
/// that drawing uses.
pub struct Palette {
    colors: BTreeMap<usize, Color>,
    selected: ColorIndex,
}

impl Palette {
    /// The colour under each index.
    pub closed spec fn colors(&self) -> Map<usize, Color> {
        self.colors@
    }

    /// The index that drawing uses.
    pub closed spec fn selected_index(&self) -> ColorIndex {
        self.selected
    }

    /// Whether no colour stands under two indices of `colors`.
    pub open spec fn distinct(colors: Map<usize, Color>) -> bool {
        forall|i: usize, j: usize|
            colors.contains_key(i) && colors.contains_key(j) && colors[i] == colors[j] ==> i == j
    }

    /// The selected index is an entry, and no colour stands under two indices.
    pub open spec fn wf(&self) -> bool {
        &&& self.colors().dom().finite()
        &&& self.colors().contains_key(self.selected_index().0)
        &&& Self::distinct(self.colors())
    }

    /// The palette of a new session: white, red, green, blue and black under
    /// the indices 0 to 4, with black selected.
    pub open spec fn initial_colors() -> Map<usize, Color> {
        Map::<usize, Color>::empty().insert(0, Color { r: 255, g: 255, b: 255, a: 255 }).insert(
            1,
            Color { r: 255, g: 0, b: 0, a: 255 },
        ).insert(2, Color { r: 0, g: 255, b: 0, a: 255 }).insert(
            3,
            Color { r: 0, g: 0, b: 255, a: 255 },
        ).insert(4, Color { r: 0, g: 0, b: 0, a: 255 })
    }

    /// The index that drawing uses.
    pub fn selected(&self) -> (index: ColorIndex)
        ensures
            index == self.selected_index(),
    {
        self.selected
    }

    /// The colour under `index`, if there is one.
    pub fn get(&self, index: ColorIndex) -> (color: Option<Color>)
        ensures
            color == (if self.colors().contains_key(index.0) {
                Some(self.colors()[index.0])
            } else {
                None
            }),
    {
        match self.colors.get(&index.0) {
            Some(c) => Some(*c),
            None => None,
        }
    }

    /// The colour that drawing uses.
    pub fn selected_color(&self) -> (color: Color)
        requires
            self.wf(),
        ensures
            color == self.colors()[self.selected_index().0],
    {
        match self.colors.get(&self.selected.0) {
            Some(c) => *c,
            None => Color { r: 0, g: 0, b: 0, a: 255 },
        }
    }

    /// Makes `index` the selected one, if the palette has it; otherwise
    /// fails and changes nothing.
    pub fn select(&mut self, index: ColorIndex) -> (r: Result<(), Failure>)
        ensures
            final(self).colors() == old(self).colors(),
            old(self).colors().contains_key(index.0) ==> r == Ok::<(), Failure>(())
                && final(self).selected_index() == index,
            !old(self).colors().contains_key(index.0) ==> r == Err::<(), Failure>(
                Failure::InvalidColorIndex,
            ) && final(self).selected_index() == old(self).selected_index(),
    {
        if self.colors.contains_key(&index.0) {
            self.selected = index;
            Ok(())
        } else {
            Err(Failure::InvalidColorIndex)
        }
    }

    /// Selects `index` whether or not the palette has it. This is what
    /// replaying a recorded selection does.
    pub fn force_select(&mut self, index: ColorIndex)
        ensures
            final(self).colors() == old(self).colors(),
            final(self).selected_index() == index,
    {
        self.selected = index;
    }

    /// Puts `color` under `index`, or removes the entry where `color` is
    /// `None`. Returns what stood there before.
    pub fn set_color(&mut self, index: ColorIndex, color: Option<Color>) -> (previous: Option<Color>)
        ensures
            previous == (if old(self).colors().contains_key(index.0) {
                Some(old(self).colors()[index.0])
            } else {
                None
            }),
            final(self).colors() == (match color {
                Some(c) => old(self).colors().insert(index.0, c),
                None => old(self).colors().remove(index.0),
            }),
            final(self).selected_index() == old(self).selected_index(),
    {
        match color {
            Some(c) => self.colors.insert(index.0, c),
            None => self.colors.remove(&index.0),
        }
    }

    /// The least index under which `color` stands, if there is one. In a
    /// well-formed palette a colour stands under one index at most.
    pub fn index_of(&self, color: Color) -> (r: Option<ColorIndex>)
        ensures
            match r {
                Some(index) => self.colors().contains_key(index.0) && self.colors()[index.0]
                    == color && forall|i: usize|
                    i < index.0 && self.colors().contains_key(i) ==> self.colors()[i] != color,
                None => forall|i: usize| self.colors().contains_key(i) ==> self.colors()[i]
                    != color,
            },
    {
        let entries = self.colors.iter();
        let ghost all = entries.remaining();
        let ghost keys = all.map_values(|kv: (&usize, &Color)| *kv.0);
        proof {
            vstd::std_specs::btree::axiom_spec_btree_map_iter(&self.colors);
            lemma_indices_increase(keys);
        }
        for kv in it: entries
            invariant
                it.seq() == all,
                keys == all.map_values(|kv: (&usize, &Color)| *kv.0),
                forall|i: int, j: int| 0 <= i < j < keys.len() ==> keys[i] < keys[j],
                forall|j: int|
                    0 <= j < all.len() ==> self.colors@.contains_key(*(#[trigger] all[j]).0)
                        && self.colors@[*all[j].0] == *all[j].1,
                forall|i: usize| #[trigger]
                    self.colors@.contains_key(i) ==> all.contains((&i, &self.colors@[i])),
                forall|j: int| 0 <= j < it.index() ==> *(#[trigger] all[j]).1 != color,
        {
            if *kv.1 == color {
                proof {
                    let at = it.index();
                    assert(all[at] == kv);
                    assert forall|i: usize|
                        i < *kv.0 && self.colors@.contains_key(i) implies self.colors@[i]
                        != color by {
                        let entry = (&i, &self.colors@[i]);
                        assert(all.contains(entry));
                        let j = choose|j: int| 0 <= j < all.len() && all[j] == entry;
                        assert(keys[j] == i);
                        assert(keys[at] == *kv.0);
                        if j > at {
                            assert(keys[at] < keys[j]);
                        }
                        if j < at {
                            assert(*all[j].1 != color);
                        }
                    }
                }
                return Some(ColorIndex(*kv.0));
            }
        }
        proof {
            assert forall|i: usize| self.colors().contains_key(i) implies self.colors()[i]
                != color by {
                assert(all.contains((&i, &self.colors@[i])));
            }
        }
        None
    }

    /// The least index that the palette does not use.
    pub fn fresh_index(&self) -> (index: ColorIndex)
        requires
            self.colors().dom().finite(),
        ensures
            !self.colors().contains_key(index.0),
            forall|j: usize| j < index.0 ==> self.colors().contains_key(j),
    {
        let n = self.colors.len();
        let mut i: usize = 0;
        while self.colors.contains_key(&i)
            invariant
                n == self.colors@.dom().len(),
                self.colors@.dom().finite(),
                i <= n,
                forall|j: usize| j < i ==> self.colors@.contains_key(j),
            decreases n - i,
        {
            proof {
                lemma_initial_segment_len(self.colors@.dom(), (i + 1) as nat);
            }
            i = i + 1;
        }
        ColorIndex(i)
    }
}

impl Default for Palette {
    fn default() -> (p: Self)
        ensures
            p.colors() == Palette::initial_colors(),
            p.selected_index() == ColorIndex(4),
            p.wf(),
    {
        let mut colors: BTreeMap<usize, Color> = BTreeMap::new();
        colors.insert(0, Color::rgb(255, 255, 255));
        colors.insert(1, Color::rgb(255, 0, 0));
        colors.insert(2, Color::rgb(0, 255, 0));
        colors.insert(3, Color::rgb(0, 0, 255));
        colors.insert(4, Color::rgb(0, 0, 0));
        Palette { colors, selected: ColorIndex(4) }
    }
}

} // verus!
