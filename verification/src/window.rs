//! The window through which the canvas is seen: its size, its positions,
//! and which painted pixels fall into it.

use crate::editor::Model;
use crate::engine::ModelView;
use crate::model::{Color, PixelPosition};
use crate::scene::SceneView;
use vstd::prelude::*;

verus! {

/// The size of a window, in window pixels.
#[derive(Debug, Clone, Copy, PartialEq, Eq, Structural, Hash)]
pub struct Size {
    pub width: u32,
    pub height: u32,
}

/// A position in a window: `(0, 0)` is the upper left corner.
#[derive(Debug, Clone, Copy, PartialEq, Eq, Structural, Hash)]
pub struct Position {
    pub x: i32,
    pub y: i32,
}

impl Size {
    /// Whether both extents are such that a window position can hold
    /// them.
    pub open spec fn addressable(self) -> bool {
        self.width <= i32::MAX && self.height <= i32::MAX
    }

    /// The position at the centre of a window of this size.
    pub open spec fn center(self) -> Position {
        Position { x: (self.width / 2) as i32, y: (self.height / 2) as i32 }
    }

    /// Whether both extents are such that a window position can hold them.
    pub fn is_addressable(self) -> (b: bool)
        ensures
            b == self.addressable(),
    {
        self.width <= i32::MAX as u32 && self.height <= i32::MAX as u32
    }
}

/// The positions of a region of size `size` whose upper left corner is
/// `origin`: row by row from the top, each row from the left.
pub open spec fn region_seq(origin: Position, size: Size) -> Seq<Position> {
    Seq::new(
        (size.width * size.height) as nat,
        |i: int|
            Position {
                x: (origin.x + i % (size.width as int)) as i32,
                y: (origin.y + i / (size.width as int)) as i32,
            },
    )
}

/// The centre of a window of size `size`, by `Size::to_region` and
/// `Region::center` of pagurus: half of each extent, rounded down. The
/// extents must fit the signed coordinates that pagurus computes with.
#[verifier::external_body]
pub(crate) fn region_center(size: Size) -> (c: Position)
    requires
        size.addressable(),
    ensures
        c == size.center(),
{
    let c = pagurus::spatial::Size::from_wh(size.width, size.height).to_region().center();
    Position { x: c.x, y: c.y }
}

/// The positions of the region of size `size` at `origin`, by
/// `Region::iter` of pagurus, which walks the rows from the top and each
/// row from the left. The extents must fit the signed coordinates that
/// pagurus computes with, the far corner must be a position that 32 bits
/// hold, and the number of positions one that `usize` holds.
#[verifier::external_body]
fn region_positions(origin: Position, size: Size) -> (v: Vec<Position>)
    requires
        size.addressable(),
        origin.x + size.width <= i32::MAX,
        origin.y + size.height <= i32::MAX,
        size.width * size.height <= usize::MAX,
    ensures
        v@ == region_seq(origin, size),
{
    let region = pagurus::spatial::Region::new(
        pagurus::spatial::Position::from_xy(origin.x, origin.y),
        pagurus::spatial::Size::from_wh(size.width, size.height),
    );
    region.iter().map(|p| Position { x: p.x, y: p.y }).collect()
}

/// The upper left corner of a window of size `size` whose centre shows
/// the canvas position `camera`, as a canvas position that may lie
/// outside the 16-bit range.
pub open spec fn window_origin(camera: PixelPosition, size: Size) -> Position {
    Position { x: (camera.x - size.center().x) as i32, y: (camera.y - size.center().y) as i32 }
}

/// Whether `p` is a position of the canvas.
pub open spec fn on_canvas(p: Position) -> bool {
    i16::MIN <= p.x <= i16::MAX && i16::MIN <= p.y <= i16::MAX
}

/// Those of `positions` that are painted pixels of the canvas, each with
/// its colour, in the order of `positions`.
pub open spec fn visible(s: SceneView, positions: Seq<Position>) -> Seq<(PixelPosition, Color)>
    decreases positions.len(),
{
    if positions.len() == 0 {
        Seq::empty()
    } else {
        let head = visible(s, positions.drop_last());
        let p = positions.last();
        let at = PixelPosition { y: p.y as i16, x: p.x as i16 };
        if on_canvas(p) && s.pixels.contains_key(at) {
            head.push((at, s.colors[s.pixels[at].0]))
        } else {
            head
        }
    }
}

impl ModelView {
    /// The painted pixels that a window of size `size` shows with the
    /// camera at its centre, row by row. A window too wide or too high to
    /// be addressed shows nothing.
    pub open spec fn visible_pixels(self, size: Size) -> Seq<(PixelPosition, Color)> {
        if size.addressable() {
            visible(self.scene, region_seq(window_origin(self.scene.camera, size), size))
        } else {
            Seq::empty()
        }
    }
}

impl Model {
    /// The painted pixels that a window of size `size` shows with the
    /// camera at its centre.
    pub fn visible_pixels(&self, size: Size) -> (v: Vec<(PixelPosition, Color)>)
        requires
            self.wf(),
            size.width * size.height <= usize::MAX,
        ensures
            v@ == self@.visible_pixels(size),
    {
        let mut v: Vec<(PixelPosition, Color)> = Vec::new();
        if !size.is_addressable() {
            return v;
        }
        let center = region_center(size);
        let camera = self.camera().position;
        let origin = Position { x: camera.x as i32 - center.x, y: camera.y as i32 - center.y };
        let positions = region_positions(origin, size);
        let canvas = self.canvas();
        let palette = self.palette();
        let ghost scene = self@.scene;
        proof {
            self.lemma_wf();
            assert(positions@.take(0) =~= Seq::<Position>::empty());
        }
        let mut i: usize = 0;
        while i < positions.len()
            invariant
                i <= positions@.len(),
                scene.valid(),
                canvas@ == scene.pixels,
                palette.colors() == scene.colors,
                v@ == visible(scene, positions@.take(i as int)),
            decreases positions@.len() - i,
        {
            let p = positions[i];
            proof {
                assert(positions@.take(i + 1).drop_last() =~= positions@.take(i as int));
                assert(positions@.take(i + 1).last() == p);
            }
            if p.x >= i16::MIN as i32 && p.x <= i16::MAX as i32 && p.y >= i16::MIN as i32 && p.y
                <= i16::MAX as i32 {
                let at = PixelPosition { y: p.y as i16, x: p.x as i16 };
                match canvas.get(at) {
                    Some(index) => {
                        assert(scene.pixels.contains_key(at));
                        match palette.get(index) {
                            Some(color) => {
                                v.push((at, color));
                            },
                            None => {},
                        }
                    },
                    None => {},
                }
            }
            i = i + 1;
        }
        assert(positions@.take(positions@.len() as int) =~= positions@);
        v
    }
}

} // verus!
