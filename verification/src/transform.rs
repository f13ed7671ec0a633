//! Mirroring and turning a region of the canvas.

use crate::command::FlipDirection;
use crate::editor::dot_effect;
use crate::marker::{lemma_bounds, max_x, max_y, min_x, min_y};
use crate::model::{wrap_i16, ColorIndex, PixelPosition};
use crate::scene::{
    apply_all, fit_all, kept, lemma_apply_all_concat, lemma_kept, lookup, Effect, SceneView,
};
use vstd::prelude::*;

verus! {

/// A geometric change of a region.
#[derive(Debug, Clone, Copy, PartialEq, Eq, Structural)]
pub enum Turn {
    /// Mirrors the region in its bounding box.
    Flip(FlipDirection),
    /// Turns the region a quarter clockwise about the upper left corner of
    /// its bounding box, so that its left column becomes its top row.
    Rotate,
}

/// The bounding box of a region, lowest coordinates first.
#[derive(Debug, Clone, Copy, PartialEq, Eq, Structural)]
pub struct Bounds {
    pub x0: i16,
    pub y0: i16,
    pub x1: i16,
    pub y1: i16,
}

/// The bounding box of `region`, which is not empty.
pub open spec fn bounds_of(region: Seq<PixelPosition>) -> Bounds {
    Bounds {
        x0: min_x(region) as i16,
        y0: min_y(region) as i16,
        x1: max_x(region) as i16,
        y1: max_y(region) as i16,
    }
}

/// Where `turn` takes the pixel at `p`, for a region with bounding box `b`.
/// A turned pixel that would leave the 16-bit range wraps around.
pub open spec fn image_of(turn: Turn, b: Bounds, p: PixelPosition) -> PixelPosition {
    match turn {
        Turn::Flip(FlipDirection::Horizontal) => PixelPosition {
            y: p.y,
            x: wrap_i16(b.x0 + b.x1 - p.x) as i16,
        },
        Turn::Flip(FlipDirection::Vertical) => PixelPosition {
            y: wrap_i16(b.y0 + b.y1 - p.y) as i16,
            x: p.x,
        },
        Turn::Rotate => PixelPosition {
            y: wrap_i16(b.y0 + (p.x - b.x0)) as i16,
            x: wrap_i16(b.x0 + (b.y1 - p.y)) as i16,
        },
    }
}

/// Where `turn` takes the pixel at `p`.
pub fn image(turn: Turn, b: Bounds, p: PixelPosition) -> (q: PixelPosition)
    requires
        b.x0 <= p.x <= b.x1,
        b.y0 <= p.y <= b.y1,
    ensures
        q == image_of(turn, b, p),
{
    match turn {
        Turn::Flip(FlipDirection::Horizontal) => PixelPosition {
            y: p.y,
            x: (b.x0 as i32 + b.x1 as i32 - p.x as i32) as i16,
        },
        Turn::Flip(FlipDirection::Vertical) => PixelPosition {
            y: (b.y0 as i32 + b.y1 as i32 - p.y as i32) as i16,
            x: p.x,
        },
        Turn::Rotate => {
            let y: i32 = b.y0 as i32 + (p.x as i32 - b.x0 as i32);
            let x: i32 = b.x0 as i32 + (b.y1 as i32 - p.y as i32);
            PixelPosition {
                y: (if y > i16::MAX as i32 {
                    y - 0x1_0000
                } else {
                    y
                }) as i16,
                x: (if x > i16::MAX as i32 {
                    x - 0x1_0000
                } else {
                    x
                }) as i16,
            }
        },
    }
}

/// The images of the pixels of `region`, in order.
pub open spec fn images(turn: Turn, b: Bounds, region: Seq<PixelPosition>) -> Seq<PixelPosition> {
    Seq::new(region.len(), |i: int| image_of(turn, b, region[i]))
}

/// What the turned region holds: the colour of each painted pixel of
/// `region`, at the image of the pixel.
pub open spec fn turned(
    pixels: Map<PixelPosition, ColorIndex>,
    turn: Turn,
    b: Bounds,
    region: Seq<PixelPosition>,
) -> Map<PixelPosition, ColorIndex>
    decreases region.len(),
{
    if region.len() == 0 {
        Map::empty()
    } else {
        let head = turned(pixels, turn, b, region.drop_last());
        match lookup(pixels, region.last()) {
            Some(c) => head.insert(image_of(turn, b, region.last()), c),
            None => head,
        }
    }
}

/// The effects that give each of `positions` what `want` holds there, and
/// clear it where `want` holds nothing: one for each position that changes.
pub open spec fn repaint(
    s: SceneView,
    positions: Seq<PixelPosition>,
    want: Map<PixelPosition, ColorIndex>,
) -> Seq<Effect>
    decreases positions.len(),
{
    if positions.len() == 0 {
        Seq::empty()
    } else {
        let head = repaint(s, positions.drop_last(), want);
        head + kept(
            dot_effect(apply_all(s, head), positions.last(), lookup(want, positions.last())),
        )
    }
}

/// The effects of turning `region`: every pixel of the region and every
/// image of one gets what the turned region holds there.
pub open spec fn turn_effects(s: SceneView, turn: Turn, region: Seq<PixelPosition>) -> Seq<Effect> {
    if region.len() == 0 {
        Seq::empty()
    } else {
        let b = bounds_of(region);
        repaint(s, region + images(turn, b, region), turned(s.pixels, turn, b, region))
    }
}

/// The canvas in which each of `positions` holds what `want` holds there,
/// and every other position holds what `pixels` holds.
pub open spec fn repainted(
    pixels: Map<PixelPosition, ColorIndex>,
    positions: Seq<PixelPosition>,
    want: Map<PixelPosition, ColorIndex>,
) -> Map<PixelPosition, ColorIndex> {
    Map::new(
        |p: PixelPosition|
            if positions.contains(p) {
                want.contains_key(p)
            } else {
                pixels.contains_key(p)
            },
        |p: PixelPosition|
            if positions.contains(p) {
                want[p]
            } else {
                pixels[p]
            },
    )
}

/// The effects of [`repaint`] record what they replace, and carried out
/// they change the canvas to [`repainted`] and nothing besides.
pub proof fn lemma_repaint_result(
    s: SceneView,
    positions: Seq<PixelPosition>,
    want: Map<PixelPosition, ColorIndex>,
)
    ensures
        fit_all(s, repaint(s, positions, want)),
        apply_all(s, repaint(s, positions, want)) == (SceneView {
            pixels: repainted(s.pixels, positions, want),
            ..s
        }),
    decreases positions.len(),
{
    let all = repaint(s, positions, want);
    if positions.len() == 0 {
        assert(repainted(s.pixels, positions, want) =~= s.pixels);
    } else {
        let front = positions.drop_last();
        let p = positions.last();
        let head = repaint(s, front, want);
        let mid = apply_all(s, head);
        let e = dot_effect(mid, p, lookup(want, p));
        lemma_repaint_result(s, front, want);
        lemma_apply_all_concat(s, head, kept(e));
        lemma_kept(mid, e);
        let end = apply_all(s, all);
        assert forall|q: PixelPosition| positions.contains(q) <==> front.contains(q) || q == p by {
            if positions.contains(q) {
                let i = choose|i: int| 0 <= i < positions.len() && positions[i] == q;
                if i < front.len() {
                    assert(front[i] == q);
                }
            }
            if front.contains(q) {
                let i = choose|i: int| 0 <= i < front.len() && front[i] == q;
                assert(positions[i] == q);
            }
            if q == p {
                assert(positions[positions.len() - 1] == q);
            }
        }
        assert(end.pixels =~= repainted(s.pixels, positions, want));
    }
}

/// Within a bounding box, a turn takes different pixels to different
/// places.
pub proof fn lemma_image_injective(turn: Turn, b: Bounds, p: PixelPosition, q: PixelPosition)
    requires
        b.x0 <= p.x <= b.x1,
        b.y0 <= p.y <= b.y1,
        b.x0 <= q.x <= b.x1,
        b.y0 <= q.y <= b.y1,
        image_of(turn, b, p) == image_of(turn, b, q),
    ensures
        p == q,
{
}

/// What the turned region holds: a place holds a colour only if it is the
/// image of a painted pixel of the region, and the image of each painted
/// pixel of the region holds the colour of a painted pixel with that
/// image.
pub proof fn lemma_turned(
    pixels: Map<PixelPosition, ColorIndex>,
    turn: Turn,
    b: Bounds,
    region: Seq<PixelPosition>,
)
    ensures
        forall|q: PixelPosition| #[trigger]
            turned(pixels, turn, b, region).contains_key(q) ==> exists|i: int|
                0 <= i < region.len() && pixels.contains_key(#[trigger] region[i]) && image_of(
                    turn,
                    b,
                    region[i],
                ) == q && turned(pixels, turn, b, region)[q] == pixels[region[i]],
        forall|i: int|
            0 <= i < region.len() && pixels.contains_key(#[trigger] region[i]) ==> turned(
                pixels,
                turn,
                b,
                region,
            ).contains_key(image_of(turn, b, region[i])),
    decreases region.len(),
{
    if region.len() > 0 {
        let front = region.drop_last();
        let last = region.last();
        let head = turned(pixels, turn, b, front);
        let all = turned(pixels, turn, b, region);
        lemma_turned(pixels, turn, b, front);
        assert forall|q: PixelPosition| #[trigger] all.contains_key(q) implies exists|i: int|
            0 <= i < region.len() && pixels.contains_key(#[trigger] region[i]) && image_of(
                turn,
                b,
                region[i],
            ) == q && all[q] == pixels[region[i]] by {
            if pixels.contains_key(last) && image_of(turn, b, last) == q {
                let i = region.len() - 1;
                assert(region[i] == last);
            } else {
                assert(head.contains_key(q));
                let i = choose|i: int|
                    0 <= i < front.len() && pixels.contains_key(#[trigger] front[i]) && image_of(
                        turn,
                        b,
                        front[i],
                    ) == q && head[q] == pixels[front[i]];
                assert(region[i] == front[i]);
            }
        }
        assert forall|i: int|
            0 <= i < region.len() && pixels.contains_key(
                #[trigger] region[i],
            ) implies all.contains_key(image_of(turn, b, region[i])) by {
            if i < front.len() {
                assert(front[i] == region[i]);
                assert(head.contains_key(image_of(turn, b, front[i])));
            }
        }
    }
}

/// Turning moves each painted pixel of the region to its image, clears
/// what no pixel moves to, and leaves the rest of the scene as it is. For
/// a region that lies in its bounding box `b`: the image of a painted
/// pixel holds that pixel's colour; a place of the region, or an image,
/// that is the image of no painted pixel holds nothing; every other place
/// holds what it held.
pub proof fn lemma_turn_result(s: SceneView, turn: Turn, region: Seq<PixelPosition>)
    requires
        region.len() >= 1,
    ensures
        fit_all(s, turn_effects(s, turn, region)),
        apply_all(s, turn_effects(s, turn, region)) == (SceneView {
            pixels: apply_all(s, turn_effects(s, turn, region)).pixels,
            ..s
        }),
        forall|i: int|
            0 <= i < region.len() && s.pixels.contains_key(#[trigger] region[i]) ==> lookup(
                apply_all(s, turn_effects(s, turn, region)).pixels,
                image_of(turn, bounds_of(region), region[i]),
            ) == Some(s.pixels[region[i]]),
        forall|q: PixelPosition|
            !region.contains(q) && !images(turn, bounds_of(region), region).contains(q) ==> lookup(
                apply_all(s, turn_effects(s, turn, region)).pixels,
                q,
            ) == lookup(s.pixels, q),
        forall|q: PixelPosition|
            (region.contains(q) || images(turn, bounds_of(region), region).contains(q)) && (
            forall|i: int|
                0 <= i < region.len() && s.pixels.contains_key(#[trigger] region[i]) ==> image_of(
                    turn,
                    bounds_of(region),
                    region[i],
                ) != q) ==> !apply_all(s, turn_effects(s, turn, region)).pixels.contains_key(q),
{
    let b = bounds_of(region);
    let targets = images(turn, b, region);
    let want = turned(s.pixels, turn, b, region);
    let end = apply_all(s, turn_effects(s, turn, region));
    lemma_repaint_result(s, region + targets, want);
    lemma_turned(s.pixels, turn, b, region);
    lemma_region_in_bounds(region);
    assert forall|q: PixelPosition| (region + targets).contains(q) <==> region.contains(q)
        || targets.contains(q) by {
        if (region + targets).contains(q) {
            let i = choose|i: int| 0 <= i < (region + targets).len() && (region + targets)[i] == q;
            if i < region.len() {
                assert(region[i] == q);
            } else {
                assert(targets[i - region.len()] == q);
            }
        }
        if region.contains(q) {
            let i = choose|i: int| 0 <= i < region.len() && region[i] == q;
            assert((region + targets)[i] == q);
        }
        if targets.contains(q) {
            let i = choose|i: int| 0 <= i < targets.len() && targets[i] == q;
            assert((region + targets)[region.len() + i] == q);
        }
    }
    assert forall|i: int|
        0 <= i < region.len() && s.pixels.contains_key(#[trigger] region[i]) implies lookup(
        end.pixels,
        image_of(turn, b, region[i]),
    ) == Some(s.pixels[region[i]]) by {
        let q = image_of(turn, b, region[i]);
        assert(targets[i] == q);
        assert(targets.contains(q));
        assert(want.contains_key(q));
        let j = choose|j: int|
            0 <= j < region.len() && s.pixels.contains_key(#[trigger] region[j]) && image_of(
                turn,
                b,
                region[j],
            ) == q && want[q] == s.pixels[region[j]];
        lemma_image_injective(turn, b, region[i], region[j]);
    }
}

/// Every pixel of a region lies in the region's bounding box.
pub proof fn lemma_region_in_bounds(region: Seq<PixelPosition>)
    requires
        region.len() >= 1,
    ensures
        forall|i: int|
            0 <= i < region.len() ==> bounds_of(region).x0 <= (#[trigger] region[i]).x <= bounds_of(
                region,
            ).x1 && bounds_of(region).y0 <= region[i].y <= bounds_of(region).y1,
{
    lemma_bounds(region);
}

} // verus!
