//! Region selection: the path of a marking session and the pixels that
//! it covers.

use crate::model::PixelPosition;
use vstd::arithmetic::div_mod::{
    lemma_div_is_ordered, lemma_fundamental_div_mod, lemma_fundamental_div_mod_converse,
    lemma_mod_bound,
};
use vstd::prelude::*;

verus! {

/// How a marking session turns its path into covered pixels.
#[derive(Debug, Clone, Copy, PartialEq, Eq, Structural, Hash)]
pub enum MarkKind {
    /// Every visited position.
    Point,
    /// The segment from the anchor to the latest position.
    Line,
    /// The box spanned by the anchor and the latest position.
    Rectangle,
    /// Every visited position, and what the path encloses as a polygon.
    Freeform,
}

pub open spec fn min_int(a: int, b: int) -> int {
    if a <= b {
        a
    } else {
        b
    }
}

pub open spec fn max_int(a: int, b: int) -> int {
    if a >= b {
        a
    } else {
        b
    }
}

/// The lowest `x` among `path`, which is not empty.
pub open spec fn min_x(path: Seq<PixelPosition>) -> int
    decreases path.len(),
{
    if path.len() <= 1 {
        path[0].x as int
    } else {
        min_int(min_x(path.drop_last()), path.last().x as int)
    }
}

pub open spec fn max_x(path: Seq<PixelPosition>) -> int
    decreases path.len(),
{
    if path.len() <= 1 {
        path[0].x as int
    } else {
        max_int(max_x(path.drop_last()), path.last().x as int)
    }
}

pub open spec fn min_y(path: Seq<PixelPosition>) -> int
    decreases path.len(),
{
    if path.len() <= 1 {
        path[0].y as int
    } else {
        min_int(min_y(path.drop_last()), path.last().y as int)
    }
}

pub open spec fn max_y(path: Seq<PixelPosition>) -> int
    decreases path.len(),
{
    if path.len() <= 1 {
        path[0].y as int
    } else {
        max_int(max_y(path.drop_last()), path.last().y as int)
    }
}

/// The positions `(x, y)` with `x0 <= x <= x1` and `y0 <= y <= y1`, row
/// by row from the top, each row from the left.
pub open spec fn box_points(x0: int, y0: int, x1: int, y1: int) -> Seq<PixelPosition> {
    let w = x1 - x0 + 1;
    let h = y1 - y0 + 1;
    Seq::new(
        (w * h) as nat,
        |i: int| PixelPosition { y: (y0 + i / w) as i16, x: (x0 + i % w) as i16 },
    )
}

/// The box spanned by two corners.
pub open spec fn rectangle_points(a: PixelPosition, b: PixelPosition) -> Seq<PixelPosition> {
    box_points(
        min_int(a.x as int, b.x as int),
        min_int(a.y as int, b.y as int),
        max_int(a.x as int, b.x as int),
        max_int(a.y as int, b.y as int),
    )
}

pub open spec fn abs_int(a: int) -> int {
    if a >= 0 {
        a
    } else {
        -a
    }
}

/// How far along an extent `d` the point number `i` of `n` lies, rounded
/// to the nearest whole number, halves away from zero.
pub open spec fn line_offset(i: int, d: int, n: int) -> int {
    if d >= 0 {
        (2 * i * d + n) / (2 * n)
    } else {
        -((2 * i * (-d) + n) / (2 * n))
    }
}

/// The number of steps of the segment from `a` to `b`: the greater of its
/// extents in `x` and in `y`.
pub open spec fn line_steps(a: PixelPosition, b: PixelPosition) -> int {
    max_int(abs_int(b.x - a.x), abs_int(b.y - a.y))
}

/// The rasterized segment from `a` to `b`: one point for each step along
/// its longer extent, the other coordinate rounded to the nearest pixel.
pub open spec fn line_points(a: PixelPosition, b: PixelPosition) -> Seq<PixelPosition> {
    let n = line_steps(a, b);
    if n == 0 {
        seq![a]
    } else {
        Seq::new(
            (n + 1) as nat,
            |i: int|
                PixelPosition {
                    y: (a.y + line_offset(i, b.y - a.y, n)) as i16,
                    x: (a.x + line_offset(i, b.x - a.x, n)) as i16,
                },
        )
    }
}

/// Whether the edge from `a` to `b` crosses the horizontal ray that leaves
/// `p` towards greater `x`. An edge counts at its upper end only.
pub open spec fn edge_crosses(a: PixelPosition, b: PixelPosition, p: PixelPosition) -> bool {
    let dy = b.y - a.y;
    let lhs = (p.x - a.x) * dy;
    let rhs = (p.y - a.y) * (b.x - a.x);
    (a.y > p.y) != (b.y > p.y) && (if dy > 0 {
        lhs < rhs
    } else {
        lhs > rhs
    })
}

/// How many of the first `k` edges of the closed polygon `path` cross the
/// ray from `p`. Edge `i` leads from vertex `i` to the next, the last one
/// back to the first.
pub open spec fn crossings(path: Seq<PixelPosition>, p: PixelPosition, k: int) -> int
    decreases k,
{
    if k <= 0 {
        0
    } else {
        crossings(path, p, k - 1) + (if edge_crosses(
            path[k - 1],
            path[k % (path.len() as int)],
            p,
        ) {
            1int
        } else {
            0int
        })
    }
}

/// Whether `p` lies inside the closed polygon `path` by the even-odd rule.
pub open spec fn inside(path: Seq<PixelPosition>, p: PixelPosition) -> bool {
    crossings(path, p, path.len() as int) % 2 == 1
}

/// Whether a freeform marking with this path covers `p`.
pub open spec fn freeform_covers(path: Seq<PixelPosition>, p: PixelPosition) -> bool {
    path.contains(p) || inside(path, p)
}

/// The pixels that a freeform marking covers: those of the path's bounding
/// box that were visited or lie inside the polygon, in box order.
pub open spec fn freeform_points(path: Seq<PixelPosition>) -> Seq<PixelPosition> {
    box_points(min_x(path), min_y(path), max_x(path), max_y(path)).filter(
        |p: PixelPosition| freeform_covers(path, p),
    )
}

/// The pixels covered by a marking of kind `kind` whose path, anchor
/// first, is `path`.
pub open spec fn covered(kind: MarkKind, path: Seq<PixelPosition>) -> Seq<PixelPosition> {
    match kind {
        MarkKind::Point => path,
        MarkKind::Line => line_points(path[0], path.last()),
        MarkKind::Rectangle => rectangle_points(path[0], path.last()),
        MarkKind::Freeform => freeform_points(path),
    }
}

/// The number of pixels in the box spanned by `a` and `b`.
pub open spec fn rectangle_len(a: PixelPosition, b: PixelPosition) -> int {
    (abs_int(b.x - a.x) + 1) * (abs_int(b.y - a.y) + 1)
}

/// The number of pixels in the bounding box of `path`.
pub open spec fn bounding_len(path: Seq<PixelPosition>) -> int {
    (max_x(path) - min_x(path) + 1) * (max_y(path) - min_y(path) + 1)
}

/// Whether the box that a marking of this kind scans has a size that the
/// machine can count: always so where `usize` has 64 bits.
pub open spec fn countable(kind: MarkKind, path: Seq<PixelPosition>) -> bool {
    match kind {
        MarkKind::Point => true,
        MarkKind::Line => true,
        MarkKind::Rectangle => rectangle_len(path[0], path.last()) <= usize::MAX,
        MarkKind::Freeform => bounding_len(path) <= usize::MAX,
    }
}

/// The bounds of a path lie within the range of a coordinate, lowest first.
pub proof fn lemma_bounds(path: Seq<PixelPosition>)
    requires
        path.len() >= 1,
    ensures
        i16::MIN <= min_x(path) <= max_x(path) <= i16::MAX,
        i16::MIN <= min_y(path) <= max_y(path) <= i16::MAX,
        forall|i: int|
            0 <= i < path.len() ==> min_x(path) <= (#[trigger] path[i]).x <= max_x(path)
                && min_y(path) <= path[i].y <= max_y(path),
    decreases path.len(),
{
    if path.len() > 1 {
        lemma_bounds(path.drop_last());
        assert forall|i: int| 0 <= i < path.len() implies min_x(path) <= (#[trigger] path[i]).x
            <= max_x(path) && min_y(path) <= path[i].y <= max_y(path) by {
            if i < path.len() - 1 {
                assert(path.drop_last()[i] == path[i]);
            }
        }
    }
}

/// The least and greatest coordinates of `path`: `(min_x, min_y, max_x,
/// max_y)`.
pub fn bounding_box(path: &Vec<PixelPosition>) -> (b: (i16, i16, i16, i16))
    requires
        path@.len() >= 1,
    ensures
        b.0 == min_x(path@),
        b.1 == min_y(path@),
        b.2 == max_x(path@),
        b.3 == max_y(path@),
{
    let n = path.len();
    let mut x0 = path[0].x;
    let mut x1 = path[0].x;
    let mut y0 = path[0].y;
    let mut y1 = path[0].y;
    let mut i: usize = 1;
    assert(path@.take(1).drop_last() =~= Seq::<PixelPosition>::empty());
    while i < n
        invariant
            1 <= i <= n,
            n == path@.len(),
            x0 == min_x(path@.take(i as int)),
            x1 == max_x(path@.take(i as int)),
            y0 == min_y(path@.take(i as int)),
            y1 == max_y(path@.take(i as int)),
        decreases n - i,
    {
        let p = path[i];
        proof {
            assert(path@.take(i + 1).drop_last() =~= path@.take(i as int));
        }
        if p.x < x0 {
            x0 = p.x;
        }
        if p.x > x1 {
            x1 = p.x;
        }
        if p.y < y0 {
            y0 = p.y;
        }
        if p.y > y1 {
            y1 = p.y;
        }
        i = i + 1;
    }
    proof {
        assert(path@.take(n as int) =~= path@);
    }
    (x0, y0, x1, y1)
}

/// A box covers exactly the positions between its corners, both ends
/// included.
pub proof fn lemma_box_covers(x0: int, y0: int, x1: int, y1: int, p: PixelPosition)
    requires
        i16::MIN <= x0 <= x1 <= i16::MAX,
        i16::MIN <= y0 <= y1 <= i16::MAX,
    ensures
        box_points(x0, y0, x1, y1).contains(p) <==> (x0 <= p.x <= x1 && y0 <= p.y <= y1),
{
    let w = x1 - x0 + 1;
    let h = y1 - y0 + 1;
    let all = box_points(x0, y0, x1, y1);
    assert(w * h >= 0) by (nonlinear_arith)
        requires
            w >= 1,
            h >= 1,
    ;
    if all.contains(p) {
        let i = choose|i: int| 0 <= i < all.len() && all[i] == p;
        lemma_fundamental_div_mod(i, w);
        lemma_mod_bound(i, w);
        assert(0 <= i / w < h) by (nonlinear_arith)
            requires
                0 <= i < w * h,
                w >= 1,
                i == w * (i / w) + i % w,
                0 <= i % w < w,
        ;
    }
    if x0 <= p.x <= x1 && y0 <= p.y <= y1 {
        let i = (p.y - y0) * w + (p.x - x0);
        assert(0 <= i < w * h) by (nonlinear_arith)
            requires
                i == (p.y - y0) * w + (p.x - x0),
                0 <= p.y - y0 < h,
                0 <= p.x - x0 < w,
        ;
        lemma_fundamental_div_mod_converse(i, w, p.y - y0, p.x - x0);
        assert(all[i] == p);
    }
}

/// A rectangle marking covers exactly the positions of the box that its
/// anchor and its latest position span, both ends included.
pub proof fn lemma_rectangle_covers(a: PixelPosition, b: PixelPosition, p: PixelPosition)
    ensures
        rectangle_points(a, b).contains(p) <==> (min_int(a.x as int, b.x as int) <= p.x <= max_int(
            a.x as int,
            b.x as int,
        ) && min_int(a.y as int, b.y as int) <= p.y <= max_int(a.y as int, b.y as int)),
{
    lemma_box_covers(
        min_int(a.x as int, b.x as int),
        min_int(a.y as int, b.y as int),
        max_int(a.x as int, b.x as int),
        max_int(a.y as int, b.y as int),
        p,
    );
}

/// A freeform marking covers exactly the positions that were visited and
/// those that lie inside the polygon and in the path's bounding box. No
/// visited position is left out.
pub proof fn lemma_freeform_covers(path: Seq<PixelPosition>, p: PixelPosition)
    requires
        path.len() >= 1,
    ensures
        freeform_points(path).contains(p) <==> (freeform_covers(path, p) && min_x(path) <= p.x
            <= max_x(path) && min_y(path) <= p.y <= max_y(path)),
        path.contains(p) ==> freeform_points(path).contains(p),
{
    lemma_bounds(path);
    let scan = box_points(min_x(path), min_y(path), max_x(path), max_y(path));
    let keep = |q: PixelPosition| freeform_covers(path, q);
    lemma_box_covers(min_x(path), min_y(path), max_x(path), max_y(path), p);
    if scan.filter(keep).contains(p) {
        scan.lemma_filter_contains_rev(keep, p);
        let i = choose|i: int| 0 <= i < scan.filter(keep).len() && scan.filter(keep)[i] == p;
        scan.lemma_filter_pred(keep, i);
    }
    if scan.contains(p) && freeform_covers(path, p) {
        let i = choose|i: int| 0 <= i < scan.len() && scan[i] == p;
        scan.lemma_filter_contains(keep, i);
    }
    if path.contains(p) {
        let i = choose|i: int| 0 <= i < path.len() && path[i] == p;
        assert(min_x(path) <= path[i].x <= max_x(path));
    }
}

/// A rasterized segment begins at its first end and ends at its second.
pub proof fn lemma_line_ends(a: PixelPosition, b: PixelPosition)
    ensures
        line_points(a, b).len() == line_steps(a, b) + 1,
        line_points(a, b)[0] == a,
        line_points(a, b).last() == b,
{
    let n = line_steps(a, b);
    if n > 0 {
        let dx = b.x - a.x;
        let dy = b.y - a.y;
        lemma_offset_ends(dx, n);
        lemma_offset_ends(dy, n);
    }
}

/// The offsets of the first and the last point of a segment are zero and
/// the whole extent.
proof fn lemma_offset_ends(d: int, n: int)
    requires
        n >= 1,
        -n <= d <= n,
    ensures
        line_offset(0, d, n) == 0,
        line_offset(n, d, n) == d,
{
    let m = abs_int(d);
    lemma_fundamental_div_mod_converse(n, 2 * n, 0, n);
    assert(2 * 0 * d + n == n) by (nonlinear_arith);
    assert(2 * 0 * (-d) + n == n) by (nonlinear_arith);
    assert(2 * n * m + n == (2 * n) * m + n) by (nonlinear_arith);
    lemma_fundamental_div_mod_converse(2 * n * m + n, 2 * n, m, n);
}

/// The points of a box, as a vector.
fn collect_box(x0: i16, y0: i16, x1: i16, y1: i16) -> (v: Vec<PixelPosition>)
    requires
        x0 <= x1,
        y0 <= y1,
        (x1 - x0 + 1) * (y1 - y0 + 1) <= usize::MAX,
    ensures
        v@ == box_points(x0 as int, y0 as int, x1 as int, y1 as int),
{
    let ghost w = x1 - x0 + 1;
    let ghost h = y1 - y0 + 1;
    let ghost all = box_points(x0 as int, y0 as int, x1 as int, y1 as int);
    let mut v: Vec<PixelPosition> = Vec::new();
    let mut y: i32 = y0 as i32;
    while y <= y1 as i32
        invariant
            x0 <= x1,
            y0 <= y <= y1 + 1,
            w == x1 - x0 + 1,
            h == y1 - y0 + 1,
            all == box_points(x0 as int, y0 as int, x1 as int, y1 as int),
            w * h <= usize::MAX,
            v@ == all.take((y - y0) * w),
            0 <= (y - y0) * w <= w * h,
        decreases y1 + 1 - y,
    {
        let mut x: i32 = x0 as i32;
        while x <= x1 as i32
            invariant
                x0 <= x <= x1 + 1,
                y0 <= y <= y1,
                w == x1 - x0 + 1,
                h == y1 - y0 + 1,
                all == box_points(x0 as int, y0 as int, x1 as int, y1 as int),
                w * h <= usize::MAX,
                v@ == all.take((y - y0) * w + (x - x0)),
                0 <= (y - y0) * w + (x - x0) <= w * h,
            decreases x1 + 1 - x,
        {
            let ghost k = (y - y0) * w + (x - x0);
            proof {
                assert((y - y0) * w + w <= w * h) by (nonlinear_arith)
                    requires
                        y - y0 + 1 <= h,
                        w >= 1,
                ;
                lemma_fundamental_div_mod_converse(k, w, (y - y0) as int, (x - x0) as int);
                assert(all[k] == PixelPosition { y: y as i16, x: x as i16 });
                assert(all.take(k + 1) =~= all.take(k).push(all[k]));
            }
            v.push(PixelPosition { y: y as i16, x: x as i16 });
            x = x + 1;
        }
        proof {
            assert((y - y0) * w + w == (y + 1 - y0) * w) by (nonlinear_arith);
            assert((y + 1 - y0) * w <= w * h) by (nonlinear_arith)
                requires
                    y + 1 - y0 <= h,
                    w >= 1,
            ;
        }
        y = y + 1;
    }
    proof {
        assert((y - y0) * w == w * h) by (nonlinear_arith)
            requires
                y - y0 == h,
        ;
        assert(all.take(w * h) =~= all);
    }
    v
}

/// The offset of point `i` of `n` along the extent `d`.
fn offset_along(i: i64, d: i64, n: i64) -> (r: i64)
    requires
        0 <= i <= n,
        1 <= n <= 0xffff,
        -n <= d <= n,
    ensures
        r == line_offset(i as int, d as int, n as int),
        if d >= 0 {
            0 <= r <= d
        } else {
            d <= r <= 0
        },
{
    let m: i64 = if d >= 0 {
        d
    } else {
        -d
    };
    proof {
        assert(0 <= 2 * i * m <= 2 * n * m) by (nonlinear_arith)
            requires
                0 <= i <= n,
                0 <= m,
        ;
        assert(2 * n * m <= 2 * n * n) by (nonlinear_arith)
            requires
                0 <= m <= n,
        ;
        assert(2 * n * n <= 2 * 0xffff * 0xffff) by (nonlinear_arith)
            requires
                1 <= n <= 0xffff,
        ;
        assert((2 * n * m + n) / (2 * n) <= m) by (nonlinear_arith)
            requires
                n >= 1,
                m >= 0,
        ;
        lemma_div_is_ordered(2 * i * m + n, 2 * n * m + n, 2 * n);
        assert((2 * i * m + n) / (2 * n) >= 0) by (nonlinear_arith)
            requires
                2 * i * m + n >= 0,
                n >= 1,
        ;
    }
    let q: i64 = (2 * i * m + n) / (2 * n);
    if d >= 0 {
        q
    } else {
        -q
    }
}

/// The points of a segment, as a vector.
fn collect_line(a: PixelPosition, b: PixelPosition) -> (v: Vec<PixelPosition>)
    ensures
        v@ == line_points(a, b),
{
    let dx: i64 = b.x as i64 - a.x as i64;
    let dy: i64 = b.y as i64 - a.y as i64;
    let adx: i64 = if dx >= 0 {
        dx
    } else {
        -dx
    };
    let ady: i64 = if dy >= 0 {
        dy
    } else {
        -dy
    };
    let n: i64 = if adx >= ady {
        adx
    } else {
        ady
    };
    let mut v: Vec<PixelPosition> = Vec::new();
    if n == 0 {
        v.push(a);
        assert(v@ =~= seq![a]);
        return v;
    }
    let ghost all = line_points(a, b);
    let mut i: i64 = 0;
    while i <= n
        invariant
            0 <= i <= n + 1,
            1 <= n <= 0xffff,
            n == line_steps(a, b),
            dx == b.x - a.x,
            dy == b.y - a.y,
            -n <= dx <= n,
            -n <= dy <= n,
            all == line_points(a, b),
            v@ == all.take(i as int),
        decreases n + 1 - i,
    {
        let ox = offset_along(i, dx, n);
        let oy = offset_along(i, dy, n);
        let p = PixelPosition { y: (a.y as i64 + oy) as i16, x: (a.x as i64 + ox) as i16 };
        proof {
            assert(all[i as int] == p);
            assert(all.take(i + 1) =~= all.take(i as int).push(p));
        }
        v.push(p);
        i = i + 1;
    }
    assert(all.take(n + 1) =~= all);
    v
}

fn crosses(a: PixelPosition, b: PixelPosition, p: PixelPosition) -> (r: bool)
    ensures
        r == edge_crosses(a, b, p),
{
    if (a.y > p.y) == (b.y > p.y) {
        return false;
    }
    let dy: i64 = b.y as i64 - a.y as i64;
    let px: i64 = p.x as i64 - a.x as i64;
    let py: i64 = p.y as i64 - a.y as i64;
    let bx: i64 = b.x as i64 - a.x as i64;
    proof {
        assert(-0xffff * 0xffff <= px * dy <= 0xffff * 0xffff) by (nonlinear_arith)
            requires
                -0xffff <= px <= 0xffff,
                -0xffff <= dy <= 0xffff,
        ;
        assert(-0xffff * 0xffff <= py * bx <= 0xffff * 0xffff) by (nonlinear_arith)
            requires
                -0xffff <= py <= 0xffff,
                -0xffff <= bx <= 0xffff,
        ;
    }
    let lhs: i64 = px * dy;
    let rhs: i64 = py * bx;
    if dy > 0 {
        lhs < rhs
    } else {
        lhs > rhs
    }
}

/// Whether a freeform marking with path `path` covers `p`.
fn covers(path: &Vec<PixelPosition>, p: PixelPosition) -> (r: bool)
    requires
        path@.len() >= 1,
    ensures
        r == freeform_covers(path@, p),
{
    let n = path.len();
    let mut odd = false;
    let mut visited = false;
    let mut k: usize = 0;
    while k < n
        invariant
            k <= n,
            n == path@.len(),
            n >= 1,
            odd == (crossings(path@, p, k as int) % 2 == 1),
            visited == exists|j: int| 0 <= j < k && path@[j] == p,
        decreases n - k,
    {
        let next = if k + 1 == n {
            0
        } else {
            k + 1
        };
        assert(next == (k + 1) % (n as int)) by {
            if k + 1 == n {
                assert((k + 1) % (n as int) == 0) by (nonlinear_arith)
                    requires
                        k + 1 == n,
                        n >= 1,
                ;
            } else {
                assert((k + 1) % (n as int) == k + 1) by (nonlinear_arith)
                    requires
                        0 <= k + 1 < n,
                ;
            }
        }
        if path[k] == p {
            visited = true;
        }
        if crosses(path[k], path[next], p) {
            odd = !odd;
        }
        k = k + 1;
    }
    visited || odd
}

/// Whether a box of `w` by `h` pixels has a size that `usize` holds.
fn fits_count(w: u64, h: u64) -> (b: bool)
    requires
        1 <= w <= 0x1_0000,
        1 <= h <= 0x1_0000,
    ensures
        b == (w * h <= usize::MAX),
{
    assert(w * h <= 0x1_0000 * 0x1_0000) by (nonlinear_arith)
        requires
            1 <= w <= 0x1_0000,
            1 <= h <= 0x1_0000,
    ;
    let area: u64 = w * h;
    area <= usize::MAX as u64
}

/// A marking session: its kind and the cursor positions visited since it
/// began, the anchor first. It keeps the path only; the covered pixels
/// are computed when they are asked for.
#[derive(Debug)]
pub struct Marker {
    kind: MarkKind,
    path: Vec<PixelPosition>,
}

/// What a [`Marker`] is, as plain values.
pub struct MarkerView {
    pub kind: MarkKind,
    pub path: Seq<PixelPosition>,
}

impl MarkerView {
    /// The marking after the cursor came to `position`.
    pub open spec fn extended(self, position: PixelPosition) -> MarkerView {
        MarkerView { kind: self.kind, path: self.path.push(position) }
    }

    /// The pixels that the marking covers.
    pub open spec fn covered(self) -> Seq<PixelPosition> {
        covered(self.kind, self.path)
    }

    /// The path has an anchor.
    pub open spec fn wf(self) -> bool {
        self.path.len() >= 1
    }
}

impl View for Marker {
    type V = MarkerView;

    closed spec fn view(&self) -> MarkerView {
        MarkerView { kind: self.kind, path: self.path@ }
    }
}

impl Marker {
    /// Begins a marking session at `anchor`.
    pub fn new(kind: MarkKind, anchor: PixelPosition) -> (m: Self)
        ensures
            m@ == (MarkerView { kind, path: seq![anchor] }),
    {
        let mut path: Vec<PixelPosition> = Vec::new();
        path.push(anchor);
        assert(path@ =~= seq![anchor]);
        Marker { kind, path }
    }

    pub fn kind(&self) -> (k: MarkKind)
        ensures
            k == self@.kind,
    {
        self.kind
    }

    /// The visited positions, the anchor first.
    pub fn path(&self) -> (p: &Vec<PixelPosition>)
        ensures
            p@ == self@.path,
    {
        &self.path
    }

    /// Records that the cursor came to `position`.
    pub fn extend(&mut self, position: PixelPosition)
        ensures
            final(self)@ == old(self)@.extended(position),
    {
        self.path.push(position);
    }

    /// A copy of the marking.
    pub fn copy(&self) -> (m: Self)
        ensures
            m@ == self@,
    {
        let mut path: Vec<PixelPosition> = Vec::new();
        let mut i: usize = 0;
        while i < self.path.len()
            invariant
                i <= self.path@.len(),
                path@ == self.path@.take(i as int),
            decreases self.path@.len() - i,
        {
            path.push(self.path[i]);
            assert(self.path@.take(i + 1) =~= self.path@.take(i as int).push(self.path@[i as int]));
            i = i + 1;
        }
        assert(self.path@.take(self.path@.len() as int) =~= self.path@);
        Marker { kind: self.kind, path }
    }

    /// Whether the box that the marking scans can be counted, as
    /// [`Marker::marked_points`] asks.
    pub fn is_countable(&self) -> (b: bool)
        requires
            self@.wf(),
        ensures
            b == countable(self@.kind, self@.path),
    {
        match self.kind {
            MarkKind::Point => true,
            MarkKind::Line => true,
            MarkKind::Rectangle => {
                let a = self.path[0];
                let b = self.path[self.path.len() - 1];
                let w: u64 = (if a.x <= b.x {
                    b.x as i64 - a.x as i64
                } else {
                    a.x as i64 - b.x as i64
                }) as u64 + 1;
                let h: u64 = (if a.y <= b.y {
                    b.y as i64 - a.y as i64
                } else {
                    a.y as i64 - b.y as i64
                }) as u64 + 1;
                fits_count(w, h)
            },
            MarkKind::Freeform => {
                let (x0, y0, x1, y1) = bounding_box(&self.path);
                proof {
                    lemma_bounds(self.path@);
                }
                let w: u64 = (x1 as i64 - x0 as i64) as u64 + 1;
                let h: u64 = (y1 as i64 - y0 as i64) as u64 + 1;
                fits_count(w, h)
            },
        }
    }

    /// The pixels that the marking covers.
    pub fn marked_points(&self) -> (v: Vec<PixelPosition>)
        requires
            self@.wf(),
            countable(self@.kind, self@.path),
        ensures
            v@ == self@.covered(),
    {
        let n = self.path.len();
        let anchor = self.path[0];
        let latest = self.path[n - 1];
        match self.kind {
            MarkKind::Point => {
                let copy = self.copy();
                copy.path
            },
            MarkKind::Line => collect_line(anchor, latest),
            MarkKind::Rectangle => {
                let x0 = if anchor.x <= latest.x {
                    anchor.x
                } else {
                    latest.x
                };
                let x1 = if anchor.x <= latest.x {
                    latest.x
                } else {
                    anchor.x
                };
                let y0 = if anchor.y <= latest.y {
                    anchor.y
                } else {
                    latest.y
                };
                let y1 = if anchor.y <= latest.y {
                    latest.y
                } else {
                    anchor.y
                };
                collect_box(x0, y0, x1, y1)
            },
            MarkKind::Freeform => {
                let (x0, y0, x1, y1) = bounding_box(&self.path);
                proof {
                    lemma_bounds(self.path@);
                }
                let scan = collect_box(x0, y0, x1, y1);
                let ghost keep = |p: PixelPosition| freeform_covers(self.path@, p);
                let mut v: Vec<PixelPosition> = Vec::new();
                let mut j: usize = 0;
                while j < scan.len()
                    invariant
                        j <= scan@.len(),
                        self.path@.len() >= 1,
                        keep == |p: PixelPosition| freeform_covers(self.path@, p),
                        v@ == scan@.take(j as int).filter(keep),
                    decreases scan@.len() - j,
                {
                    let p = scan[j];
                    proof {
                        assert(scan@.take(j + 1).drop_last() =~= scan@.take(j as int));
                        reveal(Seq::filter);
                    }
                    if covers(&self.path, p) {
                        v.push(p);
                    }
                    j = j + 1;
                }
                assert(scan@.take(scan@.len() as int) =~= scan@);
                v
            },
        }
    }
}

} // verus!
