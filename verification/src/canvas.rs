//! The sparse pixel grid.

use crate::model::{ColorIndex, PixelPosition};
use std::collections::BTreeMap;
use vstd::std_specs::cmp::OrdSpec;
use vstd::std_specs::iter::IteratorSpec;
use vstd::prelude::*;

verus! {

/// The rank of a position in the canvas order (by `y`, then by `x`).
pub open spec fn rank(p: PixelPosition) -> int {
    (p.y + 0x8000) * 0x1_0000 + (p.x + 0x8000)
}

/// Two positions with the same rank are the same position, and a lower
/// position has a lower rank.
pub proof fn lemma_rank_orders(p: PixelPosition, q: PixelPosition)
    ensures
        0 <= rank(p) <= u32::MAX,
        rank(p) == rank(q) <==> p == q,
        rank(p) < rank(q) <==> (p.y < q.y || (p.y == q.y && p.x < q.x)),
{
}

/// Whether `s` lists positions in canvas order, none twice.
pub open spec fn increasing(s: Seq<PixelPosition>) -> bool {
    forall|i: int, j: int| 0 <= i < j < s.len() ==> rank(s[i]) < rank(s[j])
}

/// Whether `s` lists the painted positions of `pixels` in canvas order.
pub open spec fn in_order(pixels: Map<PixelPosition, ColorIndex>, s: Seq<PixelPosition>) -> bool {
    increasing(s) && s.to_set() == pixels.dom()
}

/// The painted positions of `pixels` in canvas order.
pub open spec fn painted(pixels: Map<PixelPosition, ColorIndex>) -> Seq<PixelPosition> {
    choose|s: Seq<PixelPosition>| in_order(pixels, s)
}

/// Only one sequence lists the painted positions in canvas order.
pub proof fn lemma_in_order_unique(
    pixels: Map<PixelPosition, ColorIndex>,
    a: Seq<PixelPosition>,
    b: Seq<PixelPosition>,
)
    requires
        in_order(pixels, a),
        in_order(pixels, b),
    ensures
        a == b,
    decreases a.len(),
{
    if a.len() == 0 {
        if b.len() > 0 {
            assert(b.to_set().contains(b[0]));
            assert(a.to_set().contains(b[0]));
        }
        assert(a =~= b);
    } else {
        let m = a.last();
        assert(a.to_set().contains(m));
        assert(b.to_set().contains(m));
        assert(b.to_set().contains(b.last()));
        assert(a.to_set().contains(b.last()));
        lemma_rank_orders(m, b.last());
        assert(b.last() == m);
        let rest = pixels.remove(m);
        lemma_drop_last_in_order(pixels, a);
        lemma_drop_last_in_order(pixels, b);
        lemma_in_order_unique(rest, a.drop_last(), b.drop_last());
        assert(a =~= a.drop_last().push(m));
        assert(b =~= b.drop_last().push(m));
    }
}

/// Without its last position, a listing in canvas order lists what is
/// painted elsewhere.
proof fn lemma_drop_last_in_order(pixels: Map<PixelPosition, ColorIndex>, a: Seq<PixelPosition>)
    requires
        in_order(pixels, a),
        a.len() > 0,
    ensures
        in_order(pixels.remove(a.last()), a.drop_last()),
{
    let m = a.last();
    let rest = pixels.remove(m);
    assert(a.to_set().contains(m));
    assert forall|p: PixelPosition| a.drop_last().to_set().contains(p) <==> rest.dom().contains(
        p,
    ) by {
        if a.drop_last().to_set().contains(p) {
            let i = choose|i: int| 0 <= i < a.len() - 1 && a.drop_last()[i] == p;
            assert(a[i] == p);
            assert(a.to_set().contains(p));
            lemma_rank_orders(p, m);
        }
        if rest.dom().contains(p) {
            assert(a.to_set().contains(p));
            let i = choose|i: int| 0 <= i < a.len() && a[i] == p;
            assert(a.drop_last()[i] == p);
        }
    }
    assert(a.drop_last().to_set() =~= rest.dom());
}

/// A listing of the painted positions in canvas order is the listing.
pub proof fn lemma_painted(pixels: Map<PixelPosition, ColorIndex>, a: Seq<PixelPosition>)
    requires
        in_order(pixels, a),
    ensures
        painted(pixels) == a,
{
    lemma_in_order_unique(pixels, a, painted(pixels));
}

fn key_of(p: PixelPosition) -> (k: u32)
    ensures
        k == rank(p),
{
    let row: u32 = (p.y as i32 + 0x8000) as u32;
    let col: u32 = (p.x as i32 + 0x8000) as u32;
    row * 0x1_0000 + col
}

fn position_of(k: u32) -> (p: PixelPosition)
    ensures
        rank(p) == k,
{
    let row: u32 = k / 0x1_0000;
    let col: u32 = k % 0x1_0000;
    PixelPosition { y: (row as i32 - 0x8000) as i16, x: (col as i32 - 0x8000) as i16 }
}

/// Keys that the map hands out in its order go up strictly.
proof fn lemma_keys_increase(keys: Seq<u32>)
    requires
        vstd::std_specs::btree::increasing_seq(keys),
    ensures
        forall|i: int, j: int| 0 <= i < j < keys.len() ==> keys[i] < keys[j],
{
    vstd::std_specs::btree::axiom_increasing_seq_meaning(keys);
    assert forall|i: int, j: int| 0 <= i < j < keys.len() implies keys[i] < keys[j] by {
        assert(keys[i].cmp_spec(&keys[j]) is Less);
    }
}

/// A sparse, unbounded grid: only painted positions are stored.
pub struct Canvas {
    cells: BTreeMap<u32, ColorIndex>,
}

impl View for Canvas {
    type V = Map<PixelPosition, ColorIndex>;

    closed spec fn view(&self) -> Map<PixelPosition, ColorIndex> {
        Map::new(
            |p: PixelPosition| self.cells@.contains_key(rank(p) as u32),
            |p: PixelPosition| self.cells@[rank(p) as u32],
        )
    }
}

impl Canvas {
    /// A canvas on which nothing is painted.
    pub fn new() -> (c: Self)
        ensures
            c@ == Map::<PixelPosition, ColorIndex>::empty(),
    {
        let c = Canvas { cells: BTreeMap::new() };
        assert(c@ =~= Map::<PixelPosition, ColorIndex>::empty());
        c
    }

    /// The colour index painted at `position`, if any.
    pub fn get(&self, position: PixelPosition) -> (r: Option<ColorIndex>)
        ensures
            r == (if self@.contains_key(position) {
                Some(self@[position])
            } else {
                None
            }),
    {
        let k = key_of(position);
        match self.cells.get(&k) {
            Some(c) => Some(*c),
            None => None,
        }
    }

    /// Paints `position` with `color`, or clears it where `color` is `None`.
    /// Returns what was there before.
    pub fn set(&mut self, position: PixelPosition, color: Option<ColorIndex>) -> (previous: Option<
        ColorIndex,
    >)
        ensures
            previous == (if old(self)@.contains_key(position) {
                Some(old(self)@[position])
            } else {
                None
            }),
            final(self)@ == (match color {
                Some(c) => old(self)@.insert(position, c),
                None => old(self)@.remove(position),
            }),
    {
        let k = key_of(position);
        let previous = match color {
            Some(c) => self.cells.insert(k, c),
            None => self.cells.remove(&k),
        };
        proof {
            assert forall|p: PixelPosition, q: PixelPosition| rank(p) as u32 == rank(q) as u32
                implies p == q by {
                lemma_rank_orders(p, q);
            }
            match color {
                Some(c) => {
                    assert(self@ =~= old(self)@.insert(position, c));
                },
                None => {
                    assert(self@ =~= old(self)@.remove(position));
                },
            }
        }
        previous
    }

    /// The painted positions, in canvas order.
    pub fn positions(&self) -> (v: Vec<PixelPosition>)
        ensures
            v@ == painted(self@),
            in_order(self@, v@),
            v@.no_duplicates(),
    {
        let mut v: Vec<PixelPosition> = Vec::new();
        let entries = self.cells.iter();
        let ghost all = entries.remaining();
        let ghost keys = all.map_values(|kv: (&u32, &ColorIndex)| *kv.0);
        proof {
            vstd::std_specs::btree::axiom_spec_btree_map_iter(&self.cells);
            lemma_keys_increase(keys);
        }
        for kv in it: entries
            invariant
                v@.len() == it.index(),
                it.seq() == all,
                forall|j: int| 0 <= j < v@.len() ==> rank(#[trigger] v@[j]) == *all[j].0,
        {
            v.push(position_of(*kv.0));
        }
        proof {
            assert forall|i: int, j: int| 0 <= i < j < v@.len() implies rank(v@[i]) < rank(
                v@[j],
            ) by {
                assert(rank(v@[i]) == keys[i]);
                assert(rank(v@[j]) == keys[j]);
            }
            assert forall|p: PixelPosition| v@.to_set().contains(p) <==> self@.dom().contains(
                p,
            ) by {
                lemma_rank_orders(p, p);
                if v@.to_set().contains(p) {
                    let j = choose|j: int| 0 <= j < v@.len() && v@[j] == p;
                    assert(self.cells@.contains_key(*all[j].0));
                }
                if self@.dom().contains(p) {
                    let k = rank(p) as u32;
                    assert(all.contains((&k, &self.cells@[k])));
                    let j = choose|j: int| 0 <= j < all.len() && all[j] == (&k, &self.cells@[k]);
                    assert(rank(v@[j]) == rank(p));
                    lemma_rank_orders(v@[j], p);
                }
            }
            assert(v@.to_set() =~= self@.dom());
            lemma_painted(self@, v@);
            assert forall|i: int, j: int| 0 <= i < v@.len() && 0 <= j < v@.len() && i != j
                implies v@[i] != v@[j] by {
                if i < j {
                    assert(rank(v@[i]) < rank(v@[j]));
                } else {
                    assert(rank(v@[j]) < rank(v@[i]));
                }
            }
        }
        v
    }
}

} // verus!
