//! Building a group of effects: each effect is carried out on the scene
//! as it is added, so that the next one sees what the last one did.

use crate::history::tags_step;
use crate::model::{Color, ColorIndex, Command};
use crate::scene::{
    apply_all, effects_of, fit_all, kept, lemma_apply_all_concat, lemma_apply_all_one,
    lemma_kept, lookup, Effect, Scene, SceneView,
};
use vstd::prelude::*;

verus! {

impl Effect {
    /// Whether the effect, which an intent gives rise to at place `place`
    /// of the log, keeps a valid scene valid: it paints and selects with
    /// indices of the palette, adds to the palette only colours that are
    /// new, keeps the scale above zero, and sets a tag to `place` only.
    pub open spec fn safe(self, s: SceneView, place: int) -> bool {
        match self {
            Effect::Dot { position, previous, color } => match color {
                Some(c) => s.colors.contains_key(c.0),
                None => true,
            },
            Effect::SelectColor { index, previous } => s.colors.contains_key(index.0),
            Effect::SetColor { index, previous, color } => match color {
                Some(c) => !s.colors.contains_key(index.0) && !has_color(s, c),
                None => false,
            },
            Effect::SetScale { previous, scale } => scale >= 1,
            Effect::SetTag { name, previous, version } => match version {
                Some(v) => v == place,
                None => true,
            },
            _ => true,
        }
    }
}

/// Whether the palette of `s` holds `color`.
pub open spec fn has_color(s: SceneView, color: Color) -> bool {
    exists|i: usize| s.colors.contains_key(i) && s.colors[i] == color
}

/// The index under which the palette of `s` holds `color`.
pub open spec fn color_index(s: SceneView, color: Color) -> usize {
    choose|i: usize| s.colors.contains_key(i) && s.colors[i] == color
}

/// Whether `k` is the least index that the palette of `s` does not use.
pub open spec fn is_fresh(s: SceneView, k: usize) -> bool {
    !s.colors.contains_key(k) && forall|j: usize| j < k ==> s.colors.contains_key(j)
}

/// The least index that the palette of `s` does not use.
pub open spec fn fresh_index(s: SceneView) -> usize {
    choose|k: usize| is_fresh(s, k)
}

/// A safe effect keeps a valid scene valid and sets tags to its place in
/// the log only.
pub proof fn lemma_safe_step(s: SceneView, e: Effect, place: int)
    requires
        s.valid(),
        e.safe(s, place),
    ensures
        e.apply(s).valid(),
        tags_step(s, e.apply(s), place),
{
    let t = e.apply(s);
    match e {
        Effect::SetColor { index, previous, color } => {
            assert(t.colors.dom() =~= s.colors.dom().insert(index.0));
            assert forall|i: usize, j: usize|
                t.colors.contains_key(i) && t.colors.contains_key(j) && t.colors[i]
                    == t.colors[j] implies i == j by {
                if i == index.0 && j != index.0 {
                    assert(s.colors.contains_key(j) && s.colors[j] == color->0);
                }
                if j == index.0 && i != index.0 {
                    assert(s.colors.contains_key(i) && s.colors[i] == color->0);
                }
            }
        },
        _ => {},
    }
}

/// Whether `scene` and `group` are a group in the making: `group` fits
/// `start` and gives `scene`, which is valid and whose new tags point to
/// `place`.
pub open spec fn staged(start: SceneView, scene: SceneView, group: Seq<Effect>, place: int) -> bool {
    &&& scene == apply_all(start, group)
    &&& fit_all(start, group)
    &&& scene.valid()
    &&& tags_step(start, scene, place)
}

/// A valid scene with no effects yet is a group in the making.
pub proof fn lemma_staged_start(start: SceneView, place: int)
    requires
        start.valid(),
    ensures
        staged(start, start, Seq::empty(), place),
{
}

/// Carries `command` out on `scene` and adds it to `group`, unless it is
/// idle.
pub(crate) fn emit(
    scene: &mut Scene,
    group: &mut Vec<Command>,
    command: Command,
    Ghost(start): Ghost<SceneView>,
    Ghost(place): Ghost<int>,
)
    requires
        old(scene).wf(),
        staged(start, old(scene)@, effects_of(old(group)@), place),
        command@.fits(old(scene)@),
        command@.safe(old(scene)@, place),
    ensures
        final(scene).wf(),
        staged(start, final(scene)@, effects_of(final(group)@), place),
        final(scene)@ == command@.apply(old(scene)@),
        effects_of(final(group)@) == effects_of(old(group)@) + kept(command@),
{
    proof {
        lemma_safe_step(scene@, command@, place);
        lemma_apply_all_concat(start, effects_of(group@), kept(command@));
        lemma_kept(scene@, command@);
    }
    if command.is_idle() {
        assert(effects_of(group@) + kept(command@) =~= effects_of(group@));
    } else {
        scene.apply(&command);
        group.push(command);
        assert(effects_of(group@) =~= effects_of(old(group)@) + kept(command@));
    }
}

/// Below an index that the palette does not use there is a least one.
proof fn lemma_least_unused(s: SceneView, j: usize)
    requires
        !s.colors.contains_key(j),
    ensures
        exists|k: usize| is_fresh(s, k),
    decreases j,
{
    if forall|i: usize| i < j ==> s.colors.contains_key(i) {
        assert(is_fresh(s, j));
    } else {
        let i = choose|i: usize| i < j && !s.colors.contains_key(i);
        lemma_least_unused(s, i);
    }
}

/// A palette that does not hold every index has a least unused index.
pub proof fn lemma_fresh_exists(s: SceneView)
    requires
        s.colors.dom().finite(),
        s.colors.dom().len() <= usize::MAX,
    ensures
        is_fresh(s, fresh_index(s)),
{
    let n = s.colors.dom().len();
    if forall|j: usize| j < n + 1 ==> s.colors.dom().contains(j) {
        crate::model::lemma_initial_segment_len(s.colors.dom(), n + 1);
    }
    let j = choose|j: usize| j < n + 1 && !s.colors.dom().contains(j);
    lemma_least_unused(s, j);
}

/// Having a colour in the palette: the effects of [`ensure_color`] record
/// what they replace, keep a valid scene valid, add at most one entry and
/// change no other, and leave the colour under the index that
/// [`index_after`] names.
pub proof fn lemma_ensure_color(s: SceneView, color: Color)
    requires
        s.valid(),
        s.colors.dom().len() <= usize::MAX,
    ensures
        fit_all(s, ensure_color(s, color)),
        apply_all(s, ensure_color(s, color)).valid(),
        apply_all(s, ensure_color(s, color)) == (SceneView {
            colors: apply_all(s, ensure_color(s, color)).colors,
            ..s
        }),
        s.colors.submap_of(apply_all(s, ensure_color(s, color)).colors),
        apply_all(s, ensure_color(s, color)).colors.dom().len() <= s.colors.dom().len() + 1,
        lookup(apply_all(s, ensure_color(s, color)).colors, index_after(s, color).0) == Some(
            color,
        ),
{
    if has_color(s, color) {
        let i = color_index(s, color);
        assert(s.colors.contains_key(i) && s.colors[i] == color);
    } else {
        lemma_fresh_exists(s);
        let k = fresh_index(s);
        let e = Effect::SetColor { index: ColorIndex(k), previous: None, color: Some(color) };
        lemma_apply_all_one(s, e);
        lemma_safe_step(s, e, 0);
        assert(e.apply(s).colors.dom() =~= s.colors.dom().insert(k));
    }
}

/// What is logged to have `color` in the palette: nothing where it is
/// there, else its entry under the least unused index.
pub open spec fn ensure_color(s: SceneView, color: Color) -> Seq<Effect> {
    if has_color(s, color) {
        Seq::empty()
    } else {
        seq![
            Effect::SetColor {
                index: ColorIndex(fresh_index(s)),
                previous: None,
                color: Some(color),
            },
        ]
    }
}

/// The index that `color` has once [`ensure_color`] is carried out.
pub open spec fn index_after(s: SceneView, color: Color) -> ColorIndex {
    if has_color(s, color) {
        ColorIndex(color_index(s, color))
    } else {
        ColorIndex(fresh_index(s))
    }
}

/// Adds `color` to the palette unless it is there, and returns its index.
pub(crate) fn stage_color(
    scene: &mut Scene,
    group: &mut Vec<Command>,
    color: Color,
    Ghost(start): Ghost<SceneView>,
    Ghost(place): Ghost<int>,
) -> (index: ColorIndex)
    requires
        old(scene).wf(),
        staged(start, old(scene)@, effects_of(old(group)@), place),
    ensures
        final(scene).wf(),
        staged(start, final(scene)@, effects_of(final(group)@), place),
        final(scene)@ == apply_all(old(scene)@, ensure_color(old(scene)@, color)),
        effects_of(final(group)@) == effects_of(old(group)@) + ensure_color(old(scene)@, color),
        index == index_after(old(scene)@, color),
        final(scene)@.colors.contains_key(index.0),
        final(scene)@.pixels == old(scene)@.pixels,
        final(scene)@.selected == old(scene)@.selected,
{
    let ghost s = scene@;
    match scene.palette().index_of(color) {
        Some(index) => {
            proof {
                assert(has_color(s, color));
                let i = color_index(s, color);
                assert(s.colors.contains_key(i) && s.colors[i] == color);
                assert(effects_of(group@) + ensure_color(s, color) =~= effects_of(group@));
            }
            index
        },
        None => {
            let index = scene.palette().fresh_index();
            proof {
                assert(!has_color(s, color));
                assert(is_fresh(s, index.0));
                let k = fresh_index(s);
                assert(is_fresh(s, k));
                assert(k == index.0);
            }
            let command = Command::SetColor { index, previous: None, color: Some(color) };
            proof {
                lemma_apply_all_one(s, command@);
            }
            emit(scene, group, command, Ghost(start), Ghost(place));
            index
        },
    }
}

} // verus!
