//! The editor's state, and what each editing intent does to it: the
//! effects that it gives rise to and the state that it leaves.
//!
//! Three choices shape the engine. A pixel that is set to what it holds
//! already gives rise to no effect, and a drawing intent of which no effect
//! is left logs no group; every other effect is logged also where it
//! changes nothing, so that a selection or a move is always on record.
//! Tags, anchors, frames, the palette, the camera and the clock
//! are changed by effects like the canvas is, so that undo takes those
//! changes back too. And checkout rewinds: it takes groups back until the
//! group that set the tag is the last one carried out, and keeps the
//! later groups in the log, where redo finds them until a new group
//! discards them.

use crate::canvas::{painted, Canvas};
use crate::clock::Ticks;
use crate::command::{CenterPoint, Checkout, MoveDestination, PlayCommand, RemoveTarget};
use crate::engine::{
    lemma_commit, lemma_initial_inv, lemma_redone, lemma_scene_valid, lemma_tag_version,
    lemma_undone, ModelView,
};
use crate::failure::Failure;
use crate::frame::{Frame, FrameView};
use crate::marker::{bounding_box, countable, Marker, MarkerView};
use crate::model::{Color, ColorIndex, Command, PixelPosition, PixelPositionDelta};
use crate::scene::{
    apply_all, effects_of, fit_all, inverses, kept, lemma_apply_all_concat, lemma_apply_all_one,
    lemma_kept, lookup, record, record_each, Effect, Scene, SceneView,
};
use crate::stage::{emit, ensure_color, index_after, lemma_staged_start, stage_color, staged};
use crate::text::sorted;
use crate::transform::{
    bounds_of, image, images, lemma_region_in_bounds, repaint, turn_effects, turned, Bounds, Turn,
};
use vstd::prelude::*;

verus! {

/// The overlay pixels of those of the frames named by `names` whose window
/// holds `clock`, frame by frame.
pub open spec fn overlay_of(
    frames: Map<Seq<char>, FrameView>,
    names: Seq<Seq<char>>,
    clock: Ticks,
) -> Seq<(PixelPosition, Color)>
    decreases names.len(),
{
    if names.len() == 0 {
        Seq::empty()
    } else {
        let head = overlay_of(frames, names.drop_last(), clock);
        let frame = frames[names.last()];
        if frame.active_at(clock) {
            head + frame.pixels
        } else {
            head
        }
    }
}

/// Whether `command` reads the pixels that the marking covers: drawing,
/// erasing, cutting, copying, mirroring and turning do.
pub open spec fn reads_marking(command: crate::command::Command) -> bool {
    command is Draw || command is Erase || command is Cut || command is Copy || command is Flip
        || command is Rotate
}

/// The zoom that a change by `delta` gives: never below 1, nor above what
/// 8 bits hold.
pub open spec fn scaled(scale: u8, delta: i8) -> u8 {
    if scale + delta < 1 {
        1
    } else if scale + delta > u8::MAX {
        u8::MAX
    } else {
        (scale + delta) as u8
    }
}

/// The effect that sets the pixel at `p` to `color`, where the scene is `s`.
pub open spec fn dot_effect(s: SceneView, p: PixelPosition, color: Option<ColorIndex>) -> Effect {
    Effect::Dot { position: p, previous: lookup(s.pixels, p), color }
}

/// The effects that set each of `positions` to `color`, one for each
/// position that changes.
pub open spec fn paint(s: SceneView, positions: Seq<PixelPosition>, color: Option<ColorIndex>) -> Seq<
    Effect,
>
    decreases positions.len(),
{
    if positions.len() == 0 {
        Seq::empty()
    } else {
        let head = paint(s, positions.drop_last(), color);
        head + kept(dot_effect(apply_all(s, head), positions.last(), color))
    }
}

/// The canvas in which each of `positions` holds `color`, or nothing where
/// `color` is `None`, and every other position holds what `pixels` holds.
pub open spec fn painted_over(
    pixels: Map<PixelPosition, ColorIndex>,
    positions: Seq<PixelPosition>,
    color: Option<ColorIndex>,
) -> Map<PixelPosition, ColorIndex> {
    Map::new(
        |p: PixelPosition|
            if positions.contains(p) {
                color is Some
            } else {
                pixels.contains_key(p)
            },
        |p: PixelPosition|
            if positions.contains(p) {
                color->0
            } else {
                pixels[p]
            },
    )
}

/// Painting sets every position to the colour and leaves all else as it
/// is: the effects of [`paint`] record what they replace, and carried out
/// they change the canvas to [`painted_over`] and nothing besides.
pub proof fn lemma_paint_result(s: SceneView, positions: Seq<PixelPosition>, color: Option<ColorIndex>)
    ensures
        fit_all(s, paint(s, positions, color)),
        apply_all(s, paint(s, positions, color)) == (SceneView {
            pixels: painted_over(s.pixels, positions, color),
            ..s
        }),
    decreases positions.len(),
{
    let all = paint(s, positions, color);
    if positions.len() == 0 {
        assert(painted_over(s.pixels, positions, color) =~= s.pixels);
    } else {
        let front = positions.drop_last();
        let p = positions.last();
        let head = paint(s, front, color);
        let mid = apply_all(s, head);
        let e = dot_effect(mid, p, color);
        lemma_paint_result(s, front, color);
        lemma_apply_all_concat(s, head, kept(e));
        lemma_kept(mid, e);
        let end = apply_all(s, all);
        assert forall|q: PixelPosition| positions.contains(q) <==> front.contains(q) || q == p by {
            if positions.contains(q) {
                let i = choose|i: int| 0 <= i < positions.len() && positions[i] == q;
                if i < front.len() {
                    assert(front[i] == q);
                }
            }
            if front.contains(q) {
                let i = choose|i: int| 0 <= i < front.len() && front[i] == q;
                assert(positions[i] == q);
            }
            if q == p {
                assert(positions[positions.len() - 1] == q);
            }
        }
        assert(end.pixels =~= painted_over(s.pixels, positions, color));
    }
}

/// The effects that make `color` the drawing colour: its entry in the
/// palette if it is new, then its selection.
pub open spec fn dip(s: SceneView, color: Color) -> Seq<Effect> {
    ensure_color(s, color) + kept(
        Effect::SelectColor { index: index_after(s, color), previous: s.selected },
    )
}

/// The effects that paint `p` with the concrete colour `color`.
pub open spec fn place_pixel(s: SceneView, p: PixelPosition, color: Color) -> Seq<Effect> {
    ensure_color(s, color) + kept(
        Effect::Dot {
            position: p,
            previous: lookup(s.pixels, p),
            color: Some(index_after(s, color)),
        },
    )
}

/// The effects that paint each pixel of `list`, in order.
pub open spec fn import(s: SceneView, list: Seq<(PixelPosition, Color)>) -> Seq<Effect>
    decreases list.len(),
{
    if list.len() == 0 {
        Seq::empty()
    } else {
        let head = import(s, list.drop_last());
        head + place_pixel(apply_all(s, head), list.last().0, list.last().1)
    }
}

/// The colour that shows at `p`: that of the palette entry whose index
/// the pixel holds.
pub open spec fn shown(s: SceneView, p: PixelPosition) -> Option<Color> {
    match lookup(s.pixels, p) {
        Some(index) => lookup(s.colors, index.0),
        None => None,
    }
}

/// The colour that `list` gives to `p`: that of its last entry for `p`.
pub open spec fn imported(list: Seq<(PixelPosition, Color)>, p: PixelPosition) -> Option<Color>
    decreases list.len(),
{
    if list.len() == 0 {
        None
    } else if list.last().0 == p {
        Some(list.last().1)
    } else {
        imported(list.drop_last(), p)
    }
}

/// Making a colour the drawing colour leaves it selected: the effects of
/// [`dip`] record what they replace, keep the scene valid, change the
/// palette and the selection at most, and leave `color` as the colour
/// that drawing uses.
pub proof fn lemma_dip_result(s: SceneView, color: Color)
    requires
        s.valid(),
        s.colors.dom().len() <= usize::MAX,
    ensures
        fit_all(s, dip(s, color)),
        apply_all(s, dip(s, color)).valid(),
        apply_all(s, dip(s, color)) == (SceneView {
            colors: apply_all(s, dip(s, color)).colors,
            selected: apply_all(s, dip(s, color)).selected,
            ..s
        }),
        s.colors.submap_of(apply_all(s, dip(s, color)).colors),
        lookup(apply_all(s, dip(s, color)).colors, apply_all(s, dip(s, color)).selected.0) == Some(
            color,
        ),
{
    let mid = apply_all(s, ensure_color(s, color));
    let e = Effect::SelectColor { index: index_after(s, color), previous: s.selected };
    crate::stage::lemma_ensure_color(s, color);
    lemma_apply_all_concat(s, ensure_color(s, color), kept(e));
    lemma_kept(mid, e);
    crate::stage::lemma_safe_step(mid, e, 0);
}

/// Importing shows each listed pixel in its colour: the effects of
/// [`import`] record what they replace and keep the scene valid; carried
/// out, every position of the list shows the colour of its last entry,
/// every other position shows what it showed, the palette keeps its
/// entries, and nothing but canvas and palette changes.
pub proof fn lemma_import_result(s: SceneView, list: Seq<(PixelPosition, Color)>)
    requires
        s.valid(),
        s.colors.dom().len() + list.len() <= usize::MAX,
    ensures
        fit_all(s, import(s, list)),
        apply_all(s, import(s, list)).valid(),
        apply_all(s, import(s, list)) == (SceneView {
            colors: apply_all(s, import(s, list)).colors,
            pixels: apply_all(s, import(s, list)).pixels,
            ..s
        }),
        s.colors.submap_of(apply_all(s, import(s, list)).colors),
        apply_all(s, import(s, list)).colors.dom().len() <= s.colors.dom().len() + list.len(),
        forall|p: PixelPosition|
            shown(apply_all(s, import(s, list)), p) == (match imported(list, p) {
                Some(color) => Some(color),
                None => shown(s, p),
            }),
    decreases list.len(),
{
    if list.len() > 0 {
        let front = list.drop_last();
        let (at, color) = list.last();
        let head = import(s, front);
        let mid = apply_all(s, head);
        lemma_import_result(s, front);
        let more = ensure_color(mid, color);
        let has = apply_all(mid, more);
        let index = index_after(mid, color);
        let e = Effect::Dot { position: at, previous: lookup(mid.pixels, at), color: Some(index) };
        crate::stage::lemma_ensure_color(mid, color);
        lemma_apply_all_concat(mid, more, kept(e));
        lemma_kept(has, e);
        crate::stage::lemma_safe_step(has, e, 0);
        lemma_apply_all_concat(s, head, place_pixel(mid, at, color));
        let end = apply_all(s, import(s, list));
        assert(end == e.apply(has));
        assert forall|p: PixelPosition|
            shown(end, p) == (match imported(list, p) {
                Some(c) => Some(c),
                None => shown(s, p),
            }) by {
            assert(shown(mid, p) == (match imported(front, p) {
                Some(c) => Some(c),
                None => shown(s, p),
            }));
            assert(has.pixels == mid.pixels);
            assert(end.colors == has.colors);
            if p != at {
                assert(lookup(end.pixels, p) == lookup(mid.pixels, p));
                assert(imported(list, p) == imported(front, p));
                if mid.pixels.contains_key(p) {
                    let i = mid.pixels[p].0;
                    assert(mid.colors.contains_key(i));
                    assert(has.colors.contains_key(i) && has.colors[i] == mid.colors[i]);
                }
            } else {
                assert(lookup(end.pixels, p) == Some(index));
                assert(imported(list, p) == Some(color));
            }
        }
        assert forall|k: usize| #[trigger] s.colors.dom().contains(k) implies end.colors.dom().contains(
            k,
        ) && end.colors[k] == s.colors[k] by {
            assert(mid.colors.dom().contains(k) && mid.colors[k] == s.colors[k]);
            assert(has.colors.dom().contains(k) && has.colors[k] == mid.colors[k]);
        }
        assert(s.colors.submap_of(end.colors));
    }
}

/// Those of `positions` that are painted, each with its colour.
pub open spec fn snapshot(s: SceneView, positions: Seq<PixelPosition>) -> Seq<
    (PixelPosition, Color),
>
    decreases positions.len(),
{
    if positions.len() == 0 {
        Seq::empty()
    } else {
        let head = snapshot(s, positions.drop_last());
        match lookup(s.pixels, positions.last()) {
            Some(index) => head.push((positions.last(), s.colors[index.0])),
            None => head,
        }
    }
}

impl ModelView {
    /// The pixels that drawing and erasing act on: those that the marking
    /// covers, or the pixel under the cursor where there is no marking.
    pub open spec fn targets(self) -> Seq<PixelPosition> {
        match self.marker {
            Some(m) => m.covered(),
            None => seq![self.scene.cursor],
        }
    }

    /// Whether the region that the marking scans can be counted.
    pub open spec fn countable(self) -> bool {
        match self.marker {
            Some(m) => countable(m.kind, m.path),
            None => true,
        }
    }

    /// The state after the cursor went to `to`: a marking session visits
    /// the new position.
    pub open spec fn cursor_moved(self, to: PixelPosition) -> ModelView {
        ModelView {
            marker: match self.marker {
                Some(m) => Some(m.extended(to)),
                None => None,
            },
            ..self.committed(kept(Effect::Move { from: self.scene.cursor, to }))
        }
    }

    /// The pixels that mirroring and turning act on: those that the
    /// marking covers, or every painted pixel where there is no marking.
    pub open spec fn region(self) -> Seq<PixelPosition> {
        match self.marker {
            Some(m) => m.covered(),
            None => painted(self.scene.pixels),
        }
    }

    /// The effects that the intent `command` gives rise to in this state,
    /// in the order in which they are carried out, or the failure with
    /// which the intent is refused. Intents that act on the marking, the
    /// clipboard or the log pointer alone give rise to no effect.
    pub open spec fn translated(self, command: crate::command::Command) -> Result<
        Seq<Effect>,
        Failure,
    > {
        let s = self.scene;
        match command {
            crate::command::Command::Move(MoveDestination::Delta(delta)) => Ok(
                kept(Effect::Move { from: s.cursor, to: s.cursor.shifted(delta) }),
            ),
            crate::command::Command::Move(MoveDestination::Anchor(name)) => {
                if s.anchors.contains_key(name.anchor@) {
                    Ok(kept(Effect::Move { from: s.cursor, to: s.anchors[name.anchor@] }))
                } else {
                    Err(Failure::UnknownAnchor)
                }
            },
            crate::command::Command::Mark(kind) => {
                if self.marker is Some {
                    Err(Failure::MarkerAlreadyActive)
                } else {
                    Ok(Seq::empty())
                }
            },
            crate::command::Command::Dip(color) => Ok(dip(s, color)),
            crate::command::Command::Color(color) => Ok(dip(s, color)),
            crate::command::Command::Pick => match lookup(s.pixels, s.cursor) {
                Some(index) => Ok(kept(Effect::SelectColor { index, previous: s.selected })),
                None => Err(Failure::InvalidColorIndex),
            },
            crate::command::Command::Cut => match self.marker {
                Some(m) => Ok(paint(s, m.covered(), None)),
                None => Err(Failure::NoActiveMarker),
            },
            crate::command::Command::Copy => match self.marker {
                Some(m) => Ok(Seq::empty()),
                None => Err(Failure::NoActiveMarker),
            },
            crate::command::Command::Cancel => Ok(Seq::empty()),
            crate::command::Command::Erase => Ok(paint(s, self.targets(), None)),
            crate::command::Command::Draw => Ok(paint(s, self.targets(), Some(s.selected))),
            crate::command::Command::Undo => Ok(Seq::empty()),
            crate::command::Command::Redo => Ok(Seq::empty()),
            crate::command::Command::Quit => Ok(Seq::empty()),
            crate::command::Command::Scale(delta) => Ok(
                kept(Effect::SetScale { previous: s.scale, scale: scaled(s.scale, delta) }),
            ),
            crate::command::Command::Center(CenterPoint::Cursor) => Ok(
                kept(Effect::MoveCamera { from: s.camera, to: s.cursor }),
            ),
            crate::command::Command::Center(CenterPoint::Anchor(name)) => {
                if s.anchors.contains_key(name@) {
                    Ok(kept(Effect::MoveCamera { from: s.camera, to: s.anchors[name@] }))
                } else {
                    Err(Failure::UnknownAnchor)
                }
            },
            crate::command::Command::Anchor(name) => Ok(
                kept(
                    Effect::SetAnchor {
                        name: name@,
                        previous: lookup(s.anchors, name@),
                        position: Some(s.cursor),
                    },
                ),
            ),
            crate::command::Command::Tag(name) => Ok(
                kept(
                    Effect::SetTag {
                        name: name@,
                        previous: lookup(s.tags, name@),
                        version: Some(self.pointer as usize),
                    },
                ),
            ),
            crate::command::Command::BackgroundColor(color) => Ok(
                kept(Effect::SetBackground { previous: s.background, color }),
            ),
            crate::command::Command::Checkout(Checkout::Tag(name)) => {
                if s.tags.contains_key(name@) {
                    Ok(Seq::empty())
                } else {
                    Err(Failure::UnknownTag)
                }
            },
            crate::command::Command::Import(list) => Ok(import(s, list@)),
            crate::command::Command::Embed(frame) => Ok(
                kept(
                    Effect::SetFrame {
                        name: frame@.name,
                        previous: lookup(s.frames, frame@.name),
                        frame: Some(frame@),
                    },
                ),
            ),
            crate::command::Command::Tick(delta) => Ok(
                kept(
                    Effect::SetClock { previous: s.clock, clock: s.clock.advanced(delta as int) },
                ),
            ),
            crate::command::Command::Play(play) => Ok(
                kept(Effect::SetClock { previous: s.clock, clock: play.offset }),
            ),
            crate::command::Command::Remove(target) => match self.removal(target) {
                Some(effect) => Ok(kept(effect)),
                None => Err(Failure::UnknownTarget),
            },
            crate::command::Command::Flip(direction) => Ok(
                turn_effects(s, Turn::Flip(direction), self.region()),
            ),
            crate::command::Command::Rotate => Ok(turn_effects(s, Turn::Rotate, self.region())),
            crate::command::Command::ExternalCommand(_) => Ok(Seq::empty()),
        }
    }

    /// What becomes of the marking, the clipboard, the playback and the
    /// end of the session when `command`, which is not refused, is carried
    /// out: `self` is the state before the intent, `after` the state in
    /// which its effects are logged.
    pub open spec fn settled(self, command: crate::command::Command, after: ModelView) -> ModelView {
        match command {
            crate::command::Command::Move(_) => ModelView {
                marker: match self.marker {
                    Some(m) => Some(m.extended(after.scene.cursor)),
                    None => None,
                },
                ..after
            },
            crate::command::Command::Mark(kind) => ModelView {
                marker: Some(MarkerView { kind, path: seq![self.scene.cursor] }),
                ..after
            },
            crate::command::Command::Cut => ModelView {
                marker: None,
                clipboard: snapshot(self.scene, self.targets()),
                ..after
            },
            crate::command::Command::Copy => ModelView {
                marker: None,
                clipboard: snapshot(self.scene, self.targets()),
                ..after
            },
            crate::command::Command::Cancel => ModelView { marker: None, ..after },
            crate::command::Command::Quit => ModelView { quit: true, ..after },
            crate::command::Command::Play(play) => ModelView { playback: Some(play), ..after },
            _ => after,
        }
    }

    /// The state that the intent `command` leaves, or the failure with
    /// which it is refused. A refused intent changes nothing. Undo, redo
    /// and checkout move the log pointer; every other intent logs its
    /// effects as one group, if there are any, and so discards what could
    /// be carried out again.
    pub open spec fn step(self, command: crate::command::Command) -> Result<ModelView, Failure> {
        match self.translated(command) {
            Err(failure) => Err(failure),
            Ok(group) => match command {
                crate::command::Command::Undo => Ok(self.undone()),
                crate::command::Command::Redo => Ok(self.redone()),
                crate::command::Command::Checkout(Checkout::Tag(name)) => Ok(
                    self.checked_out(name@),
                ),
                _ => Ok(self.settled(command, self.committed(group))),
            },
        }
    }

    /// The state after playback went on by one tick. Where the clock
    /// reaches the end of the window, playback starts over at its offset
    /// if it repeats, and stops if it does not. Nothing changes where no
    /// playback is in progress.
    pub open spec fn played(self) -> ModelView {
        match self.playback {
            None => self,
            Some(play) => {
                let next = self.scene.clock.advanced(1);
                if next.0 < play.end() {
                    self.committed(
                        kept(Effect::SetClock { previous: self.scene.clock, clock: next }),
                    )
                } else if play.repeat {
                    self.committed(
                        kept(Effect::SetClock { previous: self.scene.clock, clock: play.offset }),
                    )
                } else {
                    ModelView {
                        playback: None,
                        ..self.committed(
                            kept(Effect::SetClock { previous: self.scene.clock, clock: next }),
                        )
                    }
                }
            },
        }
    }

    /// The overlay pixels of the frames whose window holds the clock:
    /// frame by frame in the order of the frames' names, each frame's
    /// pixels in their order. Where pixels coincide, the later one is
    /// drawn over the earlier.
    pub open spec fn overlay(self) -> Seq<(PixelPosition, Color)> {
        overlay_of(self.scene.frames, sorted(self.scene.frames.dom()), self.scene.clock)
    }

    /// The effect that removes what `target` names, if it is there.
    pub open spec fn removal(self, target: RemoveTarget) -> Option<Effect> {
        match target {
            RemoveTarget::Tag(name) => if self.scene.tags.contains_key(name@) {
                Some(
                    Effect::SetTag {
                        name: name@,
                        previous: Some(self.scene.tags[name@]),
                        version: None,
                    },
                )
            } else {
                None
            },
            RemoveTarget::Anchor(name) => if self.scene.anchors.contains_key(name@) {
                Some(
                    Effect::SetAnchor {
                        name: name@,
                        previous: Some(self.scene.anchors[name@]),
                        position: None,
                    },
                )
            } else {
                None
            },
            RemoveTarget::Frame(name) => if self.scene.frames.contains_key(name@) {
                Some(
                    Effect::SetFrame {
                        name: name@,
                        previous: Some(self.scene.frames[name@]),
                        frame: None,
                    },
                )
            } else {
                None
            },
        }
    }
}

/// The editor's state: the scene, the effect log that gave it, and what
/// is transient around them.
pub struct Model {
    pub(crate) scene: Scene,
    pub(crate) groups: Vec<Vec<Command>>,
    pub(crate) pointer: usize,
    pub(crate) marker: Option<Marker>,
    pub(crate) clipboard: Vec<(PixelPosition, Color)>,
    pub(crate) playback: Option<PlayCommand>,
    pub(crate) quit: bool,
    pub(crate) applied_commands: Vec<Command>,
    pub(crate) recorded: Ghost<Seq<Effect>>,
}

/// The view of a marking session that may be absent.
pub open spec fn marker_view(marker: Option<Marker>) -> Option<MarkerView> {
    match marker {
        Some(m) => Some(m@),
        None => None,
    }
}

/// The groups of effects that a log of commands stands for.
pub open spec fn groups_of(groups: Seq<Vec<Command>>) -> Seq<Seq<Effect>> {
    Seq::new(groups.len(), |i: int| effects_of(groups[i]@))
}

impl View for Model {
    type V = ModelView;

    closed spec fn view(&self) -> ModelView {
        ModelView {
            scene: self.scene@,
            groups: groups_of(self.groups@),
            pointer: self.pointer as int,
            marker: marker_view(self.marker),
            clipboard: self.clipboard@,
            playback: self.playback,
            quit: self.quit,
            pending: effects_of(self.applied_commands@),
            recorded: self.recorded@,
        }
    }
}

impl Model {
    /// The directories of the scene are in order and the engine's invariant
    /// holds.
    pub closed spec fn wf(&self) -> bool {
        &&& self.scene.wf()
        &&& self@.inv()
    }

    /// A well-formed model satisfies the engine's invariant, and its scene
    /// is valid.
    pub proof fn lemma_wf(&self)
        requires
            self.wf(),
        ensures
            self@.inv(),
            self@.scene.valid(),
    {
        lemma_scene_valid(self@);
    }

    /// A new session.
    pub fn new() -> (m: Self)
        ensures
            m.wf(),
            m@ == ModelView::initial(),
    {
        let m = Model {
            scene: Scene::new(),
            groups: Vec::new(),
            pointer: 0,
            marker: None,
            clipboard: Vec::new(),
            playback: None,
            quit: false,
            applied_commands: Vec::new(),
            recorded: Ghost(Seq::empty()),
        };
        proof {
            lemma_initial_inv();
            assert(m@.groups =~= Seq::<Seq<Effect>>::empty());
            assert(m@.pending =~= Seq::<Effect>::empty());
        }
        m
    }

    /// Logs `group`, whose effects were carried out on the scene already,
    /// and discards what could be carried out again before.
    pub(crate) fn commit(&mut self, group: Vec<Command>, Ghost(before): Ghost<ModelView>)
        requires
            old(self).scene.wf(),
            before.inv(),
            effects_of(group@).len() > 0 ==> before.admits(effects_of(group@)),
            old(self)@ == (ModelView {
                scene: apply_all(before.scene, effects_of(group@)),
                ..before
            }),
        ensures
            final(self).wf(),
            final(self)@ == before.committed(effects_of(group@)),
    {
        let ghost effects = effects_of(group@);
        if group.len() == 0 {
            assert(effects =~= Seq::<Effect>::empty());
            return ;
        }
        proof {
            lemma_commit(before, effects);
        }
        self.groups.truncate(self.pointer);
        assert(self.groups@ =~= old(self).groups@.take(old(self).pointer as int));
        record_each(&mut self.applied_commands, &group);
        self.groups.push(group);
        self.pointer = self.groups.len();
        proof {
            let after = before.committed(effects);
            assert(self@.groups =~= after.groups);
            assert(self@.pending == after.pending);
            assert(self@.scene == after.scene);
            assert(self@ == after);
        }
    }

    /// Takes back the latest group, if there is one.
    pub fn undo(&mut self)
        requires
            old(self).wf(),
        ensures
            final(self).wf(),
            final(self)@ == old(self)@.undone(),
    {
        if self.pointer == 0 {
            return ;
        }
        proof {
            lemma_undone(self@);
        }
        let ghost back = inverses(self@.groups[self.pointer - 1]);
        let n = self.groups[self.pointer - 1].len();
        let mut i: usize = 0;
        while i < n
            invariant
                i <= n,
                n == self.groups@[self.pointer - 1]@.len(),
                0 < self.pointer <= self.groups@.len(),
                back == inverses(effects_of(self.groups@[self.pointer - 1]@)),
                self.scene.wf(),
                self.scene@ == apply_all(old(self).scene@, back.take(i as int)),
                effects_of(self.applied_commands@) == old(self)@.pending + back.take(i as int),
                self.groups == old(self).groups,
                self.pointer == old(self).pointer,
                self.marker == old(self).marker,
                self.clipboard == old(self).clipboard,
                self.playback == old(self).playback,
                self.quit == old(self).quit,
                self.recorded == old(self).recorded,
            decreases n - i,
        {
            let c = self.groups[self.pointer - 1][n - 1 - i].inverse();
            self.scene.apply(&c);
            proof {
                assert(back[i as int] == c@);
                assert(back.take(i + 1).drop_last() =~= back.take(i as int));
                assert(back.take(i + 1).last() == c@);
                assert((old(self)@.pending + back.take(i as int)).push(c@) =~= old(self)@.pending
                    + back.take(i + 1));
            }
            record(&mut self.applied_commands, c);
            i = i + 1;
        }
        assert(back.take(n as int) =~= back);
        self.pointer = self.pointer - 1;
    }

    /// Carries out again the group that was taken back last, if there is
    /// one.
    pub fn redo(&mut self)
        requires
            old(self).wf(),
        ensures
            final(self).wf(),
            final(self)@ == old(self)@.redone(),
    {
        if self.pointer >= self.groups.len() {
            return ;
        }
        proof {
            lemma_redone(self@);
        }
        let ghost again = self@.groups[self.pointer as int];
        let n = self.groups[self.pointer].len();
        let mut i: usize = 0;
        while i < n
            invariant
                i <= n,
                n == self.groups@[self.pointer as int]@.len(),
                self.pointer < self.groups@.len(),
                again == effects_of(self.groups@[self.pointer as int]@),
                self.scene.wf(),
                self.scene@ == apply_all(old(self).scene@, again.take(i as int)),
                effects_of(self.applied_commands@) == old(self)@.pending + again.take(i as int),
                self.groups == old(self).groups,
                self.pointer == old(self).pointer,
                self.marker == old(self).marker,
                self.clipboard == old(self).clipboard,
                self.playback == old(self).playback,
                self.quit == old(self).quit,
                self.recorded == old(self).recorded,
            decreases n - i,
        {
            let c = self.groups[self.pointer][i].copy();
            self.scene.apply(&c);
            proof {
                assert(again[i as int] == c@);
                assert(again.take(i + 1).drop_last() =~= again.take(i as int));
                assert(again.take(i + 1).last() == c@);
                assert((old(self)@.pending + again.take(i as int)).push(c@) =~= old(
                    self,
                )@.pending + again.take(i + 1));
            }
            record(&mut self.applied_commands, c);
            i = i + 1;
        }
        assert(again.take(n as int) =~= again);
        self.pointer = self.pointer + 1;
    }

    /// Takes groups back until the pointer stands at `version`.
    pub(crate) fn rewind(&mut self, version: usize)
        requires
            old(self).wf(),
        ensures
            final(self).wf(),
            final(self)@ == old(self)@.rewound(version as int),
    {
        while self.pointer > version
            invariant
                self.wf(),
                self@.rewound(version as int) == old(self)@.rewound(version as int),
            decreases self.pointer,
        {
            self.undo();
        }
    }

    /// Hands out the effects that were carried out since this was last
    /// called, in order. The effects handed out from the start of the
    /// session, applied in order to the scene of a new session, give the
    /// live scene.
    pub fn take_applied_commands(&mut self) -> (commands: Vec<Command>)
        requires
            old(self).wf(),
        ensures
            final(self).wf(),
            effects_of(commands@) == old(self)@.pending,
            final(self)@ == (ModelView {
                pending: Seq::empty(),
                recorded: old(self)@.recorded + old(self)@.pending,
                ..old(self)@
            }),
            final(self)@.scene == apply_all(SceneView::initial(), final(self)@.recorded),
    {
        let mut commands: Vec<Command> = Vec::new();
        std::mem::swap(&mut commands, &mut self.applied_commands);
        proof {
            self.recorded@ = self.recorded@ + effects_of(commands@);
            assert(effects_of(self.applied_commands@) =~= Seq::<Effect>::empty());
            assert(self@.recorded + self@.pending =~= old(self)@.recorded + old(self)@.pending);
        }
        commands
    }
}

impl Default for Model {
    fn default() -> (m: Self)
        ensures
            m.wf(),
            m@ == ModelView::initial(),
    {
        Model::new()
    }
}

impl Model {
    /// Moves the cursor to `to`.
    pub(crate) fn move_cursor_to(&mut self, to: PixelPosition)
        requires
            old(self).wf(),
        ensures
            final(self).wf(),
            final(self)@ == old(self)@.cursor_moved(to),
    {
        let ghost before = self@;
        let mut group: Vec<Command> = Vec::new();
        proof {
            lemma_scene_valid(before);
            lemma_staged_start(before.scene, before.pointer);
        }
        let command = Command::Move { from: self.scene.cursor().position, to };
        emit(&mut self.scene, &mut group, command, Ghost(before.scene), Ghost(before.pointer));
        match &mut self.marker {
            Some(m) => {
                m.extend(to);
            },
            None => {},
        }
        self.commit(group, Ghost(ModelView { marker: self@.marker, ..before }));
    }

    /// Carries out and logs the one effect of `command`, unless it is idle.
    pub(crate) fn commit_one(&mut self, command: Command)
        requires
            old(self).wf(),
            command@.fits(old(self)@.scene),
            command@.safe(old(self)@.scene, old(self)@.pointer),
        ensures
            final(self).wf(),
            final(self)@ == old(self)@.committed(kept(command@)),
    {
        let ghost before = self@;
        let mut group: Vec<Command> = Vec::new();
        proof {
            lemma_scene_valid(before);
            lemma_staged_start(before.scene, before.pointer);
        }
        emit(&mut self.scene, &mut group, command, Ghost(before.scene), Ghost(before.pointer));
        self.commit(group, Ghost(before));
    }

    /// Makes `color` the drawing colour.
    pub(crate) fn dip(&mut self, color: Color)
        requires
            old(self).wf(),
        ensures
            final(self).wf(),
            final(self)@ == old(self)@.committed(dip(old(self)@.scene, color)),
    {
        let ghost before = self@;
        let mut group: Vec<Command> = Vec::new();
        proof {
            lemma_scene_valid(before);
            lemma_staged_start(before.scene, before.pointer);
        }
        let index = stage_color(
            &mut self.scene,
            &mut group,
            color,
            Ghost(before.scene),
            Ghost(before.pointer),
        );
        let previous = self.scene.palette().selected();
        emit(
            &mut self.scene,
            &mut group,
            Command::SelectColor { index, previous },
            Ghost(before.scene),
            Ghost(before.pointer),
        );
        self.commit(group, Ghost(before));
    }

    /// Sets each of `positions` to `color`.
    pub(crate) fn paint(&mut self, positions: &Vec<PixelPosition>, color: Option<ColorIndex>)
        requires
            old(self).wf(),
            match color {
                Some(c) => old(self)@.scene.colors.contains_key(c.0),
                None => true,
            },
        ensures
            final(self).wf(),
            final(self)@ == old(self)@.committed(paint(old(self)@.scene, positions@, color)),
    {
        let ghost before = self@;
        let mut group: Vec<Command> = Vec::new();
        proof {
            lemma_scene_valid(before);
            lemma_staged_start(before.scene, before.pointer);
            assert(positions@.take(0) =~= Seq::<PixelPosition>::empty());
        }
        let mut i: usize = 0;
        while i < positions.len()
            invariant
                i <= positions@.len(),
                self.scene.wf(),
                staged(before.scene, self.scene@, effects_of(group@), before.pointer),
                effects_of(group@) == paint(before.scene, positions@.take(i as int), color),
                self.scene@.colors == before.scene.colors,
                match color {
                    Some(c) => before.scene.colors.contains_key(c.0),
                    None => true,
                },
                self@ == (ModelView { scene: self.scene@, ..before }),
            decreases positions@.len() - i,
        {
            let p = positions[i];
            let previous = self.scene.pixels().get(p);
            proof {
                assert(positions@.take(i + 1).drop_last() =~= positions@.take(i as int));
                assert(positions@.take(i + 1).last() == p);
            }
            emit(
                &mut self.scene,
                &mut group,
                Command::Dot { position: p, previous, color },
                Ghost(before.scene),
                Ghost(before.pointer),
            );
            i = i + 1;
        }
        assert(positions@.take(positions@.len() as int) =~= positions@);
        self.commit(group, Ghost(before));
    }

    /// Paints each pixel of `list` with its colour, adding to the palette
    /// the colours that are new.
    pub(crate) fn import(&mut self, list: &Vec<(PixelPosition, Color)>)
        requires
            old(self).wf(),
        ensures
            final(self).wf(),
            final(self)@ == old(self)@.committed(import(old(self)@.scene, list@)),
    {
        let ghost before = self@;
        let mut group: Vec<Command> = Vec::new();
        proof {
            lemma_scene_valid(before);
            lemma_staged_start(before.scene, before.pointer);
            assert(list@.take(0) =~= Seq::<(PixelPosition, Color)>::empty());
        }
        let mut i: usize = 0;
        while i < list.len()
            invariant
                i <= list@.len(),
                self.scene.wf(),
                staged(before.scene, self.scene@, effects_of(group@), before.pointer),
                effects_of(group@) == import(before.scene, list@.take(i as int)),
                self@ == (ModelView { scene: self.scene@, ..before }),
            decreases list@.len() - i,
        {
            let (p, color) = list[i];
            let ghost mid = self.scene@;
            let ghost head = effects_of(group@);
            proof {
                assert(list@.take(i + 1).drop_last() =~= list@.take(i as int));
                assert(list@.take(i + 1).last() == (p, color));
            }
            let index = stage_color(
                &mut self.scene,
                &mut group,
                color,
                Ghost(before.scene),
                Ghost(before.pointer),
            );
            let previous = self.scene.pixels().get(p);
            emit(
                &mut self.scene,
                &mut group,
                Command::Dot { position: p, previous, color: Some(index) },
                Ghost(before.scene),
                Ghost(before.pointer),
            );
            proof {
                assert(effects_of(group@) =~= head + place_pixel(mid, p, color));
            }
            i = i + 1;
        }
        assert(list@.take(list@.len() as int) =~= list@);
        self.commit(group, Ghost(before));
    }

    /// Those of `positions` that are painted, each with its colour.
    pub(crate) fn snapshot(&self, positions: &Vec<PixelPosition>) -> (v: Vec<(PixelPosition, Color)>)
        requires
            self.wf(),
        ensures
            v@ == snapshot(self@.scene, positions@),
    {
        proof {
            lemma_scene_valid(self@);
            assert(positions@.take(0) =~= Seq::<PixelPosition>::empty());
        }
        let mut v: Vec<(PixelPosition, Color)> = Vec::new();
        let mut i: usize = 0;
        while i < positions.len()
            invariant
                i <= positions@.len(),
                self.scene@.valid(),
                self@.scene == self.scene@,
                v@ == snapshot(self.scene@, positions@.take(i as int)),
            decreases positions@.len() - i,
        {
            let p = positions[i];
            proof {
                assert(positions@.take(i + 1).drop_last() =~= positions@.take(i as int));
                assert(positions@.take(i + 1).last() == p);
            }
            match self.scene.pixels().get(p) {
                Some(index) => {
                    assert(self.scene@.pixels.contains_key(p));
                    match self.scene.palette().get(index) {
                        Some(color) => {
                            v.push((p, color));
                        },
                        None => {},
                    }
                },
                None => {},
            }
            i = i + 1;
        }
        assert(positions@.take(positions@.len() as int) =~= positions@);
        v
    }

    /// Mirrors or turns the marked region, or the whole canvas.
    pub(crate) fn turn(&mut self, turn: Turn)
        requires
            old(self).wf(),
            old(self)@.countable(),
        ensures
            final(self).wf(),
            final(self)@ == old(self)@.committed(
                turn_effects(old(self)@.scene, turn, old(self)@.region()),
            ),
    {
        let ghost before = self@;
        let region = match &self.marker {
            Some(m) => m.marked_points(),
            None => self.scene.pixels().positions(),
        };
        if region.len() == 0 {
            return ;
        }
        let (x0, y0, x1, y1) = bounding_box(&region);
        let b = Bounds { x0, y0, x1, y1 };
        proof {
            crate::marker::lemma_bounds(region@);
            lemma_region_in_bounds(region@);
            lemma_scene_valid(before);
            lemma_staged_start(before.scene, before.pointer);
            assert(b == bounds_of(region@));
            assert(region@.take(0) =~= Seq::<PixelPosition>::empty());
            assert(images(turn, b, region@.take(0)) =~= Seq::<PixelPosition>::empty());
        }
        let mut want = Canvas::new();
        let mut targets: Vec<PixelPosition> = Vec::new();
        let mut i: usize = 0;
        while i < region.len()
            invariant
                i <= region@.len(),
                before.scene.valid(),
                self.scene@ == before.scene,
                targets@ == images(turn, b, region@.take(i as int)),
                want@ == turned(before.scene.pixels, turn, b, region@.take(i as int)),
                forall|q: PixelPosition| #[trigger]
                    want@.contains_key(q) ==> before.scene.colors.contains_key(want@[q].0),
                forall|k: int|
                    0 <= k < region@.len() ==> b.x0 <= (#[trigger] region@[k]).x <= b.x1 && b.y0
                        <= region@[k].y <= b.y1,
            decreases region@.len() - i,
        {
            let p = region[i];
            let q = image(turn, b, p);
            proof {
                assert(region@.take(i + 1).drop_last() =~= region@.take(i as int));
                assert(region@.take(i + 1).last() == p);
                assert(images(turn, b, region@.take(i + 1)) =~= images(
                    turn,
                    b,
                    region@.take(i as int),
                ).push(q));
            }
            targets.push(q);
            match self.scene.pixels().get(p) {
                Some(c) => {
                    assert(before.scene.pixels.contains_key(p));
                    want.set(q, Some(c));
                },
                None => {},
            }
            i = i + 1;
        }
        assert(region@.take(region@.len() as int) =~= region@);
        let mut group: Vec<Command> = Vec::new();
        assert(effects_of(group@) =~= repaint(
            before.scene,
            Seq::<PixelPosition>::empty(),
            want@,
        ));
        repaint_each(
            &mut self.scene,
            &mut group,
            &region,
            &want,
            Ghost(Seq::empty()),
            Ghost(before.scene),
            Ghost(before.pointer),
        );
        assert(Seq::<PixelPosition>::empty() + region@ =~= region@);
        repaint_each(
            &mut self.scene,
            &mut group,
            &targets,
            &want,
            Ghost(region@),
            Ghost(before.scene),
            Ghost(before.pointer),
        );
        self.commit(group, Ghost(before));
    }

    /// Selects the colour under `index`, if the palette has it, and logs
    /// the selection, also where that colour was selected already. If the
    /// palette does not have it, the selection stays as it is and nothing
    /// is logged.
    pub fn select_color(&mut self, index: usize) -> (r: Result<(), Failure>)
        requires
            old(self).wf(),
        ensures
            final(self).wf(),
            old(self)@.scene.colors.contains_key(index) ==> r == Ok::<(), Failure>(())
                && final(self)@ == old(self)@.committed(
                seq![
                    Effect::SelectColor {
                        index: ColorIndex(index),
                        previous: old(self)@.scene.selected,
                    },
                ],
            ) && final(self)@.scene.selected == ColorIndex(index) && final(self)@.pending == old(
                self,
            )@.pending.push(
                Effect::SelectColor {
                    index: ColorIndex(index),
                    previous: old(self)@.scene.selected,
                },
            ),
            !old(self)@.scene.colors.contains_key(index) ==> r == Err::<(), Failure>(
                Failure::InvalidColorIndex,
            ) && final(self)@ == old(self)@,
    {
        let index = ColorIndex(index);
        match self.scene.palette().get(index) {
            Some(_) => {
                let previous = self.scene.palette().selected();
                self.commit_one(Command::SelectColor { index, previous });
                Ok(())
            },
            None => Err(Failure::InvalidColorIndex),
        }
    }

    /// Carries out one editing intent. A refused intent changes nothing.
    /// An intent that reads the marked pixels needs them to be countable;
    /// see [`Model::can_apply`].
    pub fn apply(&mut self, command: &crate::command::Command) -> (r: Result<(), Failure>)
        requires
            old(self).wf(),
            reads_marking(*command) ==> old(self)@.countable(),
        ensures
            final(self).wf(),
            match old(self)@.step(*command) {
                Ok(state) => r == Ok::<(), Failure>(()) && final(self)@ == state,
                Err(failure) => r == Err::<(), Failure>(failure) && final(self)@ == old(self)@,
            },
    {
        proof {
            lemma_scene_valid(self@);
        }
        match command {
            crate::command::Command::Move(MoveDestination::Delta(delta)) => {
                let to = self.scene.cursor().position.shift(*delta);
                self.move_cursor_to(to);
                Ok(())
            },
            crate::command::Command::Move(MoveDestination::Anchor(name)) => {
                let found = match self.scene.anchors().get(&name.anchor) {
                    Some(p) => Some(*p),
                    None => None,
                };
                match found {
                    Some(to) => {
                        self.move_cursor_to(to);
                        Ok(())
                    },
                    None => Err(Failure::UnknownAnchor),
                }
            },
            crate::command::Command::Mark(kind) => {
                if self.marker.is_some() {
                    Err(Failure::MarkerAlreadyActive)
                } else {
                    self.marker = Some(Marker::new(*kind, self.scene.cursor().position));
                    Ok(())
                }
            },
            crate::command::Command::Dip(color) => {
                self.dip(*color);
                Ok(())
            },
            crate::command::Command::Color(color) => {
                self.dip(*color);
                Ok(())
            },
            crate::command::Command::Pick => {
                match self.scene.pixels().get(self.scene.cursor().position) {
                    Some(index) => {
                        assert(self@.scene.pixels.contains_key(self@.scene.cursor));
                        let previous = self.scene.palette().selected();
                        self.commit_one(Command::SelectColor { index, previous });
                        Ok(())
                    },
                    None => Err(Failure::InvalidColorIndex),
                }
            },
            crate::command::Command::Cut => {
                let positions = match &self.marker {
                    Some(m) => m.marked_points(),
                    None => {
                        return Err(Failure::NoActiveMarker);
                    },
                };
                let clipboard = self.snapshot(&positions);
                self.paint(&positions, None);
                self.marker = None;
                self.clipboard = clipboard;
                Ok(())
            },
            crate::command::Command::Copy => {
                let positions = match &self.marker {
                    Some(m) => m.marked_points(),
                    None => {
                        return Err(Failure::NoActiveMarker);
                    },
                };
                let clipboard = self.snapshot(&positions);
                self.marker = None;
                self.clipboard = clipboard;
                Ok(())
            },
            crate::command::Command::Cancel => {
                self.marker = None;
                Ok(())
            },
            crate::command::Command::Erase => {
                let positions = self.target_positions();
                self.paint(&positions, None);
                Ok(())
            },
            crate::command::Command::Draw => {
                let positions = self.target_positions();
                let color = self.scene.palette().selected();
                self.paint(&positions, Some(color));
                Ok(())
            },
            crate::command::Command::Undo => {
                self.undo();
                Ok(())
            },
            crate::command::Command::Redo => {
                self.redo();
                Ok(())
            },
            crate::command::Command::Quit => {
                self.quit = true;
                Ok(())
            },
            crate::command::Command::Scale(delta) => {
                let previous = self.scene.scale();
                let sum: i16 = previous as i16 + *delta as i16;
                let scale: u8 = if sum < 1 {
                    1
                } else if sum > u8::MAX as i16 {
                    u8::MAX
                } else {
                    sum as u8
                };
                self.commit_one(Command::SetScale { previous, scale });
                Ok(())
            },
            crate::command::Command::Center(CenterPoint::Cursor) => {
                let from = self.scene.camera().position;
                let to = self.scene.cursor().position;
                self.commit_one(Command::MoveCamera { from, to });
                Ok(())
            },
            crate::command::Command::Center(CenterPoint::Anchor(name)) => {
                let found = match self.scene.anchors().get(name) {
                    Some(p) => Some(*p),
                    None => None,
                };
                match found {
                    Some(to) => {
                        let from = self.scene.camera().position;
                        self.commit_one(Command::MoveCamera { from, to });
                        Ok(())
                    },
                    None => Err(Failure::UnknownAnchor),
                }
            },
            crate::command::Command::Anchor(name) => {
                let previous = match self.scene.anchors().get(name) {
                    Some(p) => Some(*p),
                    None => None,
                };
                let position = Some(self.scene.cursor().position);
                self.commit_one(Command::SetAnchor { name: name.clone(), previous, position });
                Ok(())
            },
            crate::command::Command::Tag(name) => {
                let previous = match self.scene.tags().get(name) {
                    Some(v) => Some(*v),
                    None => None,
                };
                let version = Some(self.pointer);
                self.commit_one(Command::SetTag { name: name.clone(), previous, version });
                Ok(())
            },
            crate::command::Command::BackgroundColor(color) => {
                let previous = self.scene.background();
                self.commit_one(Command::SetBackground { previous, color: *color });
                Ok(())
            },
            crate::command::Command::Checkout(Checkout::Tag(name)) => {
                let found = match self.scene.tags().get(name) {
                    Some(v) => Some(*v),
                    None => None,
                };
                match found {
                    Some(place) => {
                        proof {
                            lemma_tag_version(self@, name@);
                        }
                        self.rewind(place + 1);
                        Ok(())
                    },
                    None => Err(Failure::UnknownTag),
                }
            },
            crate::command::Command::Import(list) => {
                self.import(list);
                Ok(())
            },
            crate::command::Command::Embed(frame) => {
                let previous = match self.scene.frames().get(&frame.name) {
                    Some(f) => Some(f.copy()),
                    None => None,
                };
                self.commit_one(
                    Command::SetFrame {
                        name: frame.name.clone(),
                        previous,
                        frame: Some(frame.copy()),
                    },
                );
                Ok(())
            },
            crate::command::Command::Tick(delta) => {
                let previous = self.scene.clock();
                let clock = previous.advance(*delta);
                self.commit_one(Command::SetClock { previous, clock });
                Ok(())
            },
            crate::command::Command::Play(play) => {
                let previous = self.scene.clock();
                self.commit_one(Command::SetClock { previous, clock: play.offset });
                self.playback = Some(*play);
                Ok(())
            },
            crate::command::Command::Remove(RemoveTarget::Tag(name)) => {
                let found = match self.scene.tags().get(name) {
                    Some(v) => Some(*v),
                    None => None,
                };
                match found {
                    Some(v) => {
                        self.commit_one(
                            Command::SetTag { name: name.clone(), previous: Some(v), version: None },
                        );
                        Ok(())
                    },
                    None => Err(Failure::UnknownTarget),
                }
            },
            crate::command::Command::Remove(RemoveTarget::Anchor(name)) => {
                let found = match self.scene.anchors().get(name) {
                    Some(p) => Some(*p),
                    None => None,
                };
                match found {
                    Some(p) => {
                        self.commit_one(
                            Command::SetAnchor {
                                name: name.clone(),
                                previous: Some(p),
                                position: None,
                            },
                        );
                        Ok(())
                    },
                    None => Err(Failure::UnknownTarget),
                }
            },
            crate::command::Command::Remove(RemoveTarget::Frame(name)) => {
                let found = match self.scene.frames().get(name) {
                    Some(f) => Some(f.copy()),
                    None => None,
                };
                match found {
                    Some(f) => {
                        self.commit_one(
                            Command::SetFrame { name: name.clone(), previous: Some(f), frame: None },
                        );
                        Ok(())
                    },
                    None => Err(Failure::UnknownTarget),
                }
            },
            crate::command::Command::Flip(direction) => {
                self.turn(Turn::Flip(*direction));
                Ok(())
            },
            crate::command::Command::Rotate => {
                self.turn(Turn::Rotate);
                Ok(())
            },
            crate::command::Command::ExternalCommand(_) => Ok(()),
        }
    }

    /// The pixels that drawing and erasing act on.
    pub(crate) fn target_positions(&self) -> (v: Vec<PixelPosition>)
        requires
            self.wf(),
            self@.countable(),
        ensures
            v@ == self@.targets(),
    {
        match &self.marker {
            Some(m) => m.marked_points(),
            None => {
                let mut v: Vec<PixelPosition> = Vec::new();
                v.push(self.scene.cursor().position);
                assert(v@ =~= seq![self@.scene.cursor]);
                v
            },
        }
    }
}

/// Gives each of `positions` what `want` holds there.
fn repaint_each(
    scene: &mut Scene,
    group: &mut Vec<Command>,
    positions: &Vec<PixelPosition>,
    want: &Canvas,
    Ghost(done): Ghost<Seq<PixelPosition>>,
    Ghost(start): Ghost<SceneView>,
    Ghost(place): Ghost<int>,
)
    requires
        old(scene).wf(),
        staged(start, old(scene)@, effects_of(old(group)@), place),
        effects_of(old(group)@) == repaint(start, done, want@),
        forall|q: PixelPosition| #[trigger]
            want@.contains_key(q) ==> old(scene)@.colors.contains_key(want@[q].0),
    ensures
        final(scene).wf(),
        staged(start, final(scene)@, effects_of(final(group)@), place),
        effects_of(final(group)@) == repaint(start, done + positions@, want@),
        final(scene)@.colors == old(scene)@.colors,
{
    let mut i: usize = 0;
    assert(done + positions@.take(0) =~= done);
    while i < positions.len()
        invariant
            i <= positions@.len(),
            scene.wf(),
            staged(start, scene@, effects_of(group@), place),
            effects_of(group@) == repaint(start, done + positions@.take(i as int), want@),
            scene@.colors == old(scene)@.colors,
            forall|q: PixelPosition| #[trigger]
                want@.contains_key(q) ==> old(scene)@.colors.contains_key(want@[q].0),
        decreases positions@.len() - i,
    {
        let p = positions[i];
        let previous = scene.pixels().get(p);
        let color = want.get(p);
        proof {
            let next = done + positions@.take(i + 1);
            assert(next.drop_last() =~= done + positions@.take(i as int));
            assert(next.last() == p);
            if color is Some {
                assert(want@.contains_key(p));
            }
        }
        emit(
            scene,
            group,
            Command::Dot { position: p, previous, color },
            Ghost(start),
            Ghost(place),
        );
        i = i + 1;
    }
    assert(positions@.take(positions@.len() as int) =~= positions@);
}

impl Model {
    pub fn cursor(&self) -> (c: crate::model::Cursor)
        ensures
            c.position == self@.scene.cursor,
    {
        self.scene.cursor()
    }

    pub fn camera(&self) -> (c: crate::model::Camera)
        ensures
            c.position == self@.scene.camera,
    {
        self.scene.camera()
    }

    pub fn palette(&self) -> (p: &crate::model::Palette)
        requires
            self.wf(),
        ensures
            p.wf(),
            p.colors() == self@.scene.colors,
            p.selected_index() == self@.scene.selected,
    {
        proof {
            lemma_scene_valid(self@);
        }
        self.scene.palette()
    }

    /// The painted pixels.
    pub fn canvas(&self) -> (c: &Canvas)
        ensures
            c@ == self@.scene.pixels,
    {
        self.scene.pixels()
    }

    /// The colour that drawing uses.
    pub fn brush_color(&self) -> (c: Color)
        requires
            self.wf(),
        ensures
            c == self@.scene.colors[self@.scene.selected.0],
    {
        self.palette().selected_color()
    }

    /// The colour of the pixel at `position`, if it is painted.
    pub fn pixel(&self, position: PixelPosition) -> (c: Option<Color>)
        requires
            self.wf(),
        ensures
            c == (match lookup(self@.scene.pixels, position) {
                Some(index) => Some(self@.scene.colors[index.0]),
                None => None,
            }),
    {
        proof {
            lemma_scene_valid(self@);
        }
        match self.scene.pixels().get(position) {
            Some(index) => {
                assert(self@.scene.pixels.contains_key(position));
                self.scene.palette().get(index)
            },
            None => None,
        }
    }

    /// The marking session in progress, if any.
    pub fn marker(&self) -> (m: Option<&Marker>)
        requires
            self.wf(),
        ensures
            match m {
                Some(marker) => self@.marker == Some(marker@) && marker@.wf(),
                None => self@.marker is None,
            },
    {
        match &self.marker {
            Some(m) => Some(m),
            None => None,
        }
    }

    /// What was cut or copied last.
    pub fn clipboard(&self) -> (c: &Vec<(PixelPosition, Color)>)
        ensures
            c@ == self@.clipboard,
    {
        &self.clipboard
    }

    pub fn clock(&self) -> (t: Ticks)
        ensures
            t == self@.scene.clock,
    {
        self.scene.clock()
    }

    /// The zoom, which is at least 1.
    pub fn scale(&self) -> (n: u8)
        requires
            self.wf(),
        ensures
            n == self@.scene.scale,
            n >= 1,
    {
        proof {
            lemma_scene_valid(self@);
        }
        self.scene.scale()
    }

    pub fn background(&self) -> (c: Color)
        ensures
            c == self@.scene.background,
    {
        self.scene.background()
    }

    /// The log pointer: the number of groups that are carried out.
    pub fn version(&self) -> (n: usize)
        ensures
            n == self@.pointer,
    {
        self.pointer
    }

    /// The number of groups in the log, carried out or taken back.
    pub fn log_len(&self) -> (n: usize)
        ensures
            n == self@.groups.len(),
    {
        self.groups.len()
    }

    /// Whether the session was ended.
    pub fn has_quit(&self) -> (b: bool)
        ensures
            b == self@.quit,
    {
        self.quit
    }

    /// Whether playback is in progress.
    pub fn is_playing(&self) -> (b: bool)
        ensures
            b == self@.playback is Some,
    {
        self.playback.is_some()
    }

    /// The playback in progress, if any.
    pub fn playback(&self) -> (p: Option<PlayCommand>)
        ensures
            p == self@.playback,
    {
        self.playback
    }

    /// The position of the anchor `name`.
    pub fn resolve_anchor(&self, name: &String) -> (r: Result<PixelPosition, Failure>)
        requires
            self.wf(),
        ensures
            r == (match lookup(self@.scene.anchors, name@) {
                Some(p) => Ok::<PixelPosition, Failure>(p),
                None => Err::<PixelPosition, Failure>(Failure::UnknownAnchor),
            }),
    {
        match self.scene.anchors().get(name) {
            Some(p) => Ok(*p),
            None => Err(Failure::UnknownAnchor),
        }
    }

    /// The place in the log that the tag `name` holds.
    pub fn resolve_tag(&self, name: &String) -> (r: Result<usize, Failure>)
        requires
            self.wf(),
        ensures
            r == (match lookup(self@.scene.tags, name@) {
                Some(v) => Ok::<usize, Failure>(v),
                None => Err::<usize, Failure>(Failure::UnknownTag),
            }),
    {
        match self.scene.tags().get(name) {
            Some(v) => Ok(*v),
            None => Err(Failure::UnknownTag),
        }
    }

    /// The effect that moves the cursor by `delta`.
    pub fn move_cursor_command(&self, delta: PixelPositionDelta) -> (c: Command)
        ensures
            c@ == (Effect::Move {
                from: self@.scene.cursor,
                to: self@.scene.cursor.shifted(delta),
            }),
            c@.fits(self@.scene),
    {
        let from = self.scene.cursor().position;
        Command::Move { from, to: from.shift(delta) }
    }

    /// The effect that paints the pixel under the cursor with the drawing
    /// colour.
    pub fn dot_command(&self) -> (c: Command)
        ensures
            c@ == dot_effect(self@.scene, self@.scene.cursor, Some(self@.scene.selected)),
            c@.fits(self@.scene),
    {
        let position = self.scene.cursor().position;
        Command::Dot {
            position,
            previous: self.scene.pixels().get(position),
            color: Some(self.scene.palette().selected()),
        }
    }

    /// Whether `command` can be handed to [`Model::apply`]: it does not
    /// read the marked pixels, or they can be counted. It always can where
    /// `usize` has 64 bits.
    pub fn can_apply(&self, command: &crate::command::Command) -> (b: bool)
        requires
            self.wf(),
        ensures
            b == (reads_marking(*command) ==> self@.countable()),
    {
        match command {
            crate::command::Command::Draw => self.is_countable(),
            crate::command::Command::Erase => self.is_countable(),
            crate::command::Command::Cut => self.is_countable(),
            crate::command::Command::Copy => self.is_countable(),
            crate::command::Command::Flip(_) => self.is_countable(),
            crate::command::Command::Rotate => self.is_countable(),
            _ => true,
        }
    }

    /// Whether the region that the marking scans can be counted. It always
    /// can where `usize` has 64 bits.
    pub fn is_countable(&self) -> (b: bool)
        requires
            self.wf(),
        ensures
            b == self@.countable(),
    {
        match &self.marker {
            None => true,
            Some(m) => m.is_countable(),
        }
    }

    /// Lets playback go on by one tick.
    pub fn advance_playback(&mut self)
        requires
            old(self).wf(),
        ensures
            final(self).wf(),
            final(self)@ == old(self)@.played(),
    {
        match self.playback {
            None => {},
            Some(play) => {
                let previous = self.scene.clock();
                let next = previous.advance(1);
                if (next.0 as u64) < play.offset.0 as u64 + play.duration.0 as u64 {
                    self.commit_one(Command::SetClock { previous, clock: next });
                } else if play.repeat {
                    self.commit_one(Command::SetClock { previous, clock: play.offset });
                } else {
                    self.commit_one(Command::SetClock { previous, clock: next });
                    self.playback = None;
                }
            },
        }
    }

    /// The overlay pixels of the frames whose window holds the clock.
    pub fn overlay_pixels(&self) -> (v: Vec<(PixelPosition, Color)>)
        requires
            self.wf(),
        ensures
            v@ == self@.overlay(),
    {
        let frames = self.scene.frames();
        let clock = self.scene.clock();
        let ghost scene = self@.scene;
        let ghost names = sorted(scene.frames.dom());
        proof {
            frames.lemma_listed();
            assert(names.take(0) =~= Seq::<Seq<char>>::empty());
        }
        let mut v: Vec<(PixelPosition, Color)> = Vec::new();
        let n = frames.len();
        let mut i: usize = 0;
        while i < n
            invariant
                i <= n,
                n == frames.listed().len(),
                n == names.len(),
                frames.wf(),
                frames@ == scene.frames,
                names == sorted(scene.frames.dom()),
                forall|k: int|
                    0 <= k < n ==> scene.frames.contains_key(#[trigger] names[k])
                        && scene.frames[names[k]] == frames.listed()[k],
                v@ == overlay_of(scene.frames, names.take(i as int), clock),
            decreases n - i,
        {
            let frame = frames.value_at(i);
            let ghost shown = v@;
            proof {
                assert(names.take(i + 1).drop_last() =~= names.take(i as int));
                assert(names.take(i + 1).last() == names[i as int]);
                assert(scene.frames[names[i as int]] == frame@);
            }
            if frame.is_active_at(clock) {
                let mut j: usize = 0;
                assert(shown + frame.pixels@.take(0) =~= shown);
                while j < frame.pixels.len()
                    invariant
                        j <= frame.pixels@.len(),
                        v@ == shown + frame.pixels@.take(j as int),
                    decreases frame.pixels@.len() - j,
                {
                    v.push(frame.pixels[j]);
                    proof {
                        assert(shown + frame.pixels@.take(j + 1) =~= (shown + frame.pixels@.take(
                            j as int,
                        )).push(frame.pixels@[j as int]));
                    }
                    j = j + 1;
                }
                assert(frame.pixels@.take(frame.pixels@.len() as int) =~= frame.pixels@);
            }
            i = i + 1;
        }
        assert(names.take(n as int) =~= names);
        v
    }

    /// The scene that a record of effects gives, applied in order to the
    /// scene of a new session.
    pub fn replay(record: &Vec<Command>) -> (scene: Scene)
        ensures
            scene.wf(),
            scene@ == apply_all(SceneView::initial(), effects_of(record@)),
    {
        let mut scene = Scene::new();
        scene.apply_each(record);
        scene
    }

    /// The live scene.
    pub fn scene(&self) -> (s: &Scene)
        requires
            self.wf(),
        ensures
            s.wf(),
            s@ == self@.scene,
    {
        &self.scene
    }
}

/// Logging one safe effect that records what it replaces keeps the
/// engine's invariant.
proof fn lemma_one_admitted(m: ModelView, e: Effect)
    requires
        m.inv(),
        e.fits(m.scene),
        e.safe(m.scene, m.pointer),
    ensures
        m.committed(kept(e)).inv(),
{
    if !e.idle() {
        lemma_scene_valid(m);
        lemma_apply_all_one(m.scene, e);
        crate::stage::lemma_safe_step(m.scene, e, m.pointer);
        lemma_commit(m, kept(e));
    }
}

/// Logging a group that records what it replaces and changes canvas and
/// palette at most, into a valid scene, keeps the engine's invariant.
proof fn lemma_group_admitted(m: ModelView, group: Seq<Effect>)
    requires
        m.inv(),
        fit_all(m.scene, group),
        apply_all(m.scene, group).valid(),
        apply_all(m.scene, group).tags == m.scene.tags,
    ensures
        m.committed(group).inv(),
{
    if group.len() > 0 {
        lemma_commit(m, group);
    }
}

/// Painting with a colour of the palette, or erasing, keeps the engine's
/// invariant.
proof fn lemma_paint_admitted(m: ModelView, positions: Seq<PixelPosition>, color: Option<ColorIndex>)
    requires
        m.inv(),
        match color {
            Some(c) => m.scene.colors.contains_key(c.0),
            None => true,
        },
    ensures
        m.committed(paint(m.scene, positions, color)).inv(),
{
    lemma_scene_valid(m);
    lemma_paint_result(m.scene, positions, color);
    lemma_group_admitted(m, paint(m.scene, positions, color));
}

/// Mirroring or turning a region keeps the engine's invariant.
proof fn lemma_turn_admitted(m: ModelView, turn: Turn, region: Seq<PixelPosition>)
    requires
        m.inv(),
    ensures
        m.committed(turn_effects(m.scene, turn, region)).inv(),
{
    if region.len() > 0 {
        let s = m.scene;
        let b = bounds_of(region);
        let want = turned(s.pixels, turn, b, region);
        let end = apply_all(s, turn_effects(s, turn, region));
        lemma_scene_valid(m);
        crate::transform::lemma_repaint_result(s, region + images(turn, b, region), want);
        crate::transform::lemma_turned(s.pixels, turn, b, region);
        assert forall|q: PixelPosition| #[trigger] end.pixels.contains_key(q) implies s.colors.contains_key(
            end.pixels[q].0,
        ) by {
            if want.contains_key(q) && end.pixels[q] == want[q] {
                let i = choose|i: int|
                    0 <= i < region.len() && s.pixels.contains_key(#[trigger] region[i])
                        && crate::transform::image_of(turn, b, region[i]) == q && want[q]
                        == s.pixels[region[i]];
                assert(s.pixels.contains_key(region[i]));
            } else {
                assert(s.pixels.contains_key(q));
            }
        }
        lemma_group_admitted(m, turn_effects(s, turn, region));
    }
}

/// Whether the state is within the limits of the machine for `command`:
/// the palette with what an import may add, and the log pointer, are
/// numbers that `usize` holds. Every state of a running engine is.
pub open spec fn within_limits(m: ModelView, command: crate::command::Command) -> bool {
    &&& m.pointer <= usize::MAX
    &&& match command {
        crate::command::Command::Import(list) => m.scene.colors.dom().len() + list@.len()
            <= usize::MAX,
        _ => m.scene.colors.dom().len() <= usize::MAX,
    }
}

/// Every intent keeps the engine's invariant: the state that an intent
/// leaves has a sound log, a scene that the log gives at the pointer and
/// that the record replays to, and a marking with an anchor, if it has
/// one.
pub proof fn lemma_step_keeps_inv(m: ModelView, command: crate::command::Command)
    requires
        m.inv(),
        within_limits(m, command),
    ensures
        m.step(command) is Ok ==> m.step(command)->Ok_0.inv(),
{
    let s = m.scene;
    lemma_scene_valid(m);
    crate::engine::lemma_undone(m);
    crate::engine::lemma_redone(m);
    match command {
        crate::command::Command::Move(MoveDestination::Delta(delta)) => {
            lemma_one_admitted(m, Effect::Move { from: s.cursor, to: s.cursor.shifted(delta) });
        },
        crate::command::Command::Move(MoveDestination::Anchor(name)) => {
            if s.anchors.contains_key(name.anchor@) {
                lemma_one_admitted(m, Effect::Move { from: s.cursor, to: s.anchors[name.anchor@] });
            }
        },
        crate::command::Command::Dip(color) => {
            lemma_dip_result(s, color);
            lemma_group_admitted(m, dip(s, color));
        },
        crate::command::Command::Color(color) => {
            lemma_dip_result(s, color);
            lemma_group_admitted(m, dip(s, color));
        },
        crate::command::Command::Pick => {
            if s.pixels.contains_key(s.cursor) {
                lemma_one_admitted(
                    m,
                    Effect::SelectColor { index: s.pixels[s.cursor], previous: s.selected },
                );
            }
        },
        crate::command::Command::Cut => {
            if m.marker is Some {
                lemma_paint_admitted(m, m.marker->0.covered(), None);
            }
        },
        crate::command::Command::Erase => {
            lemma_paint_admitted(m, m.targets(), None);
        },
        crate::command::Command::Draw => {
            lemma_paint_admitted(m, m.targets(), Some(s.selected));
        },
        crate::command::Command::Scale(delta) => {
            lemma_one_admitted(
                m,
                Effect::SetScale { previous: s.scale, scale: scaled(s.scale, delta) },
            );
        },
        crate::command::Command::Center(CenterPoint::Cursor) => {
            lemma_one_admitted(m, Effect::MoveCamera { from: s.camera, to: s.cursor });
        },
        crate::command::Command::Center(CenterPoint::Anchor(name)) => {
            if s.anchors.contains_key(name@) {
                lemma_one_admitted(m, Effect::MoveCamera { from: s.camera, to: s.anchors[name@] });
            }
        },
        crate::command::Command::Anchor(name) => {
            lemma_one_admitted(
                m,
                Effect::SetAnchor {
                    name: name@,
                    previous: lookup(s.anchors, name@),
                    position: Some(s.cursor),
                },
            );
        },
        crate::command::Command::Tag(name) => {
            lemma_one_admitted(
                m,
                Effect::SetTag {
                    name: name@,
                    previous: lookup(s.tags, name@),
                    version: Some(m.pointer as usize),
                },
            );
        },
        crate::command::Command::BackgroundColor(color) => {
            lemma_one_admitted(m, Effect::SetBackground { previous: s.background, color });
        },
        crate::command::Command::Checkout(Checkout::Tag(name)) => {
            if s.tags.contains_key(name@) {
                lemma_tag_version(m, name@);
                crate::engine::lemma_rewound(m, s.tags[name@] + 1);
            }
        },
        crate::command::Command::Import(list) => {
            lemma_import_result(s, list@);
            lemma_group_admitted(m, import(s, list@));
        },
        crate::command::Command::Embed(frame) => {
            lemma_one_admitted(
                m,
                Effect::SetFrame {
                    name: frame@.name,
                    previous: lookup(s.frames, frame@.name),
                    frame: Some(frame@),
                },
            );
        },
        crate::command::Command::Tick(delta) => {
            lemma_one_admitted(
                m,
                Effect::SetClock { previous: s.clock, clock: s.clock.advanced(delta as int) },
            );
        },
        crate::command::Command::Play(play) => {
            lemma_one_admitted(m, Effect::SetClock { previous: s.clock, clock: play.offset });
        },
        crate::command::Command::Remove(target) => {
            if m.removal(target) is Some {
                lemma_one_admitted(m, m.removal(target)->0);
            }
        },
        crate::command::Command::Flip(direction) => {
            lemma_turn_admitted(m, Turn::Flip(direction), m.region());
        },
        crate::command::Command::Rotate => {
            lemma_turn_admitted(m, Turn::Rotate, m.region());
        },
        _ => {},
    }
}

/// A new intent after an undo discards what could be carried out again:
/// where an intent other than undo, redo and checkout gives rise to
/// effects, these become the last group of the log, right after the
/// groups that were carried out before; the log is one group longer than
/// the pointer was, and the pointer stands at its end.
pub proof fn lemma_new_group_discards_redo(
    m: ModelView,
    command: crate::command::Command,
    group: Seq<Effect>,
)
    requires
        m.inv(),
        !(command is Undo || command is Redo || command is Checkout),
        m.translated(command) == Ok::<Seq<Effect>, Failure>(group),
        group.len() > 0,
    ensures
        m.step(command) is Ok,
        m.step(command)->Ok_0.groups.len() == m.pointer + 1,
        m.step(command)->Ok_0.pointer == m.pointer + 1,
        m.step(command)->Ok_0.groups.last() == group,
        forall|i: int| 0 <= i < m.pointer ==> m.step(command)->Ok_0.groups[i] == m.groups[i],
        m.step(command)->Ok_0.redone() == m.step(command)->Ok_0,
{
}

/// Undo exactly reverts an intent, and redo restores it: where an intent
/// other than undo, redo and checkout gave rise to effects, undo gives
/// back the scene and the pointer from before the intent in one step,
/// and redo after that gives the state that the intent had left.
pub proof fn lemma_undo_reverts_intent(m: ModelView, command: crate::command::Command)
    requires
        m.inv(),
        within_limits(m, command),
        !(command is Undo || command is Redo || command is Checkout),
        m.translated(command) is Ok,
        m.translated(command)->Ok_0.len() > 0,
    ensures
        m.step(command) is Ok,
        m.step(command)->Ok_0.undone().scene == m.scene,
        m.step(command)->Ok_0.undone().pointer == m.pointer,
        m.step(command)->Ok_0.same_but_record(m.step(command)->Ok_0.undone().redone()),
{
    let group = m.translated(command)->Ok_0;
    let after = m.step(command)->Ok_0;
    let logged = m.committed(group);
    lemma_step_keeps_inv(m, command);
    assert(after.groups == logged.groups);
    assert(after.pointer == logged.pointer);
    assert(after.scene == logged.scene);
    assert(logged.inv()) by {
        assert(logged.recorded + logged.pending == after.recorded + after.pending);
    }
    crate::engine::lemma_undo_reverts_commit(m, group);
    crate::engine::lemma_undo_redo_cancel(after);
}

/// Replaying the record from the start gives the live scene: the effects
/// that were handed out and those that still wait, applied in order to the
/// scene of a new session, give exactly the scene of the live session.
pub proof fn lemma_record_replays(m: Model)
    requires
        m.wf(),
    ensures
        apply_all(SceneView::initial(), m@.recorded + m@.pending) == m@.scene,
{
}

} // verus!
