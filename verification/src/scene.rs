//! The state that effects act on, and what each effect does to it.

use crate::canvas::Canvas;
use crate::clock::Ticks;
use crate::frame::{Frame, FrameView};
use crate::model::{Camera, Color, ColorIndex, Command, Cursor, Palette, PixelPosition};
use crate::names::NameMap;
use vstd::prelude::*;

verus! {

/// Everything that the effect log governs, as plain values.
pub struct SceneView {
    pub cursor: PixelPosition,
    pub camera: PixelPosition,
    pub colors: Map<usize, Color>,
    pub selected: ColorIndex,
    pub pixels: Map<PixelPosition, ColorIndex>,
    pub scale: u8,
    pub background: Color,
    pub clock: Ticks,
    pub anchors: Map<Seq<char>, PixelPosition>,
    pub tags: Map<Seq<char>, usize>,
    pub frames: Map<Seq<char>, FrameView>,
}

/// The entry of `m` under `k`, if there is one.
pub open spec fn lookup<K, V>(m: Map<K, V>, k: K) -> Option<V> {
    if m.contains_key(k) {
        Some(m[k])
    } else {
        None
    }
}

/// `m` with the entry under `k` set to `v`, or taken away where `v` is `None`.
pub open spec fn assign<K, V>(m: Map<K, V>, k: K, v: Option<V>) -> Map<K, V> {
    match v {
        Some(x) => m.insert(k, x),
        None => m.remove(k),
    }
}

/// A primitive change of the scene, with what it replaces. This is the
/// view of a [`Command`].
#[allow(inconsistent_fields)]
pub enum Effect {
    Move { from: PixelPosition, to: PixelPosition },
    Dot { position: PixelPosition, previous: Option<ColorIndex>, color: Option<ColorIndex> },
    SelectColor { index: ColorIndex, previous: ColorIndex },
    SetColor { index: ColorIndex, previous: Option<Color>, color: Option<Color> },
    MoveCamera { from: PixelPosition, to: PixelPosition },
    SetScale { previous: u8, scale: u8 },
    SetBackground { previous: Color, color: Color },
    SetClock { previous: Ticks, clock: Ticks },
    SetAnchor { name: Seq<char>, previous: Option<PixelPosition>, position: Option<PixelPosition> },
    SetTag { name: Seq<char>, previous: Option<usize>, version: Option<usize> },
    SetFrame { name: Seq<char>, previous: Option<FrameView>, frame: Option<FrameView> },
}

impl Effect {
    /// The scene after the effect. The effect's record of what it replaces
    /// plays no part in this.
    pub open spec fn apply(self, s: SceneView) -> SceneView {
        match self {
            Effect::Move { from, to } => SceneView { cursor: to, ..s },
            Effect::Dot { position, previous, color } => SceneView {
                pixels: assign(s.pixels, position, color),
                ..s
            },
            Effect::SelectColor { index, previous } => SceneView { selected: index, ..s },
            Effect::SetColor { index, previous, color } => SceneView {
                colors: assign(s.colors, index.0, color),
                ..s
            },
            Effect::MoveCamera { from, to } => SceneView { camera: to, ..s },
            Effect::SetScale { previous, scale } => SceneView { scale, ..s },
            Effect::SetBackground { previous, color } => SceneView { background: color, ..s },
            Effect::SetClock { previous, clock } => SceneView { clock, ..s },
            Effect::SetAnchor { name, previous, position } => SceneView {
                anchors: assign(s.anchors, name, position),
                ..s
            },
            Effect::SetTag { name, previous, version } => SceneView {
                tags: assign(s.tags, name, version),
                ..s
            },
            Effect::SetFrame { name, previous, frame } => SceneView {
                frames: assign(s.frames, name, frame),
                ..s
            },
        }
    }

    /// The effect that puts back what this one replaces.
    pub open spec fn inverse(self) -> Effect {
        match self {
            Effect::Move { from, to } => Effect::Move { from: to, to: from },
            Effect::Dot { position, previous, color } => Effect::Dot {
                position,
                previous: color,
                color: previous,
            },
            Effect::SelectColor { index, previous } => Effect::SelectColor {
                index: previous,
                previous: index,
            },
            Effect::SetColor { index, previous, color } => Effect::SetColor {
                index,
                previous: color,
                color: previous,
            },
            Effect::MoveCamera { from, to } => Effect::MoveCamera { from: to, to: from },
            Effect::SetScale { previous, scale } => Effect::SetScale {
                previous: scale,
                scale: previous,
            },
            Effect::SetBackground { previous, color } => Effect::SetBackground {
                previous: color,
                color: previous,
            },
            Effect::SetClock { previous, clock } => Effect::SetClock {
                previous: clock,
                clock: previous,
            },
            Effect::SetAnchor { name, previous, position } => Effect::SetAnchor {
                name,
                previous: position,
                position: previous,
            },
            Effect::SetTag { name, previous, version } => Effect::SetTag {
                name,
                previous: version,
                version: previous,
            },
            Effect::SetFrame { name, previous, frame } => Effect::SetFrame {
                name,
                previous: frame,
                frame: previous,
            },
        }
    }

    /// Whether the effect sets a pixel to what it holds already. Such an
    /// effect is not logged; every other effect is, also where it changes
    /// nothing.
    pub open spec fn idle(self) -> bool {
        match self {
            Effect::Dot { position, previous, color } => previous == color,
            _ => false,
        }
    }

    /// Whether the effect's record of what it replaces is what `s` holds.
    pub open spec fn fits(self, s: SceneView) -> bool {
        match self {
            Effect::Move { from, to } => s.cursor == from,
            Effect::Dot { position, previous, color } => lookup(s.pixels, position) == previous,
            Effect::SelectColor { index, previous } => s.selected == previous,
            Effect::SetColor { index, previous, color } => lookup(s.colors, index.0) == previous,
            Effect::MoveCamera { from, to } => s.camera == from,
            Effect::SetScale { previous, scale } => s.scale == previous,
            Effect::SetBackground { previous, color } => s.background == previous,
            Effect::SetClock { previous, clock } => s.clock == previous,
            Effect::SetAnchor { name, previous, position } => lookup(s.anchors, name) == previous,
            Effect::SetTag { name, previous, version } => lookup(s.tags, name) == previous,
            Effect::SetFrame { name, previous, frame } => lookup(s.frames, name) == previous,
        }
    }
}

/// An effect that fits a scene is undone exactly by its inverse, and the
/// inverse fits the scene that the effect gave.
pub proof fn lemma_inverse_restores(e: Effect, s: SceneView)
    requires
        e.fits(s),
    ensures
        e.inverse().fits(e.apply(s)),
        e.inverse().apply(e.apply(s)) == s,
        e.inverse().inverse() == e,
{
    let t = e.inverse().apply(e.apply(s));
    assert(t.pixels =~= s.pixels);
    assert(t.colors =~= s.colors);
    assert(t.anchors =~= s.anchors);
    assert(t.tags =~= s.tags);
    assert(t.frames =~= s.frames);
}

/// What is logged of an effect: the effect itself, or nothing where it
/// is idle.
pub open spec fn kept(e: Effect) -> Seq<Effect> {
    if e.idle() {
        Seq::empty()
    } else {
        seq![e]
    }
}

/// An idle effect changes no scene that it fits.
pub proof fn lemma_idle_changes_nothing(e: Effect, s: SceneView)
    requires
        e.fits(s),
        e.idle(),
    ensures
        e.apply(s) == s,
{
    let t = e.apply(s);
    assert(t.pixels =~= s.pixels);
}

/// The scene after the effects of `effects`, first to last.
pub open spec fn apply_all(s: SceneView, effects: Seq<Effect>) -> SceneView
    decreases effects.len(),
{
    if effects.len() == 0 {
        s
    } else {
        effects.last().apply(apply_all(s, effects.drop_last()))
    }
}

/// Whether each of `effects` fits the scene that those before it give.
pub open spec fn fit_all(s: SceneView, effects: Seq<Effect>) -> bool
    decreases effects.len(),
{
    if effects.len() == 0 {
        true
    } else {
        fit_all(s, effects.drop_last()) && effects.last().fits(
            apply_all(s, effects.drop_last()),
        )
    }
}

/// The inverses of `effects`, last to first.
pub open spec fn inverses(effects: Seq<Effect>) -> Seq<Effect> {
    Seq::new(effects.len(), |i: int| effects[effects.len() - 1 - i].inverse())
}

/// A group of one effect does what the effect does.
pub proof fn lemma_apply_all_one(s: SceneView, e: Effect)
    ensures
        apply_all(s, seq![e]) == e.apply(s),
        fit_all(s, seq![e]) == e.fits(s),
{
    reveal_with_fuel(apply_all, 2);
    reveal_with_fuel(fit_all, 2);
    assert(seq![e].drop_last() =~= Seq::<Effect>::empty());
    assert(seq![e].last() == e);
}

/// What is logged of an effect that fits does what the effect does, and
/// fits.
pub proof fn lemma_kept(s: SceneView, e: Effect)
    requires
        e.fits(s),
    ensures
        apply_all(s, kept(e)) == e.apply(s),
        fit_all(s, kept(e)),
{
    if e.idle() {
        lemma_idle_changes_nothing(e, s);
    } else {
        lemma_apply_all_one(s, e);
    }
}

/// Applying `a` and then `b` is applying `a + b`.
pub proof fn lemma_apply_all_concat(s: SceneView, a: Seq<Effect>, b: Seq<Effect>)
    ensures
        apply_all(s, a + b) == apply_all(apply_all(s, a), b),
        fit_all(s, a + b) == (fit_all(s, a) && fit_all(apply_all(s, a), b)),
    decreases b.len(),
{
    if b.len() == 0 {
        assert(a + b =~= a);
    } else {
        assert((a + b).drop_last() =~= a + b.drop_last());
        assert((a + b).last() == b.last());
        lemma_apply_all_concat(s, a, b.drop_last());
    }
}

/// A group of effects that fit is undone exactly by its inverses, which
/// fit in their turn.
pub proof fn lemma_inverses_restore(s: SceneView, effects: Seq<Effect>)
    requires
        fit_all(s, effects),
    ensures
        fit_all(apply_all(s, effects), inverses(effects)),
        apply_all(apply_all(s, effects), inverses(effects)) == s,
        inverses(inverses(effects)) == effects,
    decreases effects.len(),
{
    let inv = inverses(effects);
    if effects.len() == 0 {
        assert(inv =~= effects);
        assert(inverses(inv) =~= effects);
    } else {
        let head = effects.drop_last();
        let last = effects.last();
        let mid = apply_all(s, head);
        let end = apply_all(s, effects);
        lemma_inverses_restore(s, head);
        lemma_inverse_restores(last, mid);
        assert(inv =~= seq![last.inverse()] + inverses(head));
        lemma_apply_all_concat(end, seq![last.inverse()], inverses(head));
        lemma_apply_all_one(end, last.inverse());
        assert forall|i: int| 0 <= i < effects.len() implies inverses(inv)[i] == effects[i] by {
            lemma_inverse_restores_twice(effects[i]);
        }
        assert(inverses(inv) =~= effects);
    }
}

/// Inverting twice gives the effect back.
pub proof fn lemma_inverse_restores_twice(e: Effect)
    ensures
        e.inverse().inverse() == e,
{
}

/// The executable scene.
pub struct Scene {
    cursor: Cursor,
    camera: Camera,
    palette: Palette,
    pixels: Canvas,
    scale: u8,
    background: Color,
    clock: Ticks,
    anchors: NameMap<PixelPosition>,
    tags: NameMap<usize>,
    frames: NameMap<Frame>,
}

impl View for Scene {
    type V = SceneView;

    closed spec fn view(&self) -> SceneView {
        SceneView {
            cursor: self.cursor.position,
            camera: self.camera.position,
            colors: self.palette.colors(),
            selected: self.palette.selected_index(),
            pixels: self.pixels@,
            scale: self.scale,
            background: self.background,
            clock: self.clock,
            anchors: self.anchors@,
            tags: self.tags@,
            frames: self.frames@,
        }
    }
}

impl SceneView {
    /// The scene of a new session: cursor and camera at the origin, the
    /// initial palette with black selected, nothing painted, scale 1, a
    /// white background, the clock at zero and no names.
    pub open spec fn initial() -> SceneView {
        SceneView {
            cursor: PixelPosition { y: 0, x: 0 },
            camera: PixelPosition { y: 0, x: 0 },
            colors: Palette::initial_colors(),
            selected: ColorIndex(4),
            pixels: Map::empty(),
            scale: 1,
            background: Color { r: 255, g: 255, b: 255, a: 255 },
            clock: Ticks(0),
            anchors: Map::empty(),
            tags: Map::empty(),
            frames: Map::empty(),
        }
    }

    /// The selected index is in the palette, no colour is in it twice, every
    /// painted pixel has an index of the palette, and the scale is not zero.
    pub open spec fn valid(self) -> bool {
        &&& self.colors.dom().finite()
        &&& self.colors.contains_key(self.selected.0)
        &&& Palette::distinct(self.colors)
        &&& forall|p: PixelPosition| #[trigger]
            self.pixels.contains_key(p) ==> self.colors.contains_key(self.pixels[p].0)
        &&& self.scale >= 1
    }
}

impl Scene {
    /// The directories hold each name once.
    pub closed spec fn wf(&self) -> bool {
        &&& self.anchors.wf()
        &&& self.tags.wf()
        &&& self.frames.wf()
    }

    /// The scene of a new session.
    pub fn new() -> (s: Self)
        ensures
            s.wf(),
            s@ == SceneView::initial(),
    {
        Scene {
            cursor: Cursor::default(),
            camera: Camera::default(),
            palette: Palette::default(),
            pixels: Canvas::new(),
            scale: 1,
            background: Color::rgb(255, 255, 255),
            clock: Ticks(0),
            anchors: NameMap::new(),
            tags: NameMap::new(),
            frames: NameMap::new(),
        }
    }

    /// Carries out one effect.
    pub fn apply(&mut self, command: &Command)
        requires
            old(self).wf(),
        ensures
            final(self).wf(),
            final(self)@ == command@.apply(old(self)@),
    {
        match command {
            Command::Move { from, to } => {
                self.cursor.position = *to;
            },
            Command::Dot { position, previous, color } => {
                self.pixels.set(*position, *color);
            },
            Command::SelectColor { index, previous } => {
                self.palette.force_select(*index);
            },
            Command::SetColor { index, previous, color } => {
                self.palette.set_color(*index, *color);
            },
            Command::MoveCamera { from, to } => {
                self.camera.position = *to;
            },
            Command::SetScale { previous, scale } => {
                self.scale = *scale;
            },
            Command::SetBackground { previous, color } => {
                self.background = *color;
            },
            Command::SetClock { previous, clock } => {
                self.clock = *clock;
            },
            Command::SetAnchor { name, previous, position } => {
                match position {
                    Some(p) => self.anchors.insert(name.clone(), *p),
                    None => self.anchors.remove(name),
                }
            },
            Command::SetTag { name, previous, version } => {
                match version {
                    Some(v) => self.tags.insert(name.clone(), *v),
                    None => self.tags.remove(name),
                }
            },
            Command::SetFrame { name, previous, frame } => {
                match frame {
                    Some(f) => self.frames.insert(name.clone(), f.copy()),
                    None => self.frames.remove(name),
                }
            },
        }
    }

    /// Carries out the effects of `commands`, first to last.
    pub fn apply_each(&mut self, commands: &Vec<Command>)
        requires
            old(self).wf(),
        ensures
            final(self).wf(),
            final(self)@ == apply_all(old(self)@, effects_of(commands@)),
    {
        let mut i: usize = 0;
        while i < commands.len()
            invariant
                i <= commands@.len(),
                self.wf(),
                self@ == apply_all(old(self)@, effects_of(commands@).take(i as int)),
            decreases commands@.len() - i,
        {
            self.apply(&commands[i]);
            proof {
                let all = effects_of(commands@);
                assert(all.take(i + 1).drop_last() =~= all.take(i as int));
            }
            i = i + 1;
        }
        assert(effects_of(commands@).take(commands@.len() as int) =~= effects_of(commands@));
    }

    pub fn cursor(&self) -> (c: Cursor)
        ensures
            c.position == self@.cursor,
    {
        self.cursor
    }

    pub fn camera(&self) -> (c: Camera)
        ensures
            c.position == self@.camera,
    {
        self.camera
    }

    pub fn palette(&self) -> (p: &Palette)
        ensures
            p.colors() == self@.colors,
            p.selected_index() == self@.selected,
    {
        &self.palette
    }

    pub fn pixels(&self) -> (c: &Canvas)
        ensures
            c@ == self@.pixels,
    {
        &self.pixels
    }

    pub fn scale(&self) -> (n: u8)
        ensures
            n == self@.scale,
    {
        self.scale
    }

    pub fn background(&self) -> (c: Color)
        ensures
            c == self@.background,
    {
        self.background
    }

    pub fn clock(&self) -> (t: Ticks)
        ensures
            t == self@.clock,
    {
        self.clock
    }

    pub fn anchors(&self) -> (m: &NameMap<PixelPosition>)
        requires
            self.wf(),
        ensures
            m.wf(),
            m@ == self@.anchors,
    {
        &self.anchors
    }

    pub fn tags(&self) -> (m: &NameMap<usize>)
        requires
            self.wf(),
        ensures
            m.wf(),
            m@ == self@.tags,
    {
        &self.tags
    }

    pub fn frames(&self) -> (m: &NameMap<Frame>)
        requires
            self.wf(),
        ensures
            m.wf(),
            m@ == self@.frames,
    {
        &self.frames
    }
}

/// The effects that `commands` stand for.
pub open spec fn effects_of(commands: Seq<Command>) -> Seq<Effect> {
    Seq::new(commands.len(), |i: int| commands[i]@)
}

/// Adds `command` at the end of `commands`.
pub fn record(commands: &mut Vec<Command>, command: Command)
    ensures
        final(commands)@ == old(commands)@.push(command),
        effects_of(final(commands)@) == effects_of(old(commands)@).push(command@),
{
    commands.push(command);
    assert(effects_of(commands@) =~= effects_of(old(commands)@).push(command@));
}

/// Adds a copy of each of `group` at the end of `commands`.
pub fn record_each(commands: &mut Vec<Command>, group: &Vec<Command>)
    ensures
        effects_of(final(commands)@) == effects_of(old(commands)@) + effects_of(group@),
{
    let ghost effects = effects_of(group@);
    let mut i: usize = 0;
    assert(effects_of(commands@) + effects.take(0) =~= effects_of(commands@));
    while i < group.len()
        invariant
            i <= group@.len(),
            effects == effects_of(group@),
            effects_of(commands@) == effects_of(old(commands)@) + effects.take(i as int),
        decreases group@.len() - i,
    {
        let c = group[i].copy();
        proof {
            assert(effects[i as int] == c@);
            assert((effects_of(old(commands)@) + effects.take(i as int)).push(c@) =~= effects_of(
                old(commands)@,
            ) + effects.take(i + 1));
        }
        record(commands, c);
        i = i + 1;
    }
    assert(effects.take(group@.len() as int) =~= effects);
}

} // verus!
