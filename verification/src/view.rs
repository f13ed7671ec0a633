//! What is drawn into a window, and how input reaches the model.

use crate::config::{Key, KeyCommand, KeyConfig};
use crate::editor::{reads_marking, Model};
use crate::engine::ModelView;
use crate::failure::Failure;
use crate::model::{Color, PixelPosition};
use crate::window::{region_center, Position, Size};
use vstd::arithmetic::div_mod::lemma_fundamental_div_mod_converse;
use vstd::prelude::*;
use vstd::view::View as _;

verus! {

/// What reaches the view from outside.
#[derive(Debug, Clone, Copy, PartialEq, Eq, Structural)]
pub enum Event {
    /// A key was struck.
    Key(Key),
    /// Anything else: the pointer, a timer, a new window size.
    Other,
}

/// The blinking of the cursor: whether it shows, and the time, in
/// milliseconds, at which that changes next.
#[derive(Debug, Clone, Copy, PartialEq, Eq, Structural)]
pub struct Blink {
    pub show: bool,
    pub switch_time: u64,
}

impl Blink {
    /// The blinking after an event at the time `now`. A key stroke shows
    /// the cursor for a second; when the time to switch has come, the
    /// cursor switches and does so again half a second later.
    pub open spec fn after(self, key: bool, now: u64) -> Blink {
        let struck = if key {
            Blink { show: true, switch_time: (now + 1000) as u64 }
        } else {
            self
        };
        if now >= struck.switch_time {
            Blink { show: !struck.show, switch_time: (now + 500) as u64 }
        } else {
            struck
        }
    }

    /// Takes note of an event at the time `now`.
    pub fn handle_event(&mut self, key: bool, now: u64)
        requires
            now <= u64::MAX - 1000,
        ensures
            *final(self) == old(self).after(key, now),
    {
        if key {
            self.show = true;
            self.switch_time = now + 1000;
        }
        if now >= self.switch_time {
            self.show = !self.show;
            self.switch_time = now + 500;
        }
    }
}

/// The 16-bit value that the low 16 bits of `v` stand for.
pub open spec fn low_16(v: int) -> int {
    (v + 0x8000) % 0x1_0000 - 0x8000
}

/// A window onto the canvas.
#[derive(Debug, Clone, Copy, PartialEq, Eq, Structural)]
pub struct WindowCanvas {
    pub window_size: Size,
}

impl WindowCanvas {
    /// The window position that shows the canvas position `point` when the
    /// camera is at `camera`: the camera is shown at the window's centre.
    pub open spec fn position_of(self, camera: PixelPosition, point: PixelPosition) -> Position {
        Position {
            x: (point.x + self.window_size.center().x - camera.x) as i32,
            y: (point.y + self.window_size.center().y - camera.y) as i32,
        }
    }

    /// The canvas position that the window position `position` shows when
    /// the camera is at `camera`. Of a position too far out to be on the
    /// canvas, the low 16 bits of each coordinate are kept.
    pub open spec fn point_of(self, camera: PixelPosition, position: Position) -> PixelPosition {
        PixelPosition {
            y: low_16(position.y + camera.y - self.window_size.center().y) as i16,
            x: low_16(position.x + camera.x - self.window_size.center().x) as i16,
        }
    }

    /// A window of the given size.
    pub fn new(window_size: Size) -> (w: Self)
        ensures
            w.window_size == window_size,
    {
        WindowCanvas { window_size }
    }

    /// The window position that shows `point`.
    pub fn point_to_position(&self, model: &Model, point: PixelPosition) -> (p: Position)
        requires
            self.window_size.addressable(),
        ensures
            p == self.position_of(model@.scene.camera, point),
    {
        let camera = model.camera().position;
        let center = region_center(self.window_size);
        Position {
            x: point.x as i32 + center.x - camera.x as i32,
            y: point.y as i32 + center.y - camera.y as i32,
        }
    }

    /// The canvas position that `position` shows.
    pub fn position_to_point(&self, model: &Model, position: Position) -> (p: PixelPosition)
        requires
            self.window_size.addressable(),
        ensures
            p == self.point_of(model@.scene.camera, position),
    {
        let camera = model.camera().position;
        let center = region_center(self.window_size);
        let x: i64 = position.x as i64 + camera.x as i64 - center.x as i64;
        let y: i64 = position.y as i64 + camera.y as i64 - center.y as i64;
        PixelPosition { y: keep_low_16(y), x: keep_low_16(x) }
    }

    /// What is drawn for `pixels`: for each in turn, the square that shows
    /// it, in its colour.
    pub fn spray(&self, model: &Model, pixels: &Vec<(PixelPosition, Color)>) -> (v: Vec<
        (Position, Color),
    >)
        requires
            self.window_size.addressable(),
            model.wf(),
        ensures
            v@ == dots(*self, model@.scene.camera, model@.scene.scale, pixels@),
    {
        let ghost camera = model@.scene.camera;
        let ghost scale = model@.scene.scale;
        let mut v: Vec<(Position, Color)> = Vec::new();
        let mut i: usize = 0;
        assert(pixels@.take(0) =~= Seq::<(PixelPosition, Color)>::empty());
        while i < pixels.len()
            invariant
                i <= pixels@.len(),
                model.wf(),
                self.window_size.addressable(),
                camera == model@.scene.camera,
                scale == model@.scene.scale,
                v@ == dots(*self, camera, scale, pixels@.take(i as int)),
            decreases pixels@.len() - i,
        {
            let (point, color) = pixels[i];
            let block = self.dot(model, point);
            let ghost before = v@;
            proof {
                assert(pixels@.take(i + 1).drop_last() =~= pixels@.take(i as int));
                assert(pixels@.take(i + 1).last() == (point, color));
            }
            let mut j: usize = 0;
            while j < block.len()
                invariant
                    j <= block@.len(),
                    v@ == before + tinted(block@.take(j as int), color),
                decreases block@.len() - j,
            {
                v.push((block[j], color));
                proof {
                    assert(tinted(block@.take(j + 1), color) =~= tinted(
                        block@.take(j as int),
                        color,
                    ).push((block@[j as int], color)));
                }
                j = j + 1;
            }
            assert(block@.take(block@.len() as int) =~= block@);
            i = i + 1;
        }
        assert(pixels@.take(pixels@.len() as int) =~= pixels@);
        v
    }

    /// The window positions that show the canvas pixel `point` at the
    /// model's zoom: a square with the pixel's window position at its
    /// upper left corner, row by row.
    pub fn dot(&self, model: &Model, point: PixelPosition) -> (v: Vec<Position>)
        requires
            self.window_size.addressable(),
            model.wf(),
        ensures
            v@ == square(self.position_of(model@.scene.camera, point), model@.scene.scale),
    {
        let p = self.point_to_position(model, point);
        let scale = model.scale() as i32;
        let ghost all = square(p, model@.scene.scale);
        let mut v: Vec<Position> = Vec::new();
        let mut y: i32 = 0;
        while y < scale
            invariant
                0 <= y <= scale,
                1 <= scale <= 255,
                scale == model@.scene.scale,
                all == square(p, model@.scene.scale),
                -0x1_0000int <= p.x <= 0x4001_0000int,
                -0x1_0000int <= p.y <= 0x4001_0000int,
                v@ == all.take(y * scale),
                0 <= y * scale <= scale * scale,
            decreases scale - y,
        {
            let mut x: i32 = 0;
            while x < scale
                invariant
                    0 <= x <= scale,
                    0 <= y < scale,
                    1 <= scale <= 255,
                    scale == model@.scene.scale,
                    all == square(p, model@.scene.scale),
                    -0x1_0000int <= p.x <= 0x4001_0000int,
                    -0x1_0000int <= p.y <= 0x4001_0000int,
                    v@ == all.take(y * scale + x),
                    0 <= y * scale + x <= scale * scale,
                decreases scale - x,
            {
                let ghost k = y * scale + x;
                proof {
                    assert(y * scale + scale <= scale * scale) by (nonlinear_arith)
                        requires
                            y + 1 <= scale,
                            scale >= 1,
                    ;
                    lemma_fundamental_div_mod_converse(k, scale as int, y as int, x as int);
                    assert(all[k] == Position { x: (p.x + x) as i32, y: (p.y + y) as i32 });
                    assert(all.take(k + 1) =~= all.take(k).push(all[k]));
                }
                v.push(Position { x: p.x + x, y: p.y + y });
                x = x + 1;
            }
            proof {
                assert(y * scale + scale == (y + 1) * scale) by (nonlinear_arith);
                assert((y + 1) * scale <= scale * scale) by (nonlinear_arith)
                    requires
                        y + 1 <= scale,
                        scale >= 1,
                ;
            }
            y = y + 1;
        }
        proof {
            assert(y * scale == scale * scale) by (nonlinear_arith)
                requires
                    y == scale,
            ;
            assert(all.take(scale * scale) =~= all);
        }
        v
    }
}

/// The 16-bit value that the low 16 bits of `v` stand for.
fn keep_low_16(v: i64) -> (r: i16)
    requires
        -0x1_0000_0000 <= v <= 0x1_0000_0000,
    ensures
        r == low_16(v as int),
{
    let lifted: i64 = v + 0x8000 + 0x1_0000_0000;
    let low: i64 = lifted % 0x1_0000;
    proof {
        let q = lifted / 0x1_0000;
        assert(lifted == 0x1_0000 * q + low);
        lemma_fundamental_div_mod_converse(v + 0x8000, 0x1_0000, q - 0x1_0000, low as int);
    }
    (low - 0x8000) as i16
}

/// The window positions of a square of side `scale` whose upper left
/// corner is `p`, row by row.
pub open spec fn square(p: Position, scale: u8) -> Seq<Position> {
    Seq::new(
        (scale * scale) as nat,
        |i: int|
            Position {
                x: (p.x + i % (scale as int)) as i32,
                y: (p.y + i / (scale as int)) as i32,
            },
    )
}

/// `positions`, each with `color`.
pub open spec fn tinted(positions: Seq<Position>, color: Color) -> Seq<(Position, Color)> {
    Seq::new(positions.len(), |i: int| (positions[i], color))
}

/// What is drawn for `pixels` in a window: for each pixel in turn, the
/// square that shows it, in its colour.
pub open spec fn dots(
    window: WindowCanvas,
    camera: PixelPosition,
    scale: u8,
    pixels: Seq<(PixelPosition, Color)>,
) -> Seq<(Position, Color)>
    decreases pixels.len(),
{
    if pixels.len() == 0 {
        Seq::empty()
    } else {
        dots(window, camera, scale, pixels.drop_last()) + tinted(
            square(window.position_of(camera, pixels.last().0), scale),
            pixels.last().1,
        )
    }
}

/// `points`, each with `color`.
pub open spec fn colored(points: Seq<PixelPosition>, color: Color) -> Seq<(PixelPosition, Color)> {
    Seq::new(points.len(), |i: int| (points[i], color))
}

/// What is drawn over the background for a model, in drawing order: the
/// visible painted pixels; then, in the drawing colour, the marked pixels
/// where a marking is in progress, or else the cursor while it shows; and
/// over all of that the overlay pixels of the frames whose window holds
/// the clock.
pub open spec fn drawn(m: ModelView, window: WindowCanvas, blink: Blink) -> Seq<(Position, Color)> {
    let brush = m.scene.colors[m.scene.selected.0];
    let top = match m.marker {
        Some(marker) => colored(marker.covered(), brush),
        None => if blink.show {
            seq![(m.scene.cursor, brush)]
        } else {
            Seq::empty()
        },
    };
    dots(
        window,
        m.scene.camera,
        m.scene.scale,
        m.visible_pixels(window.window_size) + top + m.overlay(),
    )
}

/// The view: the key bindings and the cursor's blinking.
#[derive(Debug)]
pub struct View {
    key_config: KeyConfig,
    cursor: Blink,
}

impl View {
    /// The bindings are in order.
    pub closed spec fn wf(&self) -> bool {
        self.key_config.wf()
    }

    /// The cursor's blinking.
    pub closed spec fn blink(&self) -> Blink {
        self.cursor
    }

    /// The key bindings.
    pub closed spec fn bindings(&self) -> KeyConfig {
        self.key_config
    }

    /// A view with the given bindings, whose cursor is hidden.
    pub fn new(key_config: KeyConfig) -> (v: Self)
        requires
            key_config.wf(),
        ensures
            v.wf(),
            v.bindings() == key_config,
            v.blink() == (Blink { show: false, switch_time: 0 }),
    {
        View { key_config, cursor: Blink { show: false, switch_time: 0 } }
    }

    /// Replaces the key bindings.
    pub fn set_key_config(&mut self, config: KeyConfig)
        requires
            config.wf(),
        ensures
            final(self).wf(),
            final(self).bindings() == config,
            final(self).blink() == old(self).blink(),
    {
        self.key_config = config;
    }

    /// The state in which the model is left by the command that `event`
    /// is bound to. An event that is no key stroke, a key that is not
    /// bound, and an intent that the model refuses change nothing.
    pub open spec fn model_after(&self, m: ModelView, event: Event) -> ModelView {
        match event {
            Event::Key(key) => if self.bindings().bound().contains(key) {
                match self.bindings().binding(key) {
                    KeyCommand::Quit => ModelView { quit: true, ..m },
                    KeyCommand::Model(command) => match m.step(command) {
                        Ok(state) => state,
                        Err(_) => m,
                    },
                }
            } else {
                m
            },
            Event::Other => m,
        }
    }

    /// Whether `event` is a key stroke bound to an intent that reads the
    /// pixels that the marking covers.
    pub open spec fn scans(&self, event: Event) -> bool {
        match event {
            Event::Key(key) => self.bindings().bound().contains(key) && (match self.bindings().binding(
                key,
            ) {
                KeyCommand::Quit => false,
                KeyCommand::Model(command) => reads_marking(command),
            }),
            Event::Other => false,
        }
    }

    /// Whether `event` can be handed to [`View::handle_event`]: it leads
    /// to no intent that reads the marked pixels, or they can be counted.
    /// It always can where `usize` has 64 bits.
    pub fn can_handle(&self, model: &Model, event: Event) -> (b: bool)
        requires
            self.wf(),
            model.wf(),
        ensures
            b == (self.scans(event) ==> model@.countable()),
    {
        match event {
            Event::Key(key) => match self.key_config.get_command(key) {
                Some(KeyCommand::Model(command)) => model.can_apply(command),
                Some(KeyCommand::Quit) => true,
                None => true,
            },
            Event::Other => true,
        }
    }

    /// Takes note of `event`, which comes at the time `now` in
    /// milliseconds: the cursor's blinking goes on, and the command that a
    /// key stroke is bound to is carried out. A key stroke that leads to
    /// an intent that reads the marked pixels needs them to be countable;
    /// see [`View::can_handle`].
    pub fn handle_event(&mut self, model: &mut Model, event: Event, now: u64) -> (r: Result<
        (),
        Failure,
    >)
        requires
            old(self).wf(),
            old(model).wf(),
            old(self).scans(event) ==> old(model)@.countable(),
            now <= u64::MAX - 1000,
        ensures
            r is Ok,
            final(self).wf(),
            final(self).bindings() == old(self).bindings(),
            final(self).blink() == old(self).blink().after(event is Key, now),
            final(model).wf(),
            final(model)@ == old(self).model_after(old(model)@, event),
    {
        match event {
            Event::Key(key) => {
                self.cursor.handle_event(true, now);
                match self.key_config.get_command(key) {
                    Some(KeyCommand::Quit) => {
                        let _ = model.apply(&crate::command::Command::Quit);
                    },
                    Some(KeyCommand::Model(command)) => {
                        let _ = model.apply(command);
                    },
                    None => {},
                }
            },
            Event::Other => {
                self.cursor.handle_event(false, now);
            },
        }
        Ok(())
    }

    /// What is to be drawn over the background, in drawing order: the
    /// painted pixels, the marking or the cursor, and the frame overlays.
    pub fn render(&self, model: &Model, window: &WindowCanvas) -> (v: Vec<(Position, Color)>)
        requires
            model.wf(),
            model@.countable(),
            window.window_size.addressable(),
            window.window_size.width * window.window_size.height <= usize::MAX,
        ensures
            v@ == drawn(model@, *window, self.blink()),
    {
        let brush = model.brush_color();
        let mut pixels = model.visible_pixels(window.window_size);
        let ghost base = pixels@;
        match model.marker() {
            Some(marker) => {
                let points = marker.marked_points();
                let mut i: usize = 0;
                while i < points.len()
                    invariant
                        i <= points@.len(),
                        pixels@ == base + colored(points@.take(i as int), brush),
                    decreases points@.len() - i,
                {
                    pixels.push((points[i], brush));
                    proof {
                        assert(colored(points@.take(i + 1), brush) =~= colored(
                            points@.take(i as int),
                            brush,
                        ).push((points@[i as int], brush)));
                    }
                    i = i + 1;
                }
                assert(points@.take(points@.len() as int) =~= points@);
            },
            None => {
                if self.cursor.show {
                    pixels.push((model.cursor().position, brush));
                    assert(pixels@ =~= base + seq![(model@.scene.cursor, brush)]);
                } else {
                    assert(pixels@ =~= base + Seq::<(PixelPosition, Color)>::empty());
                }
            },
        }
        let ghost below = pixels@;
        let overlay = model.overlay_pixels();
        let mut j: usize = 0;
        assert(below + overlay@.take(0) =~= below);
        while j < overlay.len()
            invariant
                j <= overlay@.len(),
                pixels@ == below + overlay@.take(j as int),
            decreases overlay@.len() - j,
        {
            pixels.push(overlay[j]);
            proof {
                assert(below + overlay@.take(j + 1) =~= (below + overlay@.take(j as int)).push(
                    overlay@[j as int],
                ));
            }
            j = j + 1;
        }
        assert(overlay@.take(overlay@.len() as int) =~= overlay@);
        window.spray(model, &pixels)
    }

    /// The last layer of [`View::render`] by itself: what is to be drawn
    /// for the frames whose window holds the clock, the squares that show
    /// their overlay pixels, frame by frame.
    pub fn render_frames(&self, model: &Model, window: &WindowCanvas) -> (v: Vec<(Position, Color)>)
        requires
            model.wf(),
            window.window_size.addressable(),
        ensures
            v@ == dots(*window, model@.scene.camera, model@.scene.scale, model@.overlay()),
    {
        let overlay = model.overlay_pixels();
        window.spray(model, &overlay)
    }
}

} // verus!
