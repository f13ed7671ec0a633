use dotedit::command::{Command, MoveDestination};
use dotedit::config::{Key, KeyCode, KeyCommand, KeyConfig};
use dotedit::editor::Model;
use dotedit::marker::MarkKind;
use dotedit::model::{Color, PixelPosition, PixelPositionDelta};
use dotedit::view::{Blink, Event, View, WindowCanvas};
use dotedit::window::{Position, Size};

const RED: Color = Color { r: 255, g: 0, b: 0, a: 255 };
const BLUE: Color = Color { r: 0, g: 0, b: 255, a: 255 };
const BLACK: Color = Color { r: 0, g: 0, b: 0, a: 255 };

fn at(x: i16, y: i16) -> PixelPosition {
    PixelPosition { x, y }
}

fn pos(x: i32, y: i32) -> Position {
    Position { x, y }
}

fn step(x: i16, y: i16) -> Command {
    Command::Move(MoveDestination::Delta(PixelPositionDelta::from_xy(x, y)))
}

fn run(model: &mut Model, commands: Vec<Command>) {
    for command in commands {
        assert_eq!(model.apply(&command), Ok(()));
    }
}

fn letter(c: char) -> Key {
    Key { ctrl: false, alt: false, code: KeyCode::Char(c) }
}

#[test]
fn the_window_shows_painted_pixels_around_the_camera() {
    let mut model = Model::new();
    run(
        &mut model,
        vec![
            Command::Import(vec![
                (at(-1, 1), RED),
                (at(1, -1), BLUE),
                (at(0, 0), BLACK),
                (at(2, 0), RED),
                (at(0, -2), RED),
            ]),
        ],
    );
    let visible = model.visible_pixels(Size { width: 3, height: 3 });
    assert_eq!(visible, vec![(at(1, -1), BLUE), (at(0, 0), BLACK), (at(-1, 1), RED)]);
    let wide = model.visible_pixels(Size { width: 4, height: 1 });
    assert_eq!(wide, vec![(at(0, 0), BLACK)]);
    let wider = model.visible_pixels(Size { width: 5, height: 1 });
    assert_eq!(wider, vec![(at(0, 0), BLACK), (at(2, 0), RED)]);
    assert_eq!(model.visible_pixels(Size { width: 0, height: 9 }), vec![]);
    assert_eq!(model.visible_pixels(Size { width: 9, height: 0 }), vec![]);
}

#[test]
fn the_visible_pixels_follow_the_camera() {
    let mut model = Model::new();
    run(
        &mut model,
        vec![
            Command::Draw,
            step(10, 10),
            Command::Draw,
            Command::Center(dotedit::command::CenterPoint::Cursor),
        ],
    );
    assert_eq!(
        model.visible_pixels(Size { width: 2, height: 2 }),
        vec![(at(10, 10), BLACK)]
    );
    assert_eq!(
        model.visible_pixels(Size { width: 21, height: 21 }),
        vec![(at(0, 0), BLACK), (at(10, 10), BLACK)]
    );
    assert_eq!(
        model.visible_pixels(Size { width: 20, height: 20 }),
        vec![(at(0, 0), BLACK), (at(10, 10), BLACK)]
    );
    assert_eq!(
        model.visible_pixels(Size { width: 19, height: 19 }),
        vec![(at(10, 10), BLACK)]
    );
}

#[test]
fn a_window_at_the_edge_of_the_canvas_shows_what_is_on_it() {
    let mut model = Model::new();
    run(
        &mut model,
        vec![
            step(i16::MAX, i16::MAX),
            Command::Draw,
            Command::Center(dotedit::command::CenterPoint::Cursor),
        ],
    );
    assert_eq!(
        model.visible_pixels(Size { width: 7, height: 7 }),
        vec![(at(i16::MAX, i16::MAX), BLACK)]
    );
}

#[test]
fn a_window_too_large_to_address_shows_nothing() {
    let mut model = Model::new();
    run(&mut model, vec![Command::Draw]);
    assert_eq!(model.visible_pixels(Size { width: u32::MAX, height: 1 }), vec![]);
    assert_eq!(model.visible_pixels(Size { width: 1, height: 1 << 31 }), vec![]);
    assert!(!Size { width: 1, height: 1 << 31 }.is_addressable());
    assert!(Size { width: 1, height: (1 << 31) - 1 }.is_addressable());
}

#[test]
fn canvas_points_and_window_positions_convert() {
    let mut model = Model::new();
    run(&mut model, vec![step(2, 1), Command::Center(dotedit::command::CenterPoint::Cursor)]);
    let window = WindowCanvas::new(Size { width: 10, height: 6 });
    assert_eq!(window.window_size, Size { width: 10, height: 6 });
    assert_eq!(window.point_to_position(&model, at(4, 4)), pos(7, 6));
    assert_eq!(window.position_to_point(&model, pos(7, 6)), at(4, 4));
    assert_eq!(window.position_to_point(&model, pos(0, 0)), at(-3, -2));
    assert_eq!(window.point_to_position(&model, at(-3, -2)), pos(0, 0));
    assert_eq!(window.position_to_point(&model, pos(10, 6)), at(7, 4));
}

#[test]
fn a_position_far_outside_the_canvas_keeps_its_low_16_bits() {
    let model = Model::new();
    let window = WindowCanvas::new(Size { width: 10, height: 6 });
    assert_eq!(window.position_to_point(&model, pos(70000, 0)), at(4459, -3));
    assert_eq!(window.position_to_point(&model, pos(-70000, 32771)), at(-4469, -32768));
}

#[test]
fn a_dot_is_a_square_of_the_zoom() {
    let mut model = Model::new();
    let window = WindowCanvas::new(Size { width: 4, height: 4 });
    assert_eq!(window.dot(&model, at(0, 0)), vec![pos(2, 2)]);
    run(&mut model, vec![Command::Scale(1)]);
    assert_eq!(
        window.dot(&model, at(0, 0)),
        vec![pos(2, 2), pos(3, 2), pos(2, 3), pos(3, 3)]
    );
    run(&mut model, vec![Command::Scale(1)]);
    assert_eq!(
        window.dot(&model, at(-1, 1)),
        vec![
            pos(1, 3),
            pos(2, 3),
            pos(3, 3),
            pos(1, 4),
            pos(2, 4),
            pos(3, 4),
            pos(1, 5),
            pos(2, 5),
            pos(3, 5),
        ]
    );
}

#[test]
fn the_cursor_blinks() {
    let mut blink = Blink { show: false, switch_time: 0 };
    blink.handle_event(true, 100);
    assert_eq!(blink, Blink { show: true, switch_time: 1100 });
    blink.handle_event(false, 1099);
    assert_eq!(blink, Blink { show: true, switch_time: 1100 });
    blink.handle_event(false, 1100);
    assert_eq!(blink, Blink { show: false, switch_time: 1600 });
    blink.handle_event(false, 1700);
    assert_eq!(blink, Blink { show: true, switch_time: 2200 });
    blink.handle_event(true, 2300);
    assert_eq!(blink, Blink { show: true, switch_time: 3300 });
    let mut fresh = Blink { show: false, switch_time: 0 };
    fresh.handle_event(false, 0);
    assert_eq!(fresh, Blink { show: true, switch_time: 500 });
}

#[test]
fn a_bound_key_reaches_the_model() {
    let mut config = KeyConfig::new();
    config.bind(letter('d'), KeyCommand::Model(Command::Draw));
    config.bind(letter('l'), KeyCommand::Model(step(1, 0)));
    config.bind(letter('q'), KeyCommand::Quit);
    config.bind(letter('c'), KeyCommand::Model(Command::Cut));
    let mut view = View::new(config);
    let mut model = Model::new();
    assert_eq!(view.handle_event(&mut model, Event::Key(letter('d')), 0), Ok(()));
    assert_eq!(model.pixel(at(0, 0)), Some(BLACK));
    assert_eq!(view.handle_event(&mut model, Event::Key(letter('l')), 10), Ok(()));
    assert_eq!(model.cursor().position, at(1, 0));
    assert_eq!(view.handle_event(&mut model, Event::Key(letter('x')), 20), Ok(()));
    assert_eq!(view.handle_event(&mut model, Event::Other, 30), Ok(()));
    assert_eq!(view.handle_event(&mut model, Event::Key(letter('c')), 40), Ok(()));
    assert_eq!(model.log_len(), 2);
    assert!(!model.has_quit());
    assert_eq!(view.handle_event(&mut model, Event::Key(letter('q')), 50), Ok(()));
    assert!(model.has_quit());
}

#[test]
fn set_key_config_replaces_the_bindings() {
    let mut view = View::new(KeyConfig::new());
    let mut model = Model::new();
    assert_eq!(view.handle_event(&mut model, Event::Key(letter('d')), 0), Ok(()));
    assert_eq!(model.log_len(), 0);
    let mut config = KeyConfig::new();
    config.bind(letter('d'), KeyCommand::Model(Command::Draw));
    view.set_key_config(config);
    assert_eq!(view.handle_event(&mut model, Event::Key(letter('d')), 0), Ok(()));
    assert_eq!(model.log_len(), 1);
}

#[test]
fn render_draws_pixels_then_the_cursor_while_it_shows() {
    let mut config = KeyConfig::new();
    config.bind(letter('d'), KeyCommand::Model(Command::Draw));
    let mut view = View::new(config);
    let mut model = Model::new();
    let window = WindowCanvas::new(Size { width: 3, height: 3 });
    assert_eq!(view.render(&model, &window), vec![]);
    assert_eq!(view.handle_event(&mut model, Event::Key(letter('d')), 0), Ok(()));
    run(&mut model, vec![Command::Dip(RED), step(1, 0)]);
    assert_eq!(
        view.render(&model, &window),
        vec![(pos(1, 1), BLACK), (pos(2, 1), RED)]
    );
    assert_eq!(view.handle_event(&mut model, Event::Other, 1000), Ok(()));
    assert_eq!(view.render(&model, &window), vec![(pos(1, 1), BLACK)]);
}

#[test]
fn render_draws_the_marked_pixels_in_the_drawing_colour() {
    let view = View::new(KeyConfig::new());
    let mut model = Model::new();
    run(
        &mut model,
        vec![
            Command::Draw,
            Command::Dip(BLUE),
            Command::Scale(1),
            Command::Mark(MarkKind::Line),
            step(1, 0),
        ],
    );
    let window = WindowCanvas::new(Size { width: 2, height: 2 });
    assert_eq!(
        view.render(&model, &window),
        vec![
            (pos(1, 1), BLACK),
            (pos(2, 1), BLACK),
            (pos(1, 2), BLACK),
            (pos(2, 2), BLACK),
            (pos(1, 1), BLUE),
            (pos(2, 1), BLUE),
            (pos(1, 2), BLUE),
            (pos(2, 2), BLUE),
            (pos(2, 1), BLUE),
            (pos(3, 1), BLUE),
            (pos(2, 2), BLUE),
            (pos(3, 2), BLUE),
        ]
    );
}

#[test]
fn render_frames_draws_the_overlays_in_their_window() {
    let view = View::new(KeyConfig::new());
    let mut model = Model::new();
    let frame = dotedit::frame::Frame::new(
        "f".to_string(),
        dotedit::clock::Ticks(2),
        dotedit::clock::Ticks(3),
        vec![(at(0, 0), RED), (at(-1, 0), BLUE)],
    );
    run(&mut model, vec![Command::Embed(frame), Command::Scale(1)]);
    let window = WindowCanvas::new(Size { width: 4, height: 4 });
    assert_eq!(view.render_frames(&model, &window), vec![]);
    run(&mut model, vec![Command::Tick(2)]);
    assert_eq!(
        view.render_frames(&model, &window),
        vec![
            (pos(2, 2), RED),
            (pos(3, 2), RED),
            (pos(2, 3), RED),
            (pos(3, 3), RED),
            (pos(1, 2), BLUE),
            (pos(2, 2), BLUE),
            (pos(1, 3), BLUE),
            (pos(2, 3), BLUE),
        ]
    );
    run(&mut model, vec![Command::Tick(3)]);
    assert_eq!(view.render_frames(&model, &window), vec![]);
}

#[test]
fn render_shows_the_overlay_of_a_frame_in_its_window() {
    let green = Color { r: 0, g: 255, b: 0, a: 255 };
    let view = View::new(KeyConfig::new());
    let mut model = Model::new();
    let frame = dotedit::frame::Frame::new(
        "f".to_string(),
        dotedit::clock::Ticks(0),
        dotedit::clock::Ticks(10),
        vec![(at(5, 5), green)],
    );
    run(&mut model, vec![Command::Embed(frame), Command::Tick(5)]);
    let window = WindowCanvas::new(Size { width: 11, height: 11 });
    assert_eq!(view.render(&model, &window), vec![(pos(10, 10), green)]);
    assert_eq!(view.render_frames(&model, &window), vec![(pos(10, 10), green)]);
    run(&mut model, vec![Command::Tick(10)]);
    assert_eq!(view.render(&model, &window), vec![]);
}

#[test]
fn render_draws_overlays_over_pixels_and_cursor() {
    let mut config = KeyConfig::new();
    config.bind(letter('d'), KeyCommand::Model(Command::Draw));
    let mut view = View::new(config);
    let mut model = Model::new();
    let frame = dotedit::frame::Frame::new(
        "f".to_string(),
        dotedit::clock::Ticks(0),
        dotedit::clock::Ticks(1),
        vec![(at(0, 0), RED), (at(1, 1), BLUE)],
    );
    assert_eq!(view.handle_event(&mut model, Event::Key(letter('d')), 0), Ok(()));
    run(&mut model, vec![Command::Embed(frame)]);
    let window = WindowCanvas::new(Size { width: 3, height: 3 });
    assert_eq!(
        view.render(&model, &window),
        vec![(pos(1, 1), BLACK), (pos(1, 1), BLACK), (pos(1, 1), RED), (pos(2, 2), BLUE)]
    );
}

#[test]
fn an_event_can_be_handled_unless_it_reads_an_uncountable_marking() {
    let mut config = KeyConfig::new();
    config.bind(letter('d'), KeyCommand::Model(Command::Draw));
    config.bind(letter('u'), KeyCommand::Model(Command::Undo));
    let view = View::new(config);
    let mut model = Model::new();
    run(
        &mut model,
        vec![
            step(i16::MIN, i16::MIN),
            Command::Mark(MarkKind::Rectangle),
            step(-1, -1),
        ],
    );
    assert_eq!(model.cursor().position, at(i16::MAX, i16::MAX));
    let countable = model.is_countable();
    assert_eq!(countable, usize::BITS >= 64);
    assert_eq!(view.can_handle(&model, Event::Key(letter('d'))), countable);
    assert!(view.can_handle(&model, Event::Key(letter('u'))));
    assert!(view.can_handle(&model, Event::Key(letter('x'))));
    assert!(view.can_handle(&model, Event::Other));
    assert_eq!(model.can_apply(&Command::Flip(dotedit::command::FlipDirection::Vertical)), countable);
    assert!(model.can_apply(&Command::Cancel));
    assert!(model.can_apply(&Command::Redo));
}
