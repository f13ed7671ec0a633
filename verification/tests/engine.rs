use dotedit::command::{
    AnchorName, CenterPoint, Checkout, Command, FlipDirection, MoveDestination, PlayCommand,
    RemoveTarget,
};
use dotedit::clock::Ticks;
use dotedit::editor::Model;
use dotedit::failure::Failure;
use dotedit::frame::Frame;
use dotedit::marker::MarkKind;
use dotedit::model::{Color, ColorIndex, PixelPosition, PixelPositionDelta};

const RED: Color = Color { r: 255, g: 0, b: 0, a: 255 };
const GREEN: Color = Color { r: 0, g: 255, b: 0, a: 255 };
const BLUE: Color = Color { r: 0, g: 0, b: 255, a: 255 };
const BLACK: Color = Color { r: 0, g: 0, b: 0, a: 255 };
const WHITE: Color = Color { r: 255, g: 255, b: 255, a: 255 };

fn at(x: i16, y: i16) -> PixelPosition {
    PixelPosition { x, y }
}

fn step(x: i16, y: i16) -> Command {
    Command::Move(MoveDestination::Delta(PixelPositionDelta::from_xy(x, y)))
}

fn run(model: &mut Model, commands: Vec<Command>) {
    for command in commands {
        assert_eq!(model.apply(&command), Ok(()));
    }
}

#[test]
fn new_session_has_documented_defaults() {
    let model = Model::new();
    assert_eq!(model.cursor().position, at(0, 0));
    assert_eq!(model.camera().position, at(0, 0));
    assert_eq!(model.palette().selected(), ColorIndex(4));
    assert_eq!(model.palette().get(ColorIndex(0)), Some(WHITE));
    assert_eq!(model.palette().get(ColorIndex(1)), Some(RED));
    assert_eq!(model.palette().get(ColorIndex(2)), Some(GREEN));
    assert_eq!(model.palette().get(ColorIndex(3)), Some(BLUE));
    assert_eq!(model.palette().get(ColorIndex(4)), Some(BLACK));
    assert_eq!(model.palette().get(ColorIndex(5)), None);
    assert_eq!(model.brush_color(), BLACK);
    assert_eq!(model.scale(), 1);
    assert_eq!(model.background(), WHITE);
    assert_eq!(model.clock(), Ticks(0));
    assert_eq!(model.version(), 0);
    assert_eq!(model.log_len(), 0);
    assert!(model.marker().is_none());
    assert!(!model.is_playing());
    assert!(!model.has_quit());
    assert!(model.canvas().positions().is_empty());
}

#[test]
fn marked_path_is_drawn_and_undone_in_one_step() {
    let mut model = Model::new();
    run(
        &mut model,
        vec![Command::Dip(RED), Command::Mark(MarkKind::Point), step(1, 0), step(0, 1), Command::Draw],
    );
    assert_eq!(
        model.canvas().positions(),
        vec![at(0, 0), at(1, 0), at(1, 1)]
    );
    assert_eq!(model.pixel(at(0, 0)), Some(RED));
    assert_eq!(model.pixel(at(1, 0)), Some(RED));
    assert_eq!(model.pixel(at(1, 1)), Some(RED));
    assert_eq!(model.apply(&Command::Undo), Ok(()));
    assert_eq!(model.pixel(at(0, 0)), None);
    assert_eq!(model.pixel(at(1, 0)), None);
    assert_eq!(model.pixel(at(1, 1)), None);
    assert!(model.canvas().positions().is_empty());
}

#[test]
fn checkout_of_a_tag_takes_back_later_drawing() {
    let mut model = Model::new();
    run(
        &mut model,
        vec![
            Command::Tag("v1".to_string()),
            Command::Dip(BLUE),
            Command::Draw,
        ],
    );
    assert_eq!(model.pixel(at(0, 0)), Some(BLUE));
    assert_eq!(
        model.apply(&Command::Checkout(Checkout::Tag("v1".to_string()))),
        Ok(())
    );
    assert_eq!(model.pixel(at(0, 0)), None);
    assert_eq!(model.canvas().get(at(0, 0)), None);
    assert_eq!(model.version(), 1);
    assert_eq!(model.log_len(), 3);
}

#[test]
fn checkout_twice_is_checkout_once() {
    let mut model = Model::new();
    run(
        &mut model,
        vec![
            Command::Draw,
            Command::Tag("a".to_string()),
            step(3, 0),
            Command::Draw,
            step(0, 2),
            Command::Draw,
        ],
    );
    let checkout = Command::Checkout(Checkout::Tag("a".to_string()));
    assert_eq!(model.apply(&checkout), Ok(()));
    let version = model.version();
    let painted = model.canvas().positions();
    let cursor = model.cursor().position;
    assert_eq!(version, 2);
    assert_eq!(painted, vec![at(0, 0)]);
    assert_eq!(model.apply(&checkout), Ok(()));
    assert_eq!(model.version(), version);
    assert_eq!(model.canvas().positions(), painted);
    assert_eq!(model.cursor().position, cursor);
    // redo elsewhere, then checkout again
    run(&mut model, vec![Command::Redo, Command::Redo]);
    assert_eq!(model.canvas().positions(), vec![at(0, 0), at(3, 0)]);
    assert_eq!(model.apply(&checkout), Ok(()));
    assert_eq!(model.version(), version);
    assert_eq!(model.canvas().positions(), painted);
    assert_eq!(model.cursor().position, cursor);
    assert_eq!(model.log_len(), 6);
}

#[test]
fn checkout_of_an_unknown_tag_fails() {
    let mut model = Model::new();
    run(&mut model, vec![Command::Draw]);
    assert_eq!(
        model.apply(&Command::Checkout(Checkout::Tag("nowhere".to_string()))),
        Err(Failure::UnknownTag)
    );
    assert_eq!(model.version(), 1);
    assert_eq!(model.pixel(at(0, 0)), Some(BLACK));
}

#[test]
fn undoing_a_tag_removes_it() {
    let mut model = Model::new();
    run(&mut model, vec![Command::Tag("t".to_string())]);
    assert_eq!(model.resolve_tag(&"t".to_string()), Ok(0));
    run(&mut model, vec![Command::Undo]);
    assert_eq!(model.resolve_tag(&"t".to_string()), Err(Failure::UnknownTag));
    run(&mut model, vec![Command::Redo]);
    assert_eq!(model.resolve_tag(&"t".to_string()), Ok(0));
}

#[test]
fn undo_reverts_and_redo_restores() {
    let mut model = Model::new();
    run(&mut model, vec![Command::Draw, step(1, 0), Command::Dip(RED), Command::Draw]);
    assert_eq!(model.version(), 4);
    assert_eq!(model.pixel(at(1, 0)), Some(RED));
    run(&mut model, vec![Command::Undo]);
    assert_eq!(model.version(), 3);
    assert_eq!(model.pixel(at(1, 0)), None);
    assert_eq!(model.pixel(at(0, 0)), Some(BLACK));
    run(&mut model, vec![Command::Redo]);
    assert_eq!(model.version(), 4);
    assert_eq!(model.pixel(at(1, 0)), Some(RED));
    run(&mut model, vec![Command::Undo, Command::Undo]);
    assert_eq!(model.palette().selected(), ColorIndex(4));
    run(&mut model, vec![Command::Undo]);
    assert_eq!(model.cursor().position, at(0, 0));
    run(&mut model, vec![Command::Redo, Command::Redo, Command::Redo]);
    assert_eq!(model.cursor().position, at(1, 0));
    assert_eq!(model.palette().selected(), ColorIndex(1));
    assert_eq!(model.pixel(at(1, 0)), Some(RED));
    assert_eq!(model.log_len(), 4);
}

#[test]
fn undo_and_redo_at_the_ends_of_history_do_nothing() {
    let mut model = Model::new();
    assert_eq!(model.apply(&Command::Undo), Ok(()));
    assert_eq!(model.apply(&Command::Redo), Ok(()));
    assert_eq!(model.version(), 0);
    assert_eq!(model.log_len(), 0);
    run(&mut model, vec![Command::Draw]);
    assert_eq!(model.apply(&Command::Redo), Ok(()));
    assert_eq!(model.version(), 1);
    assert_eq!(model.pixel(at(0, 0)), Some(BLACK));
    run(&mut model, vec![Command::Undo, Command::Undo]);
    assert_eq!(model.version(), 0);
    assert_eq!(model.log_len(), 1);
}

#[test]
fn a_new_intent_after_undo_discards_what_could_be_redone() {
    let mut model = Model::new();
    run(
        &mut model,
        vec![Command::Draw, step(1, 0), Command::Draw, Command::Undo, Command::Undo],
    );
    assert_eq!(model.version(), 1);
    assert_eq!(model.log_len(), 3);
    run(&mut model, vec![step(0, 5)]);
    assert_eq!(model.log_len(), 2);
    assert_eq!(model.version(), 2);
    run(&mut model, vec![Command::Redo]);
    assert_eq!(model.version(), 2);
    assert_eq!(model.cursor().position, at(0, 5));
    assert_eq!(model.canvas().positions(), vec![at(0, 0)]);
}

#[test]
fn drawing_the_same_colour_again_logs_nothing() {
    let mut model = Model::new();
    run(&mut model, vec![Command::Draw]);
    assert_eq!(model.log_len(), 1);
    run(&mut model, vec![Command::Draw]);
    assert_eq!(model.log_len(), 1);
    run(&mut model, vec![Command::Erase]);
    assert_eq!(model.log_len(), 2);
    assert_eq!(model.pixel(at(0, 0)), None);
    run(&mut model, vec![Command::Erase]);
    assert_eq!(model.log_len(), 2);
    assert_eq!(model.take_applied_commands().len(), 2);
}

#[test]
fn a_move_or_a_selection_that_changes_nothing_is_still_logged() {
    let mut model = Model::new();
    run(&mut model, vec![step(0, 0)]);
    assert_eq!((model.version(), model.log_len()), (1, 1));
    run(&mut model, vec![Command::Dip(BLACK)]);
    assert_eq!((model.version(), model.log_len()), (2, 2));
    assert_eq!(model.select_color(4), Ok(()));
    assert_eq!((model.version(), model.log_len()), (3, 3));
    assert_eq!(model.palette().selected(), ColorIndex(4));
    let record = model.take_applied_commands();
    assert_eq!(record.len(), 3);
    assert!(matches!(
        record[0],
        dotedit::model::Command::Move { from, to } if from == at(0, 0) && to == at(0, 0)
    ));
    assert!(matches!(
        record[1],
        dotedit::model::Command::SelectColor { index, previous }
            if index == ColorIndex(4) && previous == ColorIndex(4)
    ));
    assert!(matches!(
        record[2],
        dotedit::model::Command::SelectColor { index, previous }
            if index == ColorIndex(4) && previous == ColorIndex(4)
    ));
    run(&mut model, vec![Command::Undo]);
    assert_eq!(model.version(), 2);
    assert_eq!(model.palette().selected(), ColorIndex(4));
}

#[test]
fn every_successful_selection_hands_out_one_command() {
    let mut model = Model::new();
    assert_eq!(model.select_color(4), Ok(()));
    assert_eq!(model.take_applied_commands().len(), 1);
    assert_eq!(model.select_color(2), Ok(()));
    assert_eq!(model.select_color(2), Ok(()));
    let record = model.take_applied_commands();
    assert_eq!(record.len(), 2);
    assert!(matches!(
        record[1],
        dotedit::model::Command::SelectColor { index, previous }
            if index == ColorIndex(2) && previous == ColorIndex(2)
    ));
    assert_eq!(model.select_color(9), Err(Failure::InvalidColorIndex));
    assert!(model.take_applied_commands().is_empty());
}

#[test]
fn selecting_a_missing_colour_index_fails_and_changes_nothing() {
    let mut model = Model::new();
    assert_eq!(model.select_color(2), Ok(()));
    assert_eq!(model.palette().selected(), ColorIndex(2));
    assert_eq!(model.brush_color(), GREEN);
    assert_eq!(model.select_color(17), Err(Failure::InvalidColorIndex));
    assert_eq!(model.palette().selected(), ColorIndex(2));
    assert_eq!(model.log_len(), 1);
    assert_eq!(model.version(), 1);
}

#[test]
fn dip_adds_a_new_colour_under_the_least_unused_index() {
    let mut model = Model::new();
    let pink = Color { r: 255, g: 128, b: 128, a: 255 };
    run(&mut model, vec![Command::Dip(pink)]);
    assert_eq!(model.palette().selected(), ColorIndex(5));
    assert_eq!(model.palette().get(ColorIndex(5)), Some(pink));
    assert_eq!(model.brush_color(), pink);
    run(&mut model, vec![Command::Dip(GREEN)]);
    assert_eq!(model.palette().selected(), ColorIndex(2));
    run(&mut model, vec![Command::Color(pink)]);
    assert_eq!(model.palette().selected(), ColorIndex(5));
    assert_eq!(model.palette().get(ColorIndex(6)), None);
    run(&mut model, vec![Command::Undo, Command::Undo, Command::Undo]);
    assert_eq!(model.palette().get(ColorIndex(5)), None);
    assert_eq!(model.palette().selected(), ColorIndex(4));
}

#[test]
fn pick_selects_the_colour_under_the_cursor() {
    let mut model = Model::new();
    assert_eq!(model.apply(&Command::Pick), Err(Failure::InvalidColorIndex));
    run(
        &mut model,
        vec![Command::Dip(RED), Command::Draw, Command::Dip(BLUE), Command::Pick],
    );
    assert_eq!(model.palette().selected(), ColorIndex(1));
    run(&mut model, vec![step(1, 1)]);
    assert_eq!(model.apply(&Command::Pick), Err(Failure::InvalidColorIndex));
    assert_eq!(model.palette().selected(), ColorIndex(1));
}

#[test]
fn marking_sessions_do_not_nest() {
    let mut model = Model::new();
    run(&mut model, vec![Command::Mark(MarkKind::Line)]);
    assert_eq!(
        model.apply(&Command::Mark(MarkKind::Rectangle)),
        Err(Failure::MarkerAlreadyActive)
    );
    assert_eq!(model.marker().map(|m| m.kind()), Some(MarkKind::Line));
    run(&mut model, vec![Command::Cancel]);
    assert!(model.marker().is_none());
    run(&mut model, vec![Command::Mark(MarkKind::Rectangle)]);
    assert_eq!(model.marker().map(|m| m.kind()), Some(MarkKind::Rectangle));
    assert_eq!(model.log_len(), 0);
}

#[test]
fn cut_and_copy_need_a_marker() {
    let mut model = Model::new();
    run(&mut model, vec![Command::Draw]);
    assert_eq!(model.apply(&Command::Cut), Err(Failure::NoActiveMarker));
    assert_eq!(model.apply(&Command::Copy), Err(Failure::NoActiveMarker));
    assert_eq!(model.pixel(at(0, 0)), Some(BLACK));
    assert!(model.clipboard().is_empty());
}

#[test]
fn copy_takes_the_painted_pixels_and_ends_the_marking() {
    let mut model = Model::new();
    run(
        &mut model,
        vec![
            Command::Dip(RED),
            Command::Draw,
            step(2, 0),
            Command::Dip(GREEN),
            Command::Draw,
            step(-2, 0),
            Command::Mark(MarkKind::Line),
            step(2, 0),
            Command::Copy,
        ],
    );
    assert_eq!(model.clipboard(), &vec![(at(0, 0), RED), (at(2, 0), GREEN)]);
    assert!(model.marker().is_none());
    assert_eq!(model.pixel(at(0, 0)), Some(RED));
    assert_eq!(model.pixel(at(2, 0)), Some(GREEN));
}

#[test]
fn cut_copies_and_clears() {
    let mut model = Model::new();
    run(
        &mut model,
        vec![
            Command::Draw,
            step(1, 0),
            Command::Draw,
            step(5, 5),
            Command::Draw,
            step(-6, -5),
            Command::Mark(MarkKind::Rectangle),
            step(1, 1),
        ],
    );
    let before = model.log_len();
    run(&mut model, vec![Command::Cut]);
    assert_eq!(model.clipboard(), &vec![(at(0, 0), BLACK), (at(1, 0), BLACK)]);
    assert!(model.marker().is_none());
    assert_eq!(model.canvas().positions(), vec![at(6, 5)]);
    assert_eq!(model.log_len(), before + 1);
    run(&mut model, vec![Command::Undo]);
    assert_eq!(model.canvas().positions(), vec![at(0, 0), at(1, 0), at(6, 5)]);
}

#[test]
fn erase_clears_the_marked_pixels() {
    let mut model = Model::new();
    run(
        &mut model,
        vec![
            Command::Mark(MarkKind::Rectangle),
            step(1, 1),
            Command::Draw,
            Command::Cancel,
            Command::Mark(MarkKind::Point),
            step(-1, 0),
            Command::Erase,
        ],
    );
    assert_eq!(model.canvas().positions(), vec![at(0, 0), at(1, 0)]);
    assert_eq!(model.marker().map(|m| m.path().clone()), Some(vec![at(1, 1), at(0, 1)]));
}

#[test]
fn move_to_an_anchor_and_center_on_it() {
    let mut model = Model::new();
    run(
        &mut model,
        vec![step(7, -3), Command::Anchor("home".to_string()), step(1, 1)],
    );
    assert_eq!(model.resolve_anchor(&"home".to_string()), Ok(at(7, -3)));
    run(
        &mut model,
        vec![Command::Move(MoveDestination::Anchor(AnchorName { anchor: "home".to_string() }))],
    );
    assert_eq!(model.cursor().position, at(7, -3));
    run(&mut model, vec![Command::Center(CenterPoint::Anchor("home".to_string()))]);
    assert_eq!(model.camera().position, at(7, -3));
    run(&mut model, vec![step(1, 0), Command::Center(CenterPoint::Cursor)]);
    assert_eq!(model.camera().position, at(8, -3));
    assert_eq!(
        model.apply(&Command::Move(MoveDestination::Anchor(AnchorName {
            anchor: "away".to_string()
        }))),
        Err(Failure::UnknownAnchor)
    );
    assert_eq!(
        model.apply(&Command::Center(CenterPoint::Anchor("away".to_string()))),
        Err(Failure::UnknownAnchor)
    );
    assert_eq!(model.resolve_anchor(&"away".to_string()), Err(Failure::UnknownAnchor));
    assert_eq!(model.cursor().position, at(8, -3));
    assert_eq!(model.camera().position, at(8, -3));
}

#[test]
fn an_anchor_is_overwritten_by_the_last_write() {
    let mut model = Model::new();
    run(
        &mut model,
        vec![
            Command::Anchor("a".to_string()),
            step(2, 2),
            Command::Anchor("a".to_string()),
        ],
    );
    assert_eq!(model.resolve_anchor(&"a".to_string()), Ok(at(2, 2)));
    run(&mut model, vec![Command::Undo]);
    assert_eq!(model.resolve_anchor(&"a".to_string()), Ok(at(0, 0)));
}

#[test]
fn remove_deletes_by_name_or_fails() {
    let mut model = Model::new();
    run(
        &mut model,
        vec![
            Command::Anchor("a".to_string()),
            Command::Tag("t".to_string()),
            Command::Embed(Frame::new("f".to_string(), Ticks(0), Ticks(1), vec![])),
        ],
    );
    assert_eq!(
        model.apply(&Command::Remove(RemoveTarget::Anchor("t".to_string()))),
        Err(Failure::UnknownTarget)
    );
    assert_eq!(
        model.apply(&Command::Remove(RemoveTarget::Tag("a".to_string()))),
        Err(Failure::UnknownTarget)
    );
    assert_eq!(
        model.apply(&Command::Remove(RemoveTarget::Frame("a".to_string()))),
        Err(Failure::UnknownTarget)
    );
    assert_eq!(model.log_len(), 3);
    run(
        &mut model,
        vec![
            Command::Remove(RemoveTarget::Anchor("a".to_string())),
            Command::Remove(RemoveTarget::Tag("t".to_string())),
            Command::Remove(RemoveTarget::Frame("f".to_string())),
        ],
    );
    assert_eq!(model.resolve_anchor(&"a".to_string()), Err(Failure::UnknownAnchor));
    assert_eq!(model.resolve_tag(&"t".to_string()), Err(Failure::UnknownTag));
    assert_eq!(
        model.apply(&Command::Checkout(Checkout::Tag("t".to_string()))),
        Err(Failure::UnknownTag)
    );
    assert_eq!(
        model.apply(&Command::Remove(RemoveTarget::Frame("f".to_string()))),
        Err(Failure::UnknownTarget)
    );
    run(&mut model, vec![Command::Undo, Command::Undo]);
    assert_eq!(model.resolve_tag(&"t".to_string()), Ok(1));
}

#[test]
fn scale_stays_between_one_and_255() {
    let mut model = Model::new();
    run(&mut model, vec![Command::Scale(3)]);
    assert_eq!(model.scale(), 4);
    run(&mut model, vec![Command::Scale(-10)]);
    assert_eq!(model.scale(), 1);
    run(&mut model, vec![Command::Scale(127), Command::Scale(127), Command::Scale(127)]);
    assert_eq!(model.scale(), 255);
    let length = model.log_len();
    run(&mut model, vec![Command::Scale(1)]);
    assert_eq!(model.scale(), 255);
    assert_eq!(model.log_len(), length + 1);
}

#[test]
fn background_colour_is_set_and_undone() {
    let mut model = Model::new();
    run(&mut model, vec![Command::BackgroundColor(BLUE)]);
    assert_eq!(model.background(), BLUE);
    run(&mut model, vec![Command::Undo]);
    assert_eq!(model.background(), WHITE);
}

#[test]
fn the_cursor_wraps_around_and_is_not_clamped() {
    let mut model = Model::new();
    run(&mut model, vec![step(i16::MAX, i16::MIN), step(1, -1)]);
    assert_eq!(model.cursor().position, at(i16::MIN, i16::MAX));
}

#[test]
fn import_paints_each_entry_and_extends_the_palette() {
    let mut model = Model::new();
    let grey = Color { r: 9, g: 9, b: 9, a: 255 };
    let clear = Color { r: 9, g: 9, b: 9, a: 0 };
    run(
        &mut model,
        vec![Command::Import(vec![
            (at(1, 1), RED),
            (at(2, 1), grey),
            (at(3, 1), clear),
            (at(4, 1), grey),
            (at(1, 1), BLUE),
        ])],
    );
    assert_eq!(model.log_len(), 1);
    assert_eq!(model.pixel(at(1, 1)), Some(BLUE));
    assert_eq!(model.pixel(at(2, 1)), Some(grey));
    assert_eq!(model.pixel(at(3, 1)), Some(clear));
    assert_eq!(model.pixel(at(4, 1)), Some(grey));
    assert_eq!(model.canvas().get(at(2, 1)), Some(ColorIndex(5)));
    assert_eq!(model.canvas().get(at(3, 1)), Some(ColorIndex(6)));
    assert_eq!(model.canvas().get(at(4, 1)), Some(ColorIndex(5)));
    assert_eq!(model.palette().selected(), ColorIndex(4));
    run(&mut model, vec![Command::Undo]);
    assert!(model.canvas().positions().is_empty());
    assert_eq!(model.palette().get(ColorIndex(5)), None);
    assert_eq!(model.palette().get(ColorIndex(6)), None);
}

#[test]
fn tick_moves_the_clock_and_stops_at_zero() {
    let mut model = Model::new();
    run(&mut model, vec![Command::Tick(7)]);
    assert_eq!(model.clock(), Ticks(7));
    run(&mut model, vec![Command::Tick(-3)]);
    assert_eq!(model.clock(), Ticks(4));
    run(&mut model, vec![Command::Tick(-30)]);
    assert_eq!(model.clock(), Ticks(0));
    let length = model.log_len();
    run(&mut model, vec![Command::Tick(-1)]);
    assert_eq!(model.clock(), Ticks(0));
    assert_eq!(model.log_len(), length + 1);
}

#[test]
fn an_embedded_frame_overlays_while_the_clock_is_in_its_window() {
    let mut model = Model::new();
    run(
        &mut model,
        vec![
            Command::Embed(Frame::new("f".to_string(), Ticks(0), Ticks(10), vec![(at(5, 5), GREEN)])),
            Command::Tick(5),
        ],
    );
    assert_eq!(model.clock(), Ticks(5));
    assert_eq!(model.overlay_pixels(), vec![(at(5, 5), GREEN)]);
    run(&mut model, vec![Command::Tick(10)]);
    assert_eq!(model.clock(), Ticks(15));
    assert_eq!(model.overlay_pixels(), vec![]);
    run(&mut model, vec![Command::Tick(-6)]);
    assert_eq!(model.overlay_pixels(), vec![(at(5, 5), GREEN)]);
    run(&mut model, vec![Command::Tick(1)]);
    assert_eq!(model.overlay_pixels(), vec![]);
    assert_eq!(model.pixel(at(5, 5)), None);
}

#[test]
fn embedding_under_a_used_name_replaces_the_frame() {
    let mut model = Model::new();
    run(
        &mut model,
        vec![
            Command::Embed(Frame::new("f".to_string(), Ticks(0), Ticks(10), vec![(at(5, 5), GREEN)])),
            Command::Embed(Frame::new("f".to_string(), Ticks(0), Ticks(10), vec![(at(1, 2), RED)])),
        ],
    );
    assert_eq!(model.overlay_pixels(), vec![(at(1, 2), RED)]);
    let length = model.log_len();
    run(
        &mut model,
        vec![Command::Embed(Frame::new(
            "f".to_string(),
            Ticks(0),
            Ticks(10),
            vec![(at(1, 2), RED)],
        ))],
    );
    assert_eq!(model.log_len(), length + 1);
    assert_eq!(model.overlay_pixels(), vec![(at(1, 2), RED)]);
    run(&mut model, vec![Command::Undo, Command::Undo]);
    assert_eq!(model.overlay_pixels(), vec![(at(5, 5), GREEN)]);
}

#[test]
fn playback_runs_to_its_end_and_stops() {
    let mut model = Model::new();
    let play = PlayCommand { offset: Ticks(3), duration: Ticks(2), fps: 10, repeat: false };
    run(&mut model, vec![Command::Play(play)]);
    assert!(model.is_playing());
    assert_eq!(model.playback(), Some(play));
    assert_eq!(model.clock(), Ticks(3));
    model.advance_playback();
    assert_eq!(model.clock(), Ticks(4));
    assert!(model.is_playing());
    model.advance_playback();
    assert_eq!(model.clock(), Ticks(5));
    assert!(!model.is_playing());
    model.advance_playback();
    assert_eq!(model.clock(), Ticks(5));
}

#[test]
fn repeating_playback_starts_over() {
    let mut model = Model::new();
    let play = PlayCommand { offset: Ticks(3), duration: Ticks(2), fps: 10, repeat: true };
    run(&mut model, vec![Command::Play(play)]);
    model.advance_playback();
    assert_eq!(model.clock(), Ticks(4));
    model.advance_playback();
    assert_eq!(model.clock(), Ticks(3));
    assert!(model.is_playing());
    model.advance_playback();
    assert_eq!(model.clock(), Ticks(4));
}

#[test]
fn quit_and_external_commands_leave_the_canvas_alone() {
    let mut model = Model::new();
    run(
        &mut model,
        vec![
            Command::Draw,
            Command::ExternalCommand(dotedit::command::ExternalCommand {
                program: "tmux".to_string(),
                args: vec![],
            }),
        ],
    );
    assert!(!model.has_quit());
    run(&mut model, vec![Command::Quit]);
    assert!(model.has_quit());
    assert_eq!(model.log_len(), 1);
    assert_eq!(model.canvas().positions(), vec![at(0, 0)]);
}

#[test]
fn flip_mirrors_the_marked_region() {
    let mut model = Model::new();
    run(
        &mut model,
        vec![
            Command::Dip(RED),
            Command::Draw,
            step(1, 0),
            Command::Dip(GREEN),
            Command::Draw,
            step(-1, 0),
            Command::Mark(MarkKind::Rectangle),
            step(2, 1),
        ],
    );
    let length = model.log_len();
    run(&mut model, vec![Command::Flip(FlipDirection::Horizontal)]);
    assert_eq!(model.log_len(), length + 1);
    assert_eq!(model.canvas().positions(), vec![at(1, 0), at(2, 0)]);
    assert_eq!(model.pixel(at(2, 0)), Some(RED));
    assert_eq!(model.pixel(at(1, 0)), Some(GREEN));
    run(&mut model, vec![Command::Flip(FlipDirection::Vertical)]);
    assert_eq!(model.canvas().positions(), vec![at(1, 1), at(2, 1)]);
    assert_eq!(model.pixel(at(2, 1)), Some(RED));
    assert_eq!(model.pixel(at(1, 1)), Some(GREEN));
    run(&mut model, vec![Command::Undo, Command::Undo]);
    assert_eq!(model.canvas().positions(), vec![at(0, 0), at(1, 0)]);
    assert_eq!(model.pixel(at(0, 0)), Some(RED));
}

#[test]
fn flip_without_a_marker_mirrors_the_whole_canvas() {
    let mut model = Model::new();
    run(
        &mut model,
        vec![
            Command::Import(vec![(at(-2, 3), RED), (at(0, 3), BLUE), (at(4, 9), GREEN)]),
            Command::Flip(FlipDirection::Horizontal),
        ],
    );
    assert_eq!(model.canvas().positions(), vec![at(2, 3), at(4, 3), at(-2, 9)]);
    assert_eq!(model.pixel(at(4, 3)), Some(RED));
    assert_eq!(model.pixel(at(2, 3)), Some(BLUE));
    assert_eq!(model.pixel(at(-2, 9)), Some(GREEN));
    let mut empty = Model::new();
    run(&mut empty, vec![Command::Flip(FlipDirection::Vertical), Command::Rotate]);
    assert_eq!(empty.log_len(), 0);
}

#[test]
fn rotate_turns_the_region_a_quarter_clockwise() {
    let mut model = Model::new();
    run(
        &mut model,
        vec![
            Command::Import(vec![(at(0, 0), RED), (at(1, 0), GREEN), (at(2, 0), BLUE)]),
            Command::Rotate,
        ],
    );
    assert_eq!(model.canvas().positions(), vec![at(0, 0), at(0, 1), at(0, 2)]);
    assert_eq!(model.pixel(at(0, 0)), Some(RED));
    assert_eq!(model.pixel(at(0, 1)), Some(GREEN));
    assert_eq!(model.pixel(at(0, 2)), Some(BLUE));
    run(&mut model, vec![Command::Rotate]);
    assert_eq!(model.canvas().positions(), vec![at(0, 0), at(1, 0), at(2, 0)]);
    assert_eq!(model.pixel(at(2, 0)), Some(RED));
    assert_eq!(model.pixel(at(1, 0)), Some(GREEN));
    assert_eq!(model.pixel(at(0, 0)), Some(BLUE));
}

#[test]
fn the_record_replays_to_the_live_scene() {
    let mut model = Model::new();
    run(
        &mut model,
        vec![
            Command::Dip(Color { r: 1, g: 2, b: 3, a: 4 }),
            Command::Mark(MarkKind::Rectangle),
            step(2, 2),
            Command::Draw,
            Command::Cancel,
            Command::Tag("t".to_string()),
            Command::Anchor("a".to_string()),
            step(-5, 0),
            Command::Erase,
            Command::Undo,
            Command::Undo,
            Command::Scale(2),
            Command::Tick(9),
        ],
    );
    let mut record = model.take_applied_commands();
    run(&mut model, vec![Command::Checkout(Checkout::Tag("t".to_string())), Command::Redo]);
    record.extend(model.take_applied_commands());
    assert!(model.take_applied_commands().is_empty());
    let scene = Model::replay(&record);
    assert_eq!(scene.pixels().positions(), model.canvas().positions());
    assert_eq!(scene.pixels().positions().len(), 9);
    for position in model.canvas().positions() {
        assert_eq!(scene.pixels().get(position), model.canvas().get(position));
    }
    assert_eq!(scene.cursor(), model.cursor());
    assert_eq!(scene.palette().selected(), model.palette().selected());
    assert_eq!(scene.palette().get(ColorIndex(5)), Some(Color { r: 1, g: 2, b: 3, a: 4 }));
    assert_eq!(scene.scale(), model.scale());
    assert_eq!(scene.clock(), model.clock());
    assert_eq!(
        scene.anchors().get(&"a".to_string()).copied(),
        model.resolve_anchor(&"a".to_string()).ok()
    );
    assert_eq!(scene.tags().get(&"t".to_string()).copied(), Some(3));
}

#[test]
fn effect_commands_record_what_they_replace() {
    let mut model = Model::new();
    run(&mut model, vec![step(2, 3), Command::Draw]);
    let moved = model.move_cursor_command(PixelPositionDelta::from_xy(-1, 1));
    assert!(matches!(
        moved,
        dotedit::model::Command::Move { from, to } if from == at(2, 3) && to == at(1, 4)
    ));
    let dot = model.dot_command();
    assert!(matches!(
        dot,
        dotedit::model::Command::Dot { position, previous, color }
            if position == at(2, 3) && previous == Some(ColorIndex(4)) && color == Some(ColorIndex(4))
    ));
    assert!(dot.is_idle());
    assert!(!moved.is_idle());
    assert!(!model.move_cursor_command(PixelPositionDelta::from_xy(0, 0)).is_idle());
    let back = moved.inverse();
    assert!(matches!(
        back,
        dotedit::model::Command::Move { from, to } if from == at(1, 4) && to == at(2, 3)
    ));
}

#[test]
fn checkout_keeps_later_history_until_a_new_edit_discards_it() {
    let mut model = Model::new();
    run(
        &mut model,
        vec![
            Command::Tag("base".to_string()),
            Command::Draw,
            step(1, 0),
            Command::Draw,
            Command::Checkout(Checkout::Tag("base".to_string())),
        ],
    );
    assert_eq!((model.version(), model.log_len()), (1, 4));
    assert!(model.canvas().positions().is_empty());
    run(&mut model, vec![Command::Redo]);
    assert_eq!(model.canvas().positions(), vec![at(0, 0)]);
    run(&mut model, vec![Command::Checkout(Checkout::Tag("base".to_string())), step(0, 1)]);
    assert_eq!((model.version(), model.log_len()), (2, 2));
    run(&mut model, vec![Command::Redo]);
    assert!(model.canvas().positions().is_empty());
    assert_eq!(model.cursor().position, at(0, 1));
}

#[test]
fn a_tag_set_again_points_to_the_later_version() {
    let mut model = Model::new();
    run(
        &mut model,
        vec![
            Command::Tag("t".to_string()),
            Command::Draw,
            Command::Tag("t".to_string()),
            step(1, 0),
            Command::Draw,
            Command::Checkout(Checkout::Tag("t".to_string())),
        ],
    );
    assert_eq!(model.version(), 3);
    assert_eq!(model.canvas().positions(), vec![at(0, 0)]);
    assert_eq!(model.resolve_tag(&"t".to_string()), Ok(2));
    run(&mut model, vec![Command::Undo]);
    assert_eq!(model.resolve_tag(&"t".to_string()), Ok(0));
    run(&mut model, vec![Command::Checkout(Checkout::Tag("t".to_string()))]);
    assert_eq!(model.version(), 1);
    assert!(model.canvas().positions().is_empty());
}

#[test]
fn overlays_come_frame_by_frame_in_the_order_of_the_names() {
    let mut model = Model::new();
    run(
        &mut model,
        vec![
            Command::Embed(Frame::new(
                "b".to_string(),
                Ticks(0),
                Ticks(5),
                vec![(at(1, 1), RED), (at(2, 2), RED)],
            )),
            Command::Embed(Frame::new("c".to_string(), Ticks(3), Ticks(5), vec![(at(1, 1), BLUE)])),
            Command::Embed(Frame::new("a".to_string(), Ticks(0), Ticks(9), vec![(at(1, 1), GREEN)])),
            Command::Embed(Frame::new("ab".to_string(), Ticks(0), Ticks(1), vec![(at(0, 0), WHITE)])),
        ],
    );
    assert_eq!(
        model.overlay_pixels(),
        vec![(at(1, 1), GREEN), (at(0, 0), WHITE), (at(1, 1), RED), (at(2, 2), RED)]
    );
    run(&mut model, vec![Command::Tick(4)]);
    assert_eq!(
        model.overlay_pixels(),
        vec![(at(1, 1), GREEN), (at(1, 1), RED), (at(2, 2), RED), (at(1, 1), BLUE)]
    );
    run(&mut model, vec![Command::Remove(RemoveTarget::Frame("b".to_string()))]);
    assert_eq!(model.overlay_pixels(), vec![(at(1, 1), GREEN), (at(1, 1), BLUE)]);
    run(&mut model, vec![Command::Undo]);
    assert_eq!(
        model.overlay_pixels(),
        vec![(at(1, 1), GREEN), (at(1, 1), RED), (at(2, 2), RED), (at(1, 1), BLUE)]
    );
}
