use dotedit::canvas::Canvas;
use dotedit::clock::{ticks_elapsed, Ticks};
use dotedit::failure::Failure;
use dotedit::frame::Frame;
use dotedit::model::{
    Camera, Color, ColorIndex, Cursor, Palette, PixelPosition, PixelPositionDelta,
};
use dotedit::names::NameMap;
use dotedit::records::{OpenRecord, Record, UnixTimestamp};
use dotedit::text::{chars_of, stands_before};

fn at(x: i16, y: i16) -> PixelPosition {
    PixelPosition { x, y }
}

#[test]
fn cursor_moves_by_coordinates() {
    let mut cursor = Cursor::default();
    assert_eq!((cursor.x(), cursor.y()), (0, 0));
    cursor.move_x(5);
    cursor.move_y(-7);
    assert_eq!((cursor.x(), cursor.y()), (5, -7));
    cursor.move_delta(PixelPositionDelta::from_xy(-6, 8));
    assert_eq!((cursor.x(), cursor.y()), (-1, 1));
    assert_eq!(cursor.position, at(-1, 1));
}

#[test]
fn cursor_wraps_at_the_ends_of_the_range() {
    let mut cursor = Cursor { position: at(i16::MAX, i16::MIN) };
    cursor.move_x(1);
    cursor.move_y(-1);
    assert_eq!(cursor.position, at(i16::MIN, i16::MAX));
    cursor.move_delta(PixelPositionDelta::from_xy(-1, 1));
    assert_eq!(cursor.position, at(i16::MAX, i16::MIN));
}

#[test]
fn delta_keeps_its_coordinates() {
    let delta = PixelPositionDelta::from_xy(3, -4);
    assert_eq!(delta.x(), 3);
    assert_eq!(delta.y(), -4);
    assert_eq!(delta.to_xy(), (3, -4));
    assert_eq!(PixelPositionDelta::from((3, -4)), delta);
    assert_eq!(PixelPositionDelta::default().to_xy(), (0, 0));
}

#[test]
fn positions_are_made_from_x_and_y_and_ordered_by_row() {
    assert_eq!(PixelPosition::from((3, -4)), at(3, -4));
    assert_eq!(PixelPosition::default(), at(0, 0));
    assert_eq!(PixelPosition::origin(), at(0, 0));
    assert!(at(9, 0) < at(-9, 1));
    assert!(at(1, 5) < at(2, 5));
    assert_eq!(at(1, 1).shift(PixelPositionDelta::from_xy(2, 3)), at(3, 4));
    assert_eq!(Camera::default().position, at(0, 0));
}

#[test]
fn colours_are_opaque_unless_told_otherwise() {
    assert_eq!(Color::rgb(1, 2, 3), Color { r: 1, g: 2, b: 3, a: 255 });
    assert_eq!(Color::rgba(1, 2, 3, 4), Color { r: 1, g: 2, b: 3, a: 4 });
}

#[test]
fn canvas_sets_gets_and_lists_in_order() {
    let mut canvas = Canvas::new();
    assert_eq!(canvas.get(at(0, 0)), None);
    assert_eq!(canvas.set(at(2, 1), Some(ColorIndex(3))), None);
    assert_eq!(canvas.set(at(-1, 1), Some(ColorIndex(1))), None);
    assert_eq!(canvas.set(at(5, -2), Some(ColorIndex(0))), None);
    assert_eq!(canvas.set(at(i16::MIN, i16::MIN), Some(ColorIndex(7))), None);
    assert_eq!(canvas.set(at(i16::MAX, i16::MAX), Some(ColorIndex(8))), None);
    assert_eq!(canvas.set(at(2, 1), Some(ColorIndex(4))), Some(ColorIndex(3)));
    assert_eq!(canvas.get(at(2, 1)), Some(ColorIndex(4)));
    assert_eq!(canvas.get(at(1, 2)), None);
    assert_eq!(
        canvas.positions(),
        vec![at(i16::MIN, i16::MIN), at(5, -2), at(-1, 1), at(2, 1), at(i16::MAX, i16::MAX)]
    );
    assert_eq!(canvas.set(at(5, -2), None), Some(ColorIndex(0)));
    assert_eq!(canvas.set(at(5, -2), None), None);
    assert_eq!(canvas.get(at(5, -2)), None);
    assert_eq!(canvas.positions().len(), 4);
}

#[test]
fn palette_selects_only_what_it_has() {
    let mut palette = Palette::default();
    assert_eq!(palette.selected(), ColorIndex(4));
    assert_eq!(palette.selected_color(), Color::rgb(0, 0, 0));
    assert_eq!(palette.select(ColorIndex(1)), Ok(()));
    assert_eq!(palette.selected_color(), Color::rgb(255, 0, 0));
    assert_eq!(palette.select(ColorIndex(5)), Err(Failure::InvalidColorIndex));
    assert_eq!(palette.selected(), ColorIndex(1));
    assert_eq!(palette.index_of(Color::rgb(0, 0, 255)), Some(ColorIndex(3)));
    assert_eq!(palette.index_of(Color::rgb(0, 0, 254)), None);
    assert_eq!(palette.fresh_index(), ColorIndex(5));
    assert_eq!(palette.set_color(ColorIndex(7), Some(Color::rgb(7, 7, 7))), None);
    assert_eq!(palette.fresh_index(), ColorIndex(5));
    assert_eq!(palette.set_color(ColorIndex(2), None), Some(Color::rgb(0, 255, 0)));
    assert_eq!(palette.fresh_index(), ColorIndex(2));
    assert_eq!(palette.get(ColorIndex(7)), Some(Color::rgb(7, 7, 7)));
    assert_eq!(palette.get(ColorIndex(2)), None);
}

#[test]
fn ticks_advance_between_zero_and_the_32_bit_limit() {
    assert_eq!(Ticks::new(5).advance(3), Ticks(8));
    assert_eq!(Ticks(5).advance(-5), Ticks(0));
    assert_eq!(Ticks(5).advance(-6), Ticks(0));
    assert_eq!(Ticks(5).advance(i32::MIN), Ticks(0));
    assert_eq!(Ticks(u32::MAX).advance(1), Ticks(u32::MAX));
    assert_eq!(Ticks(u32::MAX - 1).advance(i32::MAX), Ticks(u32::MAX));
    assert_eq!(Ticks(u32::MAX).advance(-1), Ticks(u32::MAX - 1));
    assert_eq!(Ticks::default().get(), 0);
}

#[test]
fn elapsed_ticks_are_whole_ticks_at_the_frame_rate() {
    assert_eq!(ticks_elapsed(30, 1000), 30);
    assert_eq!(ticks_elapsed(30, 999), 29);
    assert_eq!(ticks_elapsed(30, 33), 0);
    assert_eq!(ticks_elapsed(30, 34), 1);
    assert_eq!(ticks_elapsed(0, 5000), 0);
    assert_eq!(ticks_elapsed(0, u64::MAX), 0);
    assert_eq!(ticks_elapsed(1, 999), 0);
    assert_eq!(ticks_elapsed(255, u64::MAX), 4703919738795935661);
}

#[test]
fn a_frame_is_active_in_a_half_open_window() {
    let frame = Frame::new("f".to_string(), Ticks(3), Ticks(4), vec![]);
    assert!(!frame.is_active_at(Ticks(2)));
    assert!(frame.is_active_at(Ticks(3)));
    assert!(frame.is_active_at(Ticks(6)));
    assert!(!frame.is_active_at(Ticks(7)));
    let empty = Frame::new("e".to_string(), Ticks(3), Ticks(0), vec![]);
    assert!(!empty.is_active_at(Ticks(3)));
    let late = Frame::new("l".to_string(), Ticks(u32::MAX), Ticks(u32::MAX), vec![]);
    assert!(late.is_active_at(Ticks(u32::MAX)));
    assert!(!late.is_active_at(Ticks(u32::MAX - 1)));
}

#[test]
fn a_frame_shows_the_last_of_its_pixels_at_a_position() {
    let red = Color::rgb(255, 0, 0);
    let blue = Color::rgb(0, 0, 255);
    let frame = Frame::new(
        "f".to_string(),
        Ticks(0),
        Ticks(1),
        vec![(at(1, 1), red), (at(2, 2), red), (at(1, 1), blue)],
    );
    assert_eq!(frame.color_at(at(1, 1)), Some(blue));
    assert_eq!(frame.color_at(at(2, 2)), Some(red));
    assert_eq!(frame.color_at(at(3, 3)), None);
    let copy = frame.copy();
    assert_eq!(copy.name, "f");
    assert_eq!(copy.start, frame.start);
    assert_eq!(copy.duration, frame.duration);
    assert_eq!(copy.pixels, frame.pixels);
}

#[test]
fn a_name_map_holds_each_name_once() {
    let mut map: NameMap<usize> = NameMap::new();
    let a = "a".to_string();
    let b = "b".to_string();
    assert!(!map.contains(&a));
    map.insert(a.clone(), 1);
    map.insert(b.clone(), 2);
    map.insert(a.clone(), 3);
    assert_eq!(map.len(), 2);
    assert_eq!(map.get(&a), Some(&3));
    assert_eq!(map.get(&b), Some(&2));
    map.remove(&a);
    assert_eq!(map.get(&a), None);
    assert_eq!(map.get(&b), Some(&2));
    assert_eq!(map.len(), 1);
    assert_eq!(*map.value_at(0), 2);
    map.remove(&a);
    assert_eq!(map.len(), 1);
}

#[test]
fn an_open_record_has_port_version_time_and_a_random_identifier() {
    let first = OpenRecord::new(8080).unwrap();
    let second = OpenRecord::new(1).unwrap();
    assert_eq!(first.port, 8080);
    assert_eq!(second.port, 1);
    assert_eq!(first.version, "0.1.0");
    assert!(first.timestamp.as_secs() > 1_600_000_000);
    assert!(second.timestamp >= first.timestamp);
    assert_eq!(first.uuid.get_version_num(), 4);
    assert_ne!(first.uuid, second.uuid);
    assert!(matches!(Record::Open(first), Record::Open(_)));
}

#[test]
fn a_clock_that_cannot_be_read_is_an_io_failure() {
    assert_eq!(UnixTimestamp::from_clock(None), Err(Failure::IoFailure));
    assert_eq!(UnixTimestamp::from_clock(Some(12)), Ok(UnixTimestamp(12)));
    assert!(UnixTimestamp::now().is_ok());
}

#[test]
fn an_open_record_is_assembled_from_its_parts() {
    let id = OpenRecord::new(0).unwrap().uuid;
    let record = OpenRecord::assemble(UnixTimestamp(99), 4000, id);
    assert_eq!(record.timestamp, UnixTimestamp(99));
    assert_eq!(record.port, 4000);
    assert_eq!(record.uuid, id);
    assert_eq!(record.version, "0.1.0");
}

#[test]
fn texts_are_ordered_as_in_a_dictionary() {
    assert!(stands_before("", "a"));
    assert!(!stands_before("", ""));
    assert!(!stands_before("a", ""));
    assert!(stands_before("a", "b"));
    assert!(!stands_before("b", "a"));
    assert!(stands_before("a", "ab"));
    assert!(!stands_before("ab", "a"));
    assert!(stands_before("ab", "b"));
    assert!(stands_before("Z", "a"));
    assert!(!stands_before("same", "same"));
    assert!(stands_before("z", "\u{e9}"));
    assert_eq!(stands_before("frame-10", "frame-9"), "frame-10" < "frame-9");
    assert_eq!(chars_of("a+\u{e9}"), vec!['a', '+', '\u{e9}']);
}

#[test]
fn a_name_map_lists_values_in_the_order_of_their_names() {
    let mut map: NameMap<usize> = NameMap::new();
    for (name, value) in [("m", 1), ("a", 2), ("z", 3), ("ma", 4), ("", 5)] {
        map.insert(name.to_string(), value);
    }
    let listed: Vec<usize> = (0..map.len()).map(|i| *map.value_at(i)).collect();
    assert_eq!(listed, vec![5, 2, 1, 4, 3]);
    map.remove(&"m".to_string());
    map.insert("b".to_string(), 6);
    let listed: Vec<usize> = (0..map.len()).map(|i| *map.value_at(i)).collect();
    assert_eq!(listed, vec![5, 2, 6, 4, 3]);
    assert_eq!(map.get(&"ma".to_string()), Some(&4));
}
