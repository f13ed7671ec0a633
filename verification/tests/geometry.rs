use dotedit::marker::{bounding_box, MarkKind, Marker};
use dotedit::model::PixelPosition;

fn at(x: i16, y: i16) -> PixelPosition {
    PixelPosition { x, y }
}

fn marking(kind: MarkKind, path: &[(i16, i16)]) -> Marker {
    let mut marker = Marker::new(kind, at(path[0].0, path[0].1));
    for &(x, y) in &path[1..] {
        marker.extend(at(x, y));
    }
    marker
}

fn points(list: &[(i16, i16)]) -> Vec<PixelPosition> {
    list.iter().map(|&(x, y)| at(x, y)).collect()
}

#[test]
fn rectangle_from_origin_to_2_2_covers_nine_positions() {
    let marker = marking(MarkKind::Rectangle, &[(0, 0), (2, 2)]);
    assert!(marker.is_countable());
    let covered = marker.marked_points();
    assert_eq!(covered.len(), 9);
    assert_eq!(
        covered,
        points(&[(0, 0), (1, 0), (2, 0), (0, 1), (1, 1), (2, 1), (0, 2), (1, 2), (2, 2)])
    );
}

#[test]
fn rectangle_goes_by_anchor_and_latest_position_only() {
    let marker = marking(MarkKind::Rectangle, &[(1, -1), (9, 9), (-7, 3), (0, 0)]);
    assert_eq!(marker.marked_points(), points(&[(0, -1), (1, -1), (0, 0), (1, 0)]));
    let single = marking(MarkKind::Rectangle, &[(4, 4)]);
    assert_eq!(single.marked_points(), points(&[(4, 4)]));
}

#[test]
fn point_marking_covers_every_visited_position() {
    let marker = marking(MarkKind::Point, &[(0, 0), (1, 0), (1, 1), (1, 0)]);
    assert_eq!(marker.marked_points(), points(&[(0, 0), (1, 0), (1, 1), (1, 0)]));
    assert_eq!(marker.kind(), MarkKind::Point);
    assert_eq!(marker.path(), &points(&[(0, 0), (1, 0), (1, 1), (1, 0)]));
}

#[test]
fn line_is_rasterized_between_anchor_and_latest_position() {
    let marker = marking(MarkKind::Line, &[(0, 0), (9, 9), (4, 2)]);
    assert_eq!(marker.marked_points(), points(&[(0, 0), (1, 1), (2, 1), (3, 2), (4, 2)]));
    let back = marking(MarkKind::Line, &[(0, 0), (-3, -1)]);
    assert_eq!(back.marked_points(), points(&[(0, 0), (-1, 0), (-2, -1), (-3, -1)]));
    let steep = marking(MarkKind::Line, &[(2, 5), (2, 2)]);
    assert_eq!(steep.marked_points(), points(&[(2, 5), (2, 4), (2, 3), (2, 2)]));
    let diagonal = marking(MarkKind::Line, &[(-1, 1), (1, -1)]);
    assert_eq!(diagonal.marked_points(), points(&[(-1, 1), (0, 0), (1, -1)]));
}

#[test]
fn line_of_one_position_is_that_position() {
    let marker = marking(MarkKind::Line, &[(5, 5)]);
    assert_eq!(marker.marked_points(), points(&[(5, 5)]));
    let there_and_back = marking(MarkKind::Line, &[(5, 5), (7, 7), (5, 5)]);
    assert_eq!(there_and_back.marked_points(), points(&[(5, 5)]));
}

#[test]
fn line_across_the_whole_range_has_all_its_points() {
    let marker = marking(MarkKind::Line, &[(i16::MIN, i16::MIN), (i16::MAX, i16::MAX)]);
    let covered = marker.marked_points();
    assert_eq!(covered.len(), 65536);
    assert_eq!(covered[0], at(i16::MIN, i16::MIN));
    assert_eq!(covered[32768], at(0, 0));
    assert_eq!(covered[65535], at(i16::MAX, i16::MAX));
}

#[test]
fn freeform_fills_the_polygon_by_the_even_odd_rule() {
    let marker = marking(MarkKind::Freeform, &[(0, 0), (3, 0), (3, 3), (0, 3)]);
    assert_eq!(
        marker.marked_points(),
        points(&[
            (0, 0),
            (1, 0),
            (2, 0),
            (3, 0),
            (0, 1),
            (1, 1),
            (2, 1),
            (0, 2),
            (1, 2),
            (2, 2),
            (0, 3),
            (3, 3),
        ])
    );
}

#[test]
fn freeform_with_a_walked_outline_covers_outline_and_inside() {
    let outline = [
        (0, 0),
        (1, 0),
        (2, 0),
        (2, 1),
        (2, 2),
        (1, 2),
        (0, 2),
        (0, 1),
    ];
    let marker = marking(MarkKind::Freeform, &outline);
    assert_eq!(
        marker.marked_points(),
        points(&[(0, 0), (1, 0), (2, 0), (0, 1), (1, 1), (2, 1), (0, 2), (1, 2), (2, 2)])
    );
}

#[test]
fn freeform_of_positions_on_one_row_covers_what_was_visited() {
    let marker = marking(MarkKind::Freeform, &[(0, 0), (3, 0)]);
    assert_eq!(marker.marked_points(), points(&[(0, 0), (3, 0)]));
    let single = marking(MarkKind::Freeform, &[(-2, 7)]);
    assert_eq!(single.marked_points(), points(&[(-2, 7)]));
}

#[test]
fn bounding_box_gives_least_and_greatest_coordinates() {
    assert_eq!(
        bounding_box(&points(&[(3, -4), (-1, 9), (0, 0), (7, 2)])),
        (-1, -4, 7, 9)
    );
    assert_eq!(bounding_box(&points(&[(5, 6)])), (5, 6, 5, 6));
}

#[test]
fn copy_of_a_marker_has_kind_and_path() {
    let marker = marking(MarkKind::Line, &[(0, 0), (1, 2)]);
    let copy = marker.copy();
    assert_eq!(copy.kind(), MarkKind::Line);
    assert_eq!(copy.path(), marker.path());
}
