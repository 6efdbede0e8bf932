use upaint::rect::CanvasRect;

fn rect(row: i16, column: i16, rows: u16, columns: u16) -> CanvasRect {
    CanvasRect { row, column, rows, columns }
}

#[test]
fn edges_and_center() {
    let r = rect(2, 3, 4, 5);
    assert_eq!(r.first_row(), 2);
    assert_eq!(r.first_column(), 3);
    assert_eq!(r.last_row(), 5);
    assert_eq!(r.last_column(), 7);
    assert_eq!(r.center(), (4, 5));
}

#[test]
fn includes_and_away() {
    let r = rect(0, 0, 3, 3);
    assert!(r.includes_index((2, 2)));
    assert!(!r.includes_index((3, 0)));
    assert_eq!(r.away_index((1, 1)), (0, 0));
    assert_eq!(r.away_index((5, -2)), (3, -2));
    // Along an axis where the index lies within the rectangle, it is not away at all.
    assert_eq!(rect(0, 0, 5, 5).away_index((2, 10)), (0, 6));
    assert_eq!(rect(0, 0, 5, 5).away_index((-3, 4)), (-3, 0));
}

#[test]
fn include_grows_to_the_bounding_box() {
    let mut r = rect(0, 0, 5, 5);
    r.include_index((3, 10));
    assert_eq!(r, rect(0, 0, 5, 11));
    r.include_index((-2, 7));
    assert_eq!(r, rect(-2, 0, 7, 11));
    r.include_index((1, 1));
    assert_eq!(r, rect(-2, 0, 7, 11));
}

#[test]
fn include_grows() {
    let mut r = rect(0, 0, 0, 0);
    r.include_index((4, 5));
    assert_eq!(r, rect(4, 5, 1, 1));
    r.include_index((6, 2));
    assert_eq!(r, rect(4, 2, 3, 4));
    assert!(r.includes_index((4, 5)));
    assert!(r.includes_index((6, 2)));
}

#[test]
fn rect_from_corners() {
    assert_eq!(CanvasRect::from_corners(((3, 1), (0, 4))), rect(0, 1, 4, 4));
    assert!(upaint::rect::corners_include(((3, 1), (0, 4)), (2, 4)));
    assert!(!upaint::rect::corners_include(((3, 1), (0, 4)), (2, 5)));
}
