use upaint::rect::CanvasRect;
use upaint::rendering::{
    canvas_index_at, canvas_layout_chunks, canvas_render_translation, column_number_labels, row_number_label,
    screen_cell_of, try_visible, visible, ColumnLabel, RenderArea,
};

fn area(x: u16, y: u16, width: u16, height: u16) -> RenderArea {
    RenderArea { x, y, width, height }
}

#[test]
fn render_translation_centers_focus() {
    assert_eq!(canvas_render_translation((0, 0), area(0, 0, 80, 24)), (12, 40));
    assert_eq!(canvas_render_translation((5, -3), area(2, 1, 10, 7)), (-1, 10));
}

#[test]
fn layout_chunks_split_off_numbers() {
    let (canvas, rows, columns) = canvas_layout_chunks(area(0, 0, 80, 24));
    assert_eq!(rows, area(0, 0, 4, 24));
    assert_eq!(columns, area(4, 0, 76, 1));
    assert_eq!(canvas, area(4, 1, 76, 23));
}

#[test]
fn visible_part_of_canvas() {
    let expected = CanvasRect { row: -11, column: -38, rows: 23, columns: 76 };
    assert_eq!(visible((0, 0), area(0, 0, 80, 24)), expected);
    assert_eq!(try_visible((0, 0), area(0, 0, 80, 24)), Some(expected));
    assert_eq!(try_visible((i16::MIN, 0), area(0, 0, 80, 24)), None);
}

#[test]
fn column_labels_end_at_multiples_of_five() {
    let area = RenderArea { x: 4, y: 0, width: 20, height: 1 };
    assert_eq!(
        column_number_labels(area, 14, None, false),
        vec![
            ColumnLabel { x: 5, number: Some(-5) },
            ColumnLabel { x: 10, number: Some(0) },
            ColumnLabel { x: 15, number: Some(5) },
        ]
    );
    // Labels that would run into the cursor's label give way to it.
    assert_eq!(
        column_number_labels(area, 14, Some(0), false),
        vec![ColumnLabel { x: 10, number: Some(0) }]
    );
    // The cursor's label starts no further left than the chunk.
    assert_eq!(
        column_number_labels(area, 14, Some(-8), false),
        vec![ColumnLabel { x: 15, number: Some(5) }, ColumnLabel { x: 4, number: Some(-8) }]
    );
}

#[test]
fn relative_column_labels_count_from_the_cursor() {
    let area = RenderArea { x: 4, y: 0, width: 20, height: 1 };
    assert_eq!(
        column_number_labels(area, 14, Some(2), true),
        vec![
            ColumnLabel { x: 7, number: None },
            ColumnLabel { x: 12, number: Some(2) },
            ColumnLabel { x: 17, number: None },
        ]
    );
    // Without a cursor, relative numbering falls back to the columns.
    assert_eq!(column_number_labels(area, 14, None, true), column_number_labels(area, 14, None, false));
}

#[test]
fn row_labels() {
    assert_eq!(row_number_label(3, 5, Some(0), true), (2, false));
    assert_eq!(row_number_label(5, 5, Some(0), true), (0, true));
    assert_eq!(row_number_label(3, 5, Some(0), false), (-2, false));
    assert_eq!(row_number_label(3, 5, None, true), (-2, false));
    assert_eq!(canvas_index_at(7, 3, (5, 14)), (-2, -7));
    assert_eq!(screen_cell_of((-2, -7), (5, 14)), (7, 3));
}
