use vstd::prelude::*;

use ratatui::layout::{Constraint, Direction, Layout, Rect};

use crate::rect::{abs, fits_i16, wrap_i16, CanvasIndex, CanvasRect};

verus! {

/// A rectangle of terminal cells: `width` columns from `x` and `height` rows from `y`.
#[derive(Debug, Clone, Copy, PartialEq, Eq, Structural)]
pub struct RenderArea {
    pub x: u16,
    pub y: u16,
    pub width: u16,
    pub height: u16,
}

impl RenderArea {
    pub open spec fn spec_tuple(self) -> (u16, u16, u16, u16) {
        (self.x, self.y, self.width, self.height)
    }

    pub open spec fn from_tuple(t: (u16, u16, u16, u16)) -> RenderArea {
        RenderArea { x: t.0, y: t.1, width: t.2, height: t.3 }
    }
}

/// What ratatui's `Layout::split` gives for the constraints `[Max(first_max), Min(1)]` in
/// the given direction (`horizontal` or vertical), for an area given as `(x, y, width, height)`.
pub uninterp spec fn layout_split(horizontal: bool, first_max: u16, area: (u16, u16, u16, u16)) -> (
    (u16, u16, u16, u16),
    (u16, u16, u16, u16),
);

/// Splits `area` with ratatui's `Layout` into a first part of at most `first_max` cells and the
/// rest, side by side (`horizontal`) or one above the other. The result is what ratatui's
/// constraint solver computes from these arguments alone, named by `layout_split`; nothing more
/// is said of it here.
#[verifier::external_body]
fn split_layout(horizontal: bool, first_max: u16, area: RenderArea) -> (r: (RenderArea, RenderArea))
    ensures
        (r.0.spec_tuple(), r.1.spec_tuple()) == layout_split(horizontal, first_max, area.spec_tuple()),
{
    let direction = if horizontal { Direction::Horizontal } else { Direction::Vertical };
    let rect = Rect { x: area.x, y: area.y, width: area.width, height: area.height };
    let chunks = Layout::default().direction(direction).constraints(
        [Constraint::Max(first_max), Constraint::Min(1)],
    ).split(rect);
    let (a, b) = (chunks[0], chunks[1]);
    (
        RenderArea { x: a.x, y: a.y, width: a.width, height: a.height },
        RenderArea { x: b.x, y: b.y, width: b.width, height: b.height },
    )
}

/// The chunks of the canvas view, as `(canvas, row numbers, column numbers)`: a column of width
/// at most four for the row numbers on the left, then a row of height at most one for the
/// column numbers above the canvas.
pub open spec fn spec_canvas_layout_chunks(area: RenderArea) -> (RenderArea, RenderArea, RenderArea) {
    let (numbers, rest) = layout_split(true, 4, area.spec_tuple());
    let (columns, canvas) = layout_split(false, 1, rest);
    (
        RenderArea::from_tuple(canvas),
        RenderArea::from_tuple(numbers),
        RenderArea::from_tuple(columns),
    )
}

pub fn canvas_layout_chunks(area: RenderArea) -> (r: (RenderArea, RenderArea, RenderArea))
    ensures
        r == spec_canvas_layout_chunks(area),
{
    let (row_number_chunk, rest) = split_layout(true, 4, area);
    let (column_number_chunk, canvas_chunk) = split_layout(false, 1, rest);
    (canvas_chunk, row_number_chunk, column_number_chunk)
}

/// The middle of a span of `length` cells from `start`, as an `i16` (the sum wraps as `as`
/// does).
pub open spec fn middle(start: u16, length: u16) -> int {
    wrap_i16((start + length / 2) as u16)
}

/// The render offset stays in range: no `u16` sum overflows and the `i16` results fit.
pub open spec fn render_translation_fits(focus: CanvasIndex, render_area: RenderArea) -> bool {
    &&& render_area.y + render_area.height / 2 <= u16::MAX
    &&& render_area.x + render_area.width / 2 <= u16::MAX
    &&& focus.0 != i16::MIN
    &&& focus.1 != i16::MIN
    &&& fits_i16(-focus.0 + middle(render_area.y, render_area.height))
    &&& fits_i16(-focus.1 + middle(render_area.x, render_area.width))
}

/// The shift that maps canvas coordinates to screen coordinates and puts `focus` in the
/// middle of `render_area`: `(y - row, x - column)`.
pub fn canvas_render_translation(focus: CanvasIndex, render_area: RenderArea) -> (r: (i16, i16))
    requires
        render_translation_fits(focus, render_area),
    ensures
        r.0 == -focus.0 + middle(render_area.y, render_area.height),
        r.1 == -focus.1 + middle(render_area.x, render_area.width),
{
    let (focus_row, focus_column) = focus;
    let y_mid: u16 = render_area.y + render_area.height / 2;
    let x_mid: u16 = render_area.x + render_area.width / 2;
    proof {
        crate::rect::lemma_u16_as_i16(y_mid);
        crate::rect::lemma_u16_as_i16(x_mid);
    }
    let row_to_y_translation = -focus_row + y_mid as i16;
    let column_to_x_translation = -focus_column + x_mid as i16;
    (row_to_y_translation, column_to_x_translation)
}

/// The computations of `visible` stay in range.
pub open spec fn visible_fits(focus: CanvasIndex, area: RenderArea) -> bool {
    let canvas_chunk = spec_canvas_layout_chunks(area).0;
    let t = (
        -focus.0 + middle(canvas_chunk.y, canvas_chunk.height),
        -focus.1 + middle(canvas_chunk.x, canvas_chunk.width),
    );
    &&& render_translation_fits(focus, canvas_chunk)
    &&& fits_i16(wrap_i16(canvas_chunk.y) - t.0)
    &&& fits_i16(wrap_i16(canvas_chunk.x) - t.1)
}

/// The part of the canvas that is seen when the view with `focus` in its middle is rendered to
/// `area`: the canvas chunk of the layout, moved back into canvas coordinates.
pub fn visible(focus: CanvasIndex, area: RenderArea) -> (r: CanvasRect)
    requires
        visible_fits(focus, area),
    ensures
        ({
            let canvas_chunk = spec_canvas_layout_chunks(area).0;
            &&& r.row == wrap_i16(canvas_chunk.y) - (-focus.0 + middle(
                canvas_chunk.y,
                canvas_chunk.height,
            ))
            &&& r.column == wrap_i16(canvas_chunk.x) - (-focus.1 + middle(
                canvas_chunk.x,
                canvas_chunk.width,
            ))
            &&& r.rows == canvas_chunk.height
            &&& r.columns == canvas_chunk.width
        }),
{
    let (canvas_chunk, _, _) = canvas_layout_chunks(area);
    let (row_to_y_translation, column_to_x_translation) = canvas_render_translation(
        focus,
        canvas_chunk,
    );
    proof {
        crate::rect::lemma_u16_as_i16(canvas_chunk.y);
        crate::rect::lemma_u16_as_i16(canvas_chunk.x);
    }
    CanvasRect {
        row: canvas_chunk.y as i16 - row_to_y_translation,
        column: canvas_chunk.x as i16 - column_to_x_translation,
        rows: canvas_chunk.height,
        columns: canvas_chunk.width,
    }
}

/// `x as i16`, computed in `i32`.
fn as_i16_wide(x: u16) -> (r: i32)
    ensures
        r == wrap_i16(x),
{
    if x <= 32767 {
        x as i32
    } else {
        x as i32 - 65536
    }
}

/// `visible`, where its computations stay in range; `None` elsewhere.
pub fn try_visible(focus: CanvasIndex, area: RenderArea) -> (r: Option<CanvasRect>)
    ensures
        r is Some <==> visible_fits(focus, area),
        r is Some ==> ({
            let canvas_chunk = spec_canvas_layout_chunks(area).0;
            let rect = r->0;
            &&& rect.row == wrap_i16(canvas_chunk.y) - (-focus.0 + middle(
                canvas_chunk.y,
                canvas_chunk.height,
            ))
            &&& rect.column == wrap_i16(canvas_chunk.x) - (-focus.1 + middle(
                canvas_chunk.x,
                canvas_chunk.width,
            ))
            &&& rect.rows == canvas_chunk.height
            &&& rect.columns == canvas_chunk.width
        }),
{
    let (c, _, _) = canvas_layout_chunks(area);
    let y_mid: u32 = c.y as u32 + (c.height / 2) as u32;
    let x_mid: u32 = c.x as u32 + (c.width / 2) as u32;
    if y_mid > 65535 || x_mid > 65535 || focus.0 == i16::MIN || focus.1 == i16::MIN {
        return None;
    }
    let t0: i32 = -(focus.0 as i32) + as_i16_wide(y_mid as u16);
    let t1: i32 = -(focus.1 as i32) + as_i16_wide(x_mid as u16);
    if t0 < -32768 || t0 > 32767 || t1 < -32768 || t1 > 32767 {
        return None;
    }
    let r0: i32 = as_i16_wide(c.y) - t0;
    let r1: i32 = as_i16_wide(c.x) - t1;
    if r0 < -32768 || r0 > 32767 || r1 < -32768 || r1 > 32767 {
        return None;
    }
    Some(visible(focus, area))
}

/// The canvas index shown at terminal cell `(x, y)` under the shift `translation`
/// (`(y - row, x - column)`), the terminal coordinates read as `i16` as `as` does.
pub open spec fn spec_canvas_index_at(x: u16, y: u16, translation: (i16, i16)) -> (int, int) {
    (wrap_i16(y) - translation.0, wrap_i16(x) - translation.1)
}

pub fn canvas_index_at(x: u16, y: u16, translation: (i16, i16)) -> (r: CanvasIndex)
    requires
        fits_i16(spec_canvas_index_at(x, y, translation).0),
        fits_i16(spec_canvas_index_at(x, y, translation).1),
    ensures
        (r.0 as int, r.1 as int) == spec_canvas_index_at(x, y, translation),
{
    proof {
        crate::rect::lemma_u16_as_i16(x);
        crate::rect::lemma_u16_as_i16(y);
    }
    (y as i16 - translation.0, x as i16 - translation.1)
}

/// The terminal cell that shows canvas index `index` under the shift `translation`, each
/// coordinate taken as `u16` as `as` does.
pub fn screen_cell_of(index: CanvasIndex, translation: (i16, i16)) -> (r: (u16, u16))
    requires
        fits_i16(index.1 + translation.1),
        fits_i16(index.0 + translation.0),
    ensures
        r == ((index.1 + translation.1) as u16, (index.0 + translation.0) as u16),
{
    ((index.1 + translation.1) as u16, (index.0 + translation.0) as u16)
}

/// The number beside terminal row `y`, and whether that is the cursor's row, which is aligned
/// to the left. With relative numbering and a cursor, each other row shows its distance from the
/// cursor's row; the cursor's row, and every row without relative numbering, shows the row.
pub open spec fn spec_row_label(y: u16, row_to_y: i16, cursor: Option<i16>, relative: bool) -> (int, bool) {
    let row = wrap_i16(y) - row_to_y;
    let number = match cursor {
        Some(c) => if relative && row != c {
            abs(row - c)
        } else {
            row
        },
        None => row,
    };
    (number, cursor matches Some(c) && c == row)
}

/// The row's number and its distance from the cursor's row stay in range.
pub open spec fn row_label_fits(y: u16, row_to_y: i16, cursor: Option<i16>, relative: bool) -> bool {
    let row = wrap_i16(y) - row_to_y;
    &&& fits_i16(row)
    &&& relative ==> (cursor matches Some(c) ==> (row == c || (fits_i16(row - c) && row - c != i16::MIN)))
}

pub fn row_number_label(y: u16, row_to_y: i16, cursor: Option<i16>, relative: bool) -> (r: (i16, bool))
    requires
        row_label_fits(y, row_to_y, cursor, relative),
    ensures
        (r.0 as int, r.1) == spec_row_label(y, row_to_y, cursor, relative),
{
    proof {
        crate::rect::lemma_u16_as_i16(y);
    }
    let row = y as i16 - row_to_y;
    let number = match cursor {
        Some(c) => if relative && row != c {
            let d = row - c;
            if d < 0 {
                -d
            } else {
                d
            }
        } else {
            row
        },
        None => row,
    };
    let at_cursor = match cursor {
        Some(c) => c == row,
        None => false,
    };
    (number, at_cursor)
}

/// A column number label above the canvas: five cells wide from terminal column `x`, showing
/// `number` aligned to the right, or blank where it is `None`.
#[derive(Debug, Clone, Copy, PartialEq, Eq, Structural)]
pub struct ColumnLabel {
    pub x: u16,
    pub number: Option<i16>,
}

/// Division rounding towards zero, as Rust's `/` on signed integers, for a positive `b`.
pub open spec fn div_toward_zero(a: int, b: int) -> int {
    if a >= 0 {
        a / b
    } else {
        -((-a) / b)
    }
}

/// The remainder that goes with `div_toward_zero`, as Rust's `%` on signed integers.
pub open spec fn rem_toward_zero(a: int, b: int) -> int {
    a - b * div_toward_zero(a, b)
}

/// The number of labels for a count that may be negative.
pub open spec fn label_count(n: int) -> nat {
    if n > 0 {
        n as nat
    } else {
        0
    }
}

/// With relative numbering around the cursor's column `c`: the index of the cursor's label, the
/// offset of the first label from the left of `area`, and the number of labels. The labels are
/// lined up so that one ends at the cursor's column.
pub open spec fn relative_layout(area: RenderArea, column_to_x: i16, c: i16) -> (int, int, int) {
    let d = c + column_to_x - 4 - wrap_i16(area.x);
    let margin = rem_toward_zero(d, 5);
    (div_toward_zero(d, 5), margin, div_toward_zero(wrap_i16(area.width) - margin, 5))
}

pub open spec fn relative_x(area: RenderArea, column_to_x: i16, c: i16, i: int) -> int {
    wrap_i16(area.x) + relative_layout(area, column_to_x, c).1 + 5 * i
}

/// The `i`-th label with relative numbering: the distance of the column at its right end from
/// the cursor's column (the cursor's own column shows the column itself); the labels next to
/// the cursor's are blank.
pub open spec fn relative_label(area: RenderArea, column_to_x: i16, c: i16, i: int) -> ColumnLabel {
    let x = relative_x(area, column_to_x, c, i);
    let column = x - column_to_x + 4;
    let number = if column == c {
        column
    } else {
        abs(column - c)
    };
    ColumnLabel {
        x: x as u16,
        number: if abs(i - relative_layout(area, column_to_x, c).0) == 1 {
            None
        } else {
            Some(number as i16)
        },
    }
}

/// Without relative numbering: the offset of the first label from the left of `area` and the
/// number of places for labels. The labels are lined up so that one ends at column 0.
pub open spec fn absolute_layout(area: RenderArea, column_to_x: i16) -> (int, int) {
    let m = rem_toward_zero(column_to_x - 4 - wrap_i16(area.x), 5);
    let margin = if m < 0 {
        m + 5
    } else {
        m
    };
    (margin, div_toward_zero(wrap_i16(area.width) - margin, 5))
}

pub open spec fn absolute_x(area: RenderArea, column_to_x: i16, i: int) -> int {
    wrap_i16(area.x) + absolute_layout(area, column_to_x).0 + 5 * i
}

/// A label from `x` would run into the cursor's label, which ends at the cursor's column
/// `x_cursor` on the screen.
pub open spec fn near_cursor_label(x: int, x_cursor: int) -> bool {
    x + 4 > x_cursor - 10 && x <= x_cursor + 5
}

/// The labels of the first `k` places without relative numbering, each showing the column at
/// its right end; with a cursor, those that would run into the cursor's label are left out.
pub open spec fn absolute_labels(area: RenderArea, column_to_x: i16, cursor: Option<i16>, k: int) -> Seq<
    ColumnLabel,
>
    decreases k,
{
    if k <= 0 {
        Seq::empty()
    } else {
        let before = absolute_labels(area, column_to_x, cursor, k - 1);
        let x = absolute_x(area, column_to_x, k - 1);
        if cursor matches Some(c) && near_cursor_label(x, c + column_to_x) {
            before
        } else {
            before.push(ColumnLabel { x: x as u16, number: Some((x - column_to_x + 4) as i16) })
        }
    }
}

/// The cursor's own label without relative numbering: it ends at the cursor's column, but
/// starts no further left than `area`.
pub open spec fn cursor_label(area: RenderArea, column_to_x: i16, c: i16) -> ColumnLabel {
    let x = (c + column_to_x - 4) as u16;
    ColumnLabel { x: if x >= area.x { x } else { area.x }, number: Some(c) }
}

/// The column number labels above the canvas, in the order they are drawn, for a column number
/// chunk `area`, the shift `column_to_x` from canvas columns to screen columns and the cursor's
/// column, if there is a cursor.
pub open spec fn spec_column_labels(area: RenderArea, column_to_x: i16, cursor: Option<i16>, relative: bool) -> Seq<
    ColumnLabel,
> {
    match cursor {
        Some(c) => if relative {
            let n = relative_layout(area, column_to_x, c).2;
            Seq::new(label_count(n), |i: int| relative_label(area, column_to_x, c, i))
        } else {
            absolute_labels(area, column_to_x, cursor, absolute_layout(area, column_to_x).1).push(
                cursor_label(area, column_to_x, c),
            )
        },
        None => absolute_labels(area, column_to_x, cursor, absolute_layout(area, column_to_x).1),
    }
}

/// The computations of the relative labels stay in the range of `i16`; each per-label value
/// runs between its values at the first and the last label.
pub open spec fn relative_labels_fit(area: RenderArea, column_to_x: i16, c: i16) -> bool {
    let (_, margin, n) = relative_layout(area, column_to_x, c);
    let d = c + column_to_x - 4 - wrap_i16(area.x);
    &&& fits_i16(c + column_to_x)
    &&& fits_i16(c + column_to_x - 4)
    &&& fits_i16(d)
    &&& fits_i16(wrap_i16(area.width) - margin)
    &&& n >= 1 ==> {
        &&& fits_i16(wrap_i16(area.x) + margin)
        &&& forall|i: int|
            (i == 0 || i == n - 1) ==> {
                let x = #[trigger] relative_x(area, column_to_x, c, i);
                &&& fits_i16(x)
                &&& fits_i16(x - column_to_x)
                &&& fits_i16(x - column_to_x + 4)
                &&& fits_i16(x - column_to_x + 4 - c)
                &&& x - column_to_x + 4 - c != i16::MIN
            }
    }
}

/// The computations of the labels without relative numbering stay in the range of `i16`.
pub open spec fn absolute_labels_fit(area: RenderArea, column_to_x: i16, cursor: Option<i16>) -> bool {
    let (margin, n) = absolute_layout(area, column_to_x);
    &&& fits_i16(column_to_x - 4)
    &&& fits_i16(column_to_x - 4 - wrap_i16(area.x))
    &&& fits_i16(wrap_i16(area.width) - margin)
    &&& cursor matches Some(c) ==> fits_i16(c + column_to_x) && fits_i16(c + column_to_x - 4)
    &&& n >= 1 ==> {
        &&& fits_i16(wrap_i16(area.x) + margin)
        &&& forall|i: int|
            (i == 0 || i == n - 1) ==> {
                let x = #[trigger] absolute_x(area, column_to_x, i);
                &&& fits_i16(x)
                &&& fits_i16(x - column_to_x)
                &&& fits_i16(x - column_to_x + 4)
                &&& fits_i16(x + 4)
            }
        &&& cursor matches Some(c) ==> {
            &&& fits_i16(c + column_to_x - 10)
            &&& absolute_x(area, column_to_x, n - 1) + 4 > c + column_to_x - 10 ==> fits_i16(
                c + column_to_x + 5,
            )
        }
    }
}

pub open spec fn column_labels_fit(area: RenderArea, column_to_x: i16, cursor: Option<i16>, relative: bool) -> bool {
    match cursor {
        Some(c) => if relative {
            relative_labels_fit(area, column_to_x, c)
        } else {
            absolute_labels_fit(area, column_to_x, cursor)
        },
        None => absolute_labels_fit(area, column_to_x, cursor),
    }
}

fn relative_column_labels(area: RenderArea, column_to_x: i16, c: i16) -> (r: Vec<ColumnLabel>)
    requires
        relative_labels_fit(area, column_to_x, c),
    ensures
        r@ == Seq::new(
            label_count(relative_layout(area, column_to_x, c).2),
            |i: int| relative_label(area, column_to_x, c, i),
        ),
{
    proof {
        crate::rect::lemma_u16_as_i16(area.x);
        crate::rect::lemma_u16_as_i16(area.width);
    }
    let ghost layout = relative_layout(area, column_to_x, c);
    let x_cursor = c + column_to_x;
    let d = x_cursor - 4 - area.x as i16;
    let i_cursor = d / 5;
    let margin = d % 5;
    let n = (area.width as i16 - margin) / 5;
    assert(i_cursor == layout.0 && margin == layout.1 && n == layout.2);
    let mut labels: Vec<ColumnLabel> = Vec::new();
    let mut i: i16 = 0;
    while i < n
        invariant
            0 <= i,
            n >= 0 ==> i <= n,
            n < 0 ==> i == 0,
            i_cursor == layout.0,
            margin == layout.1,
            n == layout.2,
            layout == relative_layout(area, column_to_x, c),
            relative_labels_fit(area, column_to_x, c),
            wrap_i16(area.x) == area.x as i16,
            labels@ == Seq::new(i as nat, |j: int| relative_label(area, column_to_x, c, j)),
        decreases n - i,
    {
        let ghost first = relative_x(area, column_to_x, c, 0);
        let ghost last = relative_x(area, column_to_x, c, n - 1);
        let x = area.x as i16 + margin + 5 * i;
        assert(x == relative_x(area, column_to_x, c, i as int));
        let column = x - column_to_x + 4;
        let number = if column == c {
            column
        } else {
            let diff = column - c;
            if diff < 0 {
                -diff
            } else {
                diff
            }
        };
        let di = i - i_cursor;
        let blank = di == 1 || di == -1;
        let label = ColumnLabel {
            x: x as u16,
            number: if blank {
                None
            } else {
                Some(number)
            },
        };
        assert(label == relative_label(area, column_to_x, c, i as int));
        labels.push(label);
        i += 1;
        proof {
            assert(labels@ =~= Seq::new(i as nat, |j: int| relative_label(area, column_to_x, c, j)));
        }
    }
    proof {
        assert(label_count(n as int) == i as nat);
    }
    labels
}

fn absolute_column_labels(area: RenderArea, column_to_x: i16, cursor: Option<i16>) -> (r: Vec<ColumnLabel>)
    requires
        absolute_labels_fit(area, column_to_x, cursor),
    ensures
        r@ == absolute_labels(area, column_to_x, cursor, absolute_layout(area, column_to_x).1),
{
    proof {
        crate::rect::lemma_u16_as_i16(area.x);
        crate::rect::lemma_u16_as_i16(area.width);
    }
    let ghost layout = absolute_layout(area, column_to_x);
    let m = (column_to_x - 4 - area.x as i16) % 5;
    let margin = if m < 0 {
        m + 5
    } else {
        m
    };
    let n = (area.width as i16 - margin) / 5;
    assert(margin == layout.0 && n == layout.1);
    let mut labels: Vec<ColumnLabel> = Vec::new();
    let mut i: i16 = 0;
    while i < n
        invariant
            0 <= i,
            n >= 0 ==> i <= n,
            n < 0 ==> i == 0,
            margin == layout.0,
            n == layout.1,
            layout == absolute_layout(area, column_to_x),
            absolute_labels_fit(area, column_to_x, cursor),
            wrap_i16(area.x) == area.x as i16,
            labels@ == absolute_labels(area, column_to_x, cursor, i as int),
        decreases n - i,
    {
        let ghost first = absolute_x(area, column_to_x, 0);
        let ghost last = absolute_x(area, column_to_x, n - 1);
        let x = area.x as i16 + margin + 5 * i;
        assert(x == absolute_x(area, column_to_x, i as int));
        let column = x - column_to_x + 4;
        let near = match cursor {
            Some(c) => {
                let x_cursor = c + column_to_x;
                let x_cell_right = x + 4;
                x_cell_right > x_cursor - 10 && x <= x_cursor + 5
            },
            None => false,
        };
        if !near {
            labels.push(ColumnLabel { x: x as u16, number: Some(column) });
        }
        i += 1;
    }
    labels
}

/// The column number labels above the canvas, as `spec_column_labels` gives them.
pub fn column_number_labels(area: RenderArea, column_to_x: i16, cursor: Option<i16>, relative: bool) -> (r: Vec<
    ColumnLabel,
>)
    requires
        column_labels_fit(area, column_to_x, cursor, relative),
    ensures
        r@ == spec_column_labels(area, column_to_x, cursor, relative),
{
    match cursor {
        Some(c) => if relative {
            relative_column_labels(area, column_to_x, c)
        } else {
            let mut labels = absolute_column_labels(area, column_to_x, cursor);
            let x_cursor = c + column_to_x;
            let x_left = (x_cursor - 4) as u16;
            let x = if x_left >= area.x {
                x_left
            } else {
                area.x
            };
            labels.push(ColumnLabel { x, number: Some(c) });
            labels
        },
        None => absolute_column_labels(area, column_to_x, None),
    }
}

/// Whether `x` is in the range of `i16`.
fn in_i16(x: i32) -> (b: bool)
    ensures
        b == fits_i16(x as int),
{
    -32768 <= x && x <= 32767
}

/// Whether the computations for the label from screen column `x` stay in range, with relative
/// numbering around the cursor's column `c`.
fn relative_label_fits(x: i32, column_to_x: i16, c: i16) -> (b: bool)
    requires
        -70000 <= x <= 70000,
    ensures
        b == ({
            &&& fits_i16(x as int)
            &&& fits_i16(x - column_to_x)
            &&& fits_i16(x - column_to_x + 4)
            &&& fits_i16(x - column_to_x + 4 - c)
            &&& x - column_to_x + 4 - c != i16::MIN
        }),
{
    let column = x - column_to_x as i32 + 4;
    in_i16(x) && in_i16(x - column_to_x as i32) && in_i16(column) && in_i16(column - c as i32)
        && column - c as i32 != -32768
}

fn relative_labels_fit_exec(area: RenderArea, column_to_x: i16, c: i16) -> (b: bool)
    ensures
        b == relative_labels_fit(area, column_to_x, c),
{
    let ghost layout = relative_layout(area, column_to_x, c);
    let ax = as_i16_wide(area.x);
    let aw = as_i16_wide(area.width);
    let x_cursor = c as i32 + column_to_x as i32;
    let d = x_cursor - 4 - ax;
    let margin = d % 5;
    let n = (aw - margin) / 5;
    assert(margin == layout.1 && n == layout.2);
    if !(in_i16(x_cursor) && in_i16(x_cursor - 4) && in_i16(d) && in_i16(aw - margin)) {
        return false;
    }
    if n < 1 {
        return true;
    }
    let base = ax + margin;
    if !in_i16(base) {
        return false;
    }
    let first = relative_label_fits(base, column_to_x, c);
    let last = relative_label_fits(base + 5 * (n - 1), column_to_x, c);
    proof {
        assert(relative_x(area, column_to_x, c, 0) == base);
        assert(relative_x(area, column_to_x, c, n - 1) == base + 5 * (n - 1));
    }
    first && last
}

/// Whether the computations for the label from screen column `x` stay in range, without
/// relative numbering.
fn absolute_label_fits(x: i32, column_to_x: i16) -> (b: bool)
    requires
        -70000 <= x <= 70000,
    ensures
        b == ({
            &&& fits_i16(x as int)
            &&& fits_i16(x - column_to_x)
            &&& fits_i16(x - column_to_x + 4)
            &&& fits_i16(x + 4)
        }),
{
    in_i16(x) && in_i16(x - column_to_x as i32) && in_i16(x - column_to_x as i32 + 4) && in_i16(x + 4)
}

fn absolute_labels_fit_exec(area: RenderArea, column_to_x: i16, cursor: Option<i16>) -> (b: bool)
    ensures
        b == absolute_labels_fit(area, column_to_x, cursor),
{
    let ghost layout = absolute_layout(area, column_to_x);
    let ax = as_i16_wide(area.x);
    let aw = as_i16_wide(area.width);
    let d = column_to_x as i32 - 4 - ax;
    let m = d % 5;
    let margin = if m < 0 {
        m + 5
    } else {
        m
    };
    let n = (aw - margin) / 5;
    assert(margin == layout.0 && n == layout.1);
    if !(in_i16(column_to_x as i32 - 4) && in_i16(d) && in_i16(aw - margin)) {
        return false;
    }
    let cursor_fits = match cursor {
        Some(c) => in_i16(c as i32 + column_to_x as i32) && in_i16(c as i32 + column_to_x as i32 - 4),
        None => true,
    };
    if !cursor_fits {
        return false;
    }
    if n < 1 {
        return true;
    }
    let base = ax + margin;
    if !in_i16(base) {
        return false;
    }
    let x_last = base + 5 * (n - 1);
    let first = absolute_label_fits(base, column_to_x);
    let last = absolute_label_fits(x_last, column_to_x);
    proof {
        assert(absolute_x(area, column_to_x, 0) == base);
        assert(absolute_x(area, column_to_x, n - 1) == x_last);
    }
    if !(first && last) {
        return false;
    }
    match cursor {
        Some(c) => {
            let x_cursor = c as i32 + column_to_x as i32;
            in_i16(x_cursor - 10) && (!(x_last + 4 > x_cursor - 10) || in_i16(x_cursor + 5))
        },
        None => true,
    }
}

/// `column_number_labels`, where its computations stay in range; `None` elsewhere.
pub fn try_column_number_labels(area: RenderArea, column_to_x: i16, cursor: Option<i16>, relative: bool) -> (r:
    Option<Vec<ColumnLabel>>)
    ensures
        r is Some <==> column_labels_fit(area, column_to_x, cursor, relative),
        r matches Some(labels) ==> labels@ == spec_column_labels(area, column_to_x, cursor, relative),
{
    let fits = match cursor {
        Some(c) => if relative {
            relative_labels_fit_exec(area, column_to_x, c)
        } else {
            absolute_labels_fit_exec(area, column_to_x, cursor)
        },
        None => absolute_labels_fit_exec(area, column_to_x, cursor),
    };
    if fits {
        Some(column_number_labels(area, column_to_x, cursor, relative))
    } else {
        None
    }
}

/// `row_number_label`, where its computations stay in range; `None` elsewhere.
pub fn try_row_number_label(y: u16, row_to_y: i16, cursor: Option<i16>, relative: bool) -> (r: Option<(i16, bool)>)
    ensures
        r is Some <==> row_label_fits(y, row_to_y, cursor, relative),
        r matches Some(label) ==> (label.0 as int, label.1) == spec_row_label(y, row_to_y, cursor, relative),
{
    let row = as_i16_wide(y) - row_to_y as i32;
    let fits = in_i16(row) && (!relative || match cursor {
        Some(c) => row == c as i32 || (in_i16(row - c as i32) && row - c as i32 != -32768),
        None => true,
    });
    if fits {
        Some(row_number_label(y, row_to_y, cursor, relative))
    } else {
        None
    }
}

/// `canvas_render_translation`, where its computations stay in range; `None` elsewhere.
pub fn try_canvas_render_translation(focus: CanvasIndex, render_area: RenderArea) -> (r: Option<(i16, i16)>)
    ensures
        r is Some <==> render_translation_fits(focus, render_area),
        r matches Some(t) ==> t.0 == -focus.0 + middle(render_area.y, render_area.height) && t.1
            == -focus.1 + middle(render_area.x, render_area.width),
{
    let y_mid: u32 = render_area.y as u32 + (render_area.height / 2) as u32;
    let x_mid: u32 = render_area.x as u32 + (render_area.width / 2) as u32;
    if y_mid > 65535 || x_mid > 65535 || focus.0 == i16::MIN || focus.1 == i16::MIN {
        return None;
    }
    let row = -(focus.0 as i32) + as_i16_wide(y_mid as u16);
    let column = -(focus.1 as i32) + as_i16_wide(x_mid as u16);
    if in_i16(row) && in_i16(column) {
        Some(canvas_render_translation(focus, render_area))
    } else {
        None
    }
}

/// `canvas_index_at`, where the index is in range; `None` elsewhere.
pub fn try_canvas_index_at(x: u16, y: u16, translation: (i16, i16)) -> (r: Option<CanvasIndex>)
    ensures
        r is Some <==> fits_i16(spec_canvas_index_at(x, y, translation).0) && fits_i16(
            spec_canvas_index_at(x, y, translation).1,
        ),
        r matches Some(index) ==> (index.0 as int, index.1 as int) == spec_canvas_index_at(x, y, translation),
{
    if in_i16(as_i16_wide(y) - translation.0 as i32) && in_i16(as_i16_wide(x) - translation.1 as i32) {
        Some(canvas_index_at(x, y, translation))
    } else {
        None
    }
}

/// `screen_cell_of`, where the sums are in range; `None` elsewhere.
pub fn try_screen_cell_of(index: CanvasIndex, translation: (i16, i16)) -> (r: Option<(u16, u16)>)
    ensures
        r is Some <==> fits_i16(index.1 + translation.1) && fits_i16(index.0 + translation.0),
        r matches Some(cell) ==> cell == ((index.1 + translation.1) as u16, (index.0 + translation.0) as u16),
{
    if in_i16(index.1 as i32 + translation.1 as i32) && in_i16(index.0 as i32 + translation.0 as i32) {
        Some(screen_cell_of(index, translation))
    } else {
        None
    }
}

} // verus!
