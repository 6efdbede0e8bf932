use vstd::prelude::*;

verus! {

/// A `(row, column)` position on a canvas.
pub type CanvasIndex = (i16, i16);

/// The value of `x as i16`, as an integer.
pub open spec fn wrap_i16(x: u16) -> int {
    if x <= 32767 {
        x as int
    } else {
        x as int - 65536
    }
}

/// `x as i16` is the two's complement reading of `x`.
pub proof fn lemma_u16_as_i16(x: u16)
    ensures
        (x as i16) as int == wrap_i16(x),
{
    if x <= 32767 {
        assert((x as i16) as int == x as int) by (bit_vector)
            requires
                x <= 32767,
        ;
    } else {
        assert((x as i16) as int == x as int - 65536) by (bit_vector)
            requires
                x > 32767,
        ;
    }
}

/// Division of `x` by two, rounding towards zero (Rust's `/` on signed integers).
pub open spec fn half_toward_zero(x: int) -> int {
    if x >= 0 {
        x / 2
    } else {
        -((-x) / 2)
    }
}

pub open spec fn abs(x: int) -> int {
    if x < 0 {
        -x
    } else {
        x
    }
}

pub open spec fn fits_i16(x: int) -> bool {
    i16::MIN <= x <= i16::MAX
}

/// How far `x` lies beyond the span from `first` to `last`: negative before it, positive after
/// it, and 0 within it.
pub open spec fn axis_away(x: int, first: int, last: int) -> int {
    if x < first {
        x - first
    } else if x > last {
        x - last
    } else {
        0
    }
}

/// A rectangle of canvas cells: `rows` rows starting at `row` and `columns` columns starting
/// at `column`.
#[derive(Debug, Default, Clone, Copy, PartialEq, Eq, Structural)]
pub struct CanvasRect {
    pub row: i16,
    pub column: i16,
    pub rows: u16,
    pub columns: u16,
}

impl CanvasRect {
    pub open spec fn spec_last_row(self) -> int {
        self.row + wrap_i16(self.rows) - 1
    }

    pub open spec fn spec_last_column(self) -> int {
        self.column + wrap_i16(self.columns) - 1
    }

    /// The arithmetic of `last_row` stays in `i16`.
    pub open spec fn last_row_fits(self) -> bool {
        fits_i16(self.row + wrap_i16(self.rows)) && fits_i16(self.spec_last_row())
    }

    pub open spec fn last_column_fits(self) -> bool {
        fits_i16(self.column + wrap_i16(self.columns)) && fits_i16(self.spec_last_column())
    }

    pub open spec fn spec_includes(self, index: CanvasIndex) -> bool {
        &&& self.row <= index.0
        &&& index.0 <= self.spec_last_row()
        &&& self.column <= index.1
        &&& index.1 <= self.spec_last_column()
    }

    /// How far and in which direction `index` lies from the rectangle, row-wise and
    /// column-wise: 0 along an axis where the index lies within the rectangle's span.
    pub open spec fn spec_away(self, index: CanvasIndex) -> (int, int) {
        if self.spec_includes(index) {
            (0, 0)
        } else {
            (
                axis_away(index.0 as int, self.row as int, self.spec_last_row()),
                axis_away(index.1 as int, self.column as int, self.spec_last_column()),
            )
        }
    }

    /// `away_index` runs without overflow on `index`.
    pub open spec fn away_fits(self, index: CanvasIndex) -> bool {
        &&& self.last_row_fits()
        &&& self.last_column_fits()
        &&& fits_i16(self.spec_away(index).0)
        &&& fits_i16(self.spec_away(index).1)
    }

    /// The rectangle that `include_index` leaves behind.
    pub open spec fn spec_include(self, index: CanvasIndex) -> CanvasRect {
        if self.rows == 0 || self.columns == 0 {
            CanvasRect { row: index.0, column: index.1, rows: 1, columns: 1 }
        } else {
            let (ra, ca) = self.spec_away(index);
            CanvasRect {
                row: if ra < 0 { index.0 } else { self.row },
                column: if ca < 0 { index.1 } else { self.column },
                rows: (self.rows + abs(ra)) as u16,
                columns: (self.columns + abs(ca)) as u16,
            }
        }
    }

    /// `include_index` runs without overflow on `index`.
    pub open spec fn include_fits(self, index: CanvasIndex) -> bool {
        self.rows == 0 || self.columns == 0 || {
            &&& self.away_fits(index)
            &&& self.spec_away(index).0 != i16::MIN
            &&& self.spec_away(index).1 != i16::MIN
            &&& self.rows + abs(self.spec_away(index).0) <= u16::MAX
            &&& self.columns + abs(self.spec_away(index).1) <= u16::MAX
        }
    }

    pub fn first_row(&self) -> (r: i16)
        ensures
            r == self.row,
    {
        self.row
    }

    pub fn first_column(&self) -> (c: i16)
        ensures
            c == self.column,
    {
        self.column
    }

    pub fn last_row(&self) -> (r: i16)
        requires
            self.last_row_fits(),
        ensures
            r == self.spec_last_row(),
    {
        proof {
            lemma_u16_as_i16(self.rows);
        }
        self.row + (self.rows as i16) - 1
    }

    pub fn last_column(&self) -> (c: i16)
        requires
            self.last_column_fits(),
        ensures
            c == self.spec_last_column(),
    {
        proof {
            lemma_u16_as_i16(self.columns);
        }
        self.column + (self.columns as i16) - 1
    }

    pub fn center(&self) -> (c: CanvasIndex)
        requires
            fits_i16(self.row + half_toward_zero(wrap_i16(self.rows))),
            fits_i16(self.column + half_toward_zero(wrap_i16(self.columns))),
        ensures
            c.0 == self.row + half_toward_zero(wrap_i16(self.rows)),
            c.1 == self.column + half_toward_zero(wrap_i16(self.columns)),
    {
        proof {
            lemma_u16_as_i16(self.rows);
            lemma_u16_as_i16(self.columns);
        }
        (self.row + (self.rows as i16 / 2), self.column + (self.columns as i16 / 2))
    }

    pub fn includes_index(&self, index: CanvasIndex) -> (b: bool)
        requires
            self.last_row_fits(),
            self.last_column_fits(),
        ensures
            b == self.spec_includes(index),
    {
        let (row, column) = index;
        row >= self.row && row <= self.last_row() && column >= self.column && column
            <= self.last_column()
    }

    /// Returns a tuple (rows, columns) describing how far and in which direction an index is away
    /// from self.
    pub fn away_index(&self, index: CanvasIndex) -> (r: (i16, i16))
        requires
            self.away_fits(index),
        ensures
            r.0 == self.spec_away(index).0,
            r.1 == self.spec_away(index).1,
    {
        if self.includes_index(index) {
            (0, 0)
        } else {
            let (row, column) = index;
            let last_row = self.last_row();
            let last_column = self.last_column();
            let rows = if row < self.row {
                (row as i32 - self.row as i32) as i16
            } else if row > last_row {
                (row as i32 - last_row as i32) as i16
            } else {
                0
            };
            let columns = if column < self.column {
                (column as i32 - self.column as i32) as i16
            } else if column > last_column {
                (column as i32 - last_column as i32) as i16
            } else {
                0
            };
            (rows, columns)
        }
    }

    pub fn include_index(&mut self, index: CanvasIndex)
        requires
            old(self).include_fits(index),
        ensures
            *final(self) == old(self).spec_include(index),
    {
        let (row, column) = index;
        if self.rows == 0 || self.columns == 0 {
            self.rows = 1;
            self.columns = 1;
            self.row = row;
            self.column = column;
        } else {
            let (rows_away, columns_away) = self.away_index(index);
            self.rows += abs_i16(rows_away) as u16;
            if rows_away < 0 {
                self.row = row;
            }
            self.columns += abs_i16(columns_away) as u16;
            if columns_away < 0 {
                self.column = column;
            }
        }
    }
}

/// `x.abs()` for an `i16` other than `i16::MIN`.
fn abs_i16(x: i16) -> (r: i16)
    requires
        x != i16::MIN,
    ensures
        r == abs(x as int),
{
    if x < 0 {
        -x
    } else {
        x
    }
}

/// After `include_index(index)` the rectangle includes `index`.
pub proof fn law_include_then_includes(rect: CanvasRect, index: CanvasIndex)
    requires
        rect.include_fits(index),
        rect.spec_include(index).last_row_fits(),
        rect.spec_include(index).last_column_fits(),
        rect.spec_include(index).rows <= 32767,
        rect.spec_include(index).columns <= 32767,
    ensures
        rect.spec_include(index).spec_includes(index),
{
    let r = rect.spec_include(index);
    lemma_u16_as_i16(rect.rows);
    lemma_u16_as_i16(rect.columns);
    lemma_u16_as_i16(r.rows);
    lemma_u16_as_i16(r.columns);
}

/// Including an index that a non-empty rectangle already includes changes nothing.
pub proof fn law_include_included_is_identity(rect: CanvasRect, index: CanvasIndex)
    requires
        rect.rows > 0,
        rect.columns > 0,
        rect.spec_includes(index),
    ensures
        rect.spec_include(index) == rect,
{
}

/// Including an index keeps every index the rectangle included before.
pub proof fn law_include_keeps_included(rect: CanvasRect, index: CanvasIndex, other: CanvasIndex)
    requires
        rect.include_fits(index),
        rect.spec_include(index).last_row_fits(),
        rect.spec_include(index).last_column_fits(),
        rect.spec_includes(other),
        rect.spec_include(index).rows <= 32767,
        rect.spec_include(index).columns <= 32767,
    ensures
        rect.spec_include(index).spec_includes(other),
{
    let r = rect.spec_include(index);
    lemma_u16_as_i16(rect.rows);
    lemma_u16_as_i16(rect.columns);
    lemma_u16_as_i16(r.rows);
    lemma_u16_as_i16(r.columns);
}

pub open spec fn min_int(a: int, b: int) -> int {
    if a <= b {
        a
    } else {
        b
    }
}

pub open spec fn max_int(a: int, b: int) -> int {
    if a >= b {
        a
    } else {
        b
    }
}

/// Including an index in a non-empty rectangle gives the smallest rectangle that holds both:
/// its first row is the lesser of the two first rows and its last row the greater of the two
/// last rows, and likewise for the columns.
pub proof fn law_include_is_bounding_box(rect: CanvasRect, index: CanvasIndex)
    requires
        rect.rows > 0,
        rect.columns > 0,
        rect.include_fits(index),
        rect.spec_include(index).rows <= 32767,
        rect.spec_include(index).columns <= 32767,
    ensures
        ({
            let r = rect.spec_include(index);
            &&& r.row == min_int(rect.row as int, index.0 as int)
            &&& r.spec_last_row() == max_int(rect.spec_last_row(), index.0 as int)
            &&& r.column == min_int(rect.column as int, index.1 as int)
            &&& r.spec_last_column() == max_int(rect.spec_last_column(), index.1 as int)
        }),
{
    let r = rect.spec_include(index);
    lemma_u16_as_i16(rect.rows);
    lemma_u16_as_i16(rect.columns);
    lemma_u16_as_i16(r.rows);
    lemma_u16_as_i16(r.columns);
}

fn fits_i16_exec(x: i32) -> (b: bool)
    ensures
        b == fits_i16(x as int),
{
    -32768 <= x && x <= 32767
}

fn abs_i32(x: i32) -> (r: i32)
    requires
        x > i32::MIN,
    ensures
        r == abs(x as int),
{
    if x < 0 {
        -x
    } else {
        x
    }
}

impl CanvasRect {
    /// Whether `include_index(index)` runs without overflow.
    pub fn can_include_index(&self, index: CanvasIndex) -> (b: bool)
        ensures
            b == self.include_fits(index),
    {
        if self.rows == 0 || self.columns == 0 {
            return true;
        }
        proof {
            lemma_u16_as_i16(self.rows);
            lemma_u16_as_i16(self.columns);
        }
        let rows_w = (self.rows as i16) as i32;
        let columns_w = (self.columns as i16) as i32;
        let row = self.row as i32;
        let column = self.column as i32;
        let last_row = row + rows_w - 1;
        let last_column = column + columns_w - 1;
        if !(fits_i16_exec(row + rows_w) && fits_i16_exec(last_row) && fits_i16_exec(column + columns_w)
            && fits_i16_exec(last_column)) {
            return false;
        }
        let r = index.0 as i32;
        let c = index.1 as i32;
        if r >= row && r <= last_row && c >= column && c <= last_column {
            return true;
        }
        let ra = if r < row {
            r - row
        } else if r > last_row {
            r - last_row
        } else {
            0
        };
        let ca = if c < column {
            c - column
        } else if c > last_column {
            c - last_column
        } else {
            0
        };
        if !(fits_i16_exec(ra) && fits_i16_exec(ca) && ra != -32768 && ca != -32768) {
            return false;
        }
        self.rows as i32 + abs_i32(ra) <= 65535 && self.columns as i32 + abs_i32(ca) <= 65535
    }
}

impl CanvasRect {
    /// The rectangle with the two indices as opposite corners.
    pub fn from_corners(corners: (CanvasIndex, CanvasIndex)) -> (r: CanvasRect)
        requires
            abs(corners.0.0 - corners.1.0) < u16::MAX,
            abs(corners.0.1 - corners.1.1) < u16::MAX,
        ensures
            r.row == min_int(corners.0.0 as int, corners.1.0 as int),
            r.column == min_int(corners.0.1 as int, corners.1.1 as int),
            r.rows == abs(corners.0.0 - corners.1.0) + 1,
            r.columns == abs(corners.0.1 - corners.1.1) + 1,
    {
        let (a, b) = corners;
        let row = if a.0 <= b.0 {
            a.0
        } else {
            b.0
        };
        let column = if a.1 <= b.1 {
            a.1
        } else {
            b.1
        };
        let rows = (if a.0 <= b.0 {
            b.0 as i32 - a.0 as i32
        } else {
            a.0 as i32 - b.0 as i32
        } + 1) as u16;
        let columns = (if a.1 <= b.1 {
            b.1 as i32 - a.1 as i32
        } else {
            a.1 as i32 - b.1 as i32
        } + 1) as u16;
        CanvasRect { row, column, rows, columns }
    }
}

/// Whether `index` lies in the rectangle with the two indices as opposite corners.
pub fn corners_include(corners: (CanvasIndex, CanvasIndex), index: CanvasIndex) -> (b: bool)
    ensures
        b == (min_int(corners.0.0 as int, corners.1.0 as int) <= index.0 <= max_int(
            corners.0.0 as int,
            corners.1.0 as int,
        ) && min_int(corners.0.1 as int, corners.1.1 as int) <= index.1 <= max_int(
            corners.0.1 as int,
            corners.1.1 as int,
        )),
{
    let (a, b) = corners;
    let (r0, r1) = if a.0 <= b.0 {
        (a.0, b.0)
    } else {
        (b.0, a.0)
    };
    let (c0, c1) = if a.1 <= b.1 {
        (a.1, b.1)
    } else {
        (b.1, a.1)
    };
    r0 <= index.0 && index.0 <= r1 && c0 <= index.1 && index.1 <= c1
}

} // verus!
