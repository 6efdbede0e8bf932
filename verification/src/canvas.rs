use vstd::prelude::*;

use crate::rect::{CanvasIndex, CanvasRect};
use crate::style::{spec_modifier_empty, Color, Ground, Modifier};
use crate::index_map::{
    entries_map, idx_lt, lemma_entries_map_absent, lemma_entries_map_at, lemma_entries_map_insert,
    lemma_entries_map_update, search, sorted_keys,
};

verus! {

/// One cell of a canvas: a character with its colors and modifiers.
#[derive(Debug, Clone, Copy, PartialEq, Eq, Structural)]
pub struct CanvasCell {
    pub character: char,
    pub fg: Color,
    pub bg: Color,
    pub modifiers: Modifier,
}

/// The cell that every index of a canvas holds until something is written there: a space with
/// the terminal's default colors and no modifiers.
pub open spec fn default_cell() -> CanvasCell {
    CanvasCell {
        character: ' ',
        fg: Color::Reset,
        bg: Color::Reset,
        modifiers: spec_modifier_empty(),
    }
}

pub open spec fn spec_has_sgr_effects(cell: CanvasCell) -> bool {
    cell.fg != Color::Reset || cell.bg != Color::Reset || cell.modifiers != spec_modifier_empty()
}

impl CanvasCell {
    pub fn default_cell() -> (c: CanvasCell)
        ensures
            c == default_cell(),
    {
        CanvasCell {
            character: ' ',
            fg: Color::Reset,
            bg: Color::Reset,
            modifiers: Modifier::empty(),
        }
    }

    pub fn from_char(character: char) -> (c: CanvasCell)
        ensures
            c == (CanvasCell { character, ..default_cell() }),
    {
        let mut cell = CanvasCell::default_cell();
        cell.character = character;
        cell
    }

    pub fn has_sgr_effects(&self) -> (b: bool)
        ensures
            b == spec_has_sgr_effects(*self),
    {
        let empty = self.modifiers.is_empty();
        !(self.fg == Color::Reset) || !(self.bg == Color::Reset) || !empty
    }
}

/// What reading index `k` gives: the stored cell, or the default cell.
pub open spec fn read_cell(m: Map<CanvasIndex, CanvasCell>, k: CanvasIndex) -> CanvasCell {
    if m.contains_key(k) {
        m[k]
    } else {
        default_cell()
    }
}

/// Every `include_index` along `idxs`, starting from `area`, runs without overflow.
pub open spec fn includes_fit(area: CanvasRect, idxs: Seq<CanvasIndex>) -> bool
    decreases idxs.len(),
{
    idxs.len() == 0 || (area.include_fits(idxs[0]) && includes_fit(
        area.spec_include(idxs[0]),
        idxs.drop_first(),
    ))
}

/// The area after including each of `idxs` in turn.
pub open spec fn area_after(area: CanvasRect, idxs: Seq<CanvasIndex>) -> CanvasRect
    decreases idxs.len(),
{
    if idxs.len() == 0 {
        area
    } else {
        area_after(area.spec_include(idxs[0]), idxs.drop_first())
    }
}

/// Including `s1` and then `s2` is including `s1 + s2`.
pub proof fn lemma_includes_concat(area: CanvasRect, s1: Seq<CanvasIndex>, s2: Seq<CanvasIndex>)
    ensures
        includes_fit(area, s1 + s2) == (includes_fit(area, s1) && includes_fit(
            area_after(area, s1),
            s2,
        )),
        area_after(area, s1 + s2) == area_after(area_after(area, s1), s2),
    decreases s1.len(),
{
    if s1.len() == 0 {
        assert(s1 + s2 =~= s2);
    } else {
        assert((s1 + s2).drop_first() =~= s1.drop_first() + s2);
        assert((s1 + s2)[0] == s1[0]);
        lemma_includes_concat(area.spec_include(s1[0]), s1.drop_first(), s2);
    }
}

/// A sparse canvas of cells. `cells` holds the cells that have been written, in row-major order;
/// every other index reads as the default cell. `area` is the rectangle the canvas has grown to.
#[derive(Debug)]
pub struct Canvas {
    pub area: CanvasRect,
    pub cells: Vec<(CanvasIndex, CanvasCell)>,
}

impl Clone for Canvas {
    fn clone(&self) -> (c: Self)
        ensures
            c.area == self.area,
            c.cells@ == self.cells@,
    {
        Canvas { area: self.area, cells: copy_cells(&self.cells) }
    }
}

/// An element-wise copy of `cells`.
pub fn copy_cells(cells: &Vec<(CanvasIndex, CanvasCell)>) -> (r: Vec<(CanvasIndex, CanvasCell)>)
    ensures
        r@ == cells@,
{
    let mut r: Vec<(CanvasIndex, CanvasCell)> = Vec::new();
    let mut i: usize = 0;
    while i < cells.len()
        invariant
            0 <= i <= cells@.len(),
            r@ == cells@.subrange(0, i as int),
        decreases cells@.len() - i,
    {
        r.push(cells[i]);
        i += 1;
    }
    assert(r@ =~= cells@);
    r
}

impl Canvas {
    pub open spec fn wf(&self) -> bool {
        sorted_keys(self.cells@)
    }

    /// The cells that have been written, by index.
    pub open spec fn cell_map(&self) -> Map<CanvasIndex, CanvasCell> {
        entries_map(self.cells@)
    }

    /// What reading `index` gives.
    pub open spec fn spec_cell(&self, index: CanvasIndex) -> CanvasCell {
        read_cell(self.cell_map(), index)
    }

    /// An empty canvas.
    pub fn new() -> (c: Canvas)
        ensures
            c.wf(),
            c.cell_map() == Map::<CanvasIndex, CanvasCell>::empty(),
            c.area == (CanvasRect { row: 0, column: 0, rows: 0, columns: 0 }),
    {
        let c = Canvas {
            area: CanvasRect { row: 0, column: 0, rows: 0, columns: 0 },
            cells: Vec::new(),
        };
        assert(c.cell_map() =~= Map::<CanvasIndex, CanvasCell>::empty());
        c
    }

    pub fn get(&self, index: CanvasIndex) -> (c: CanvasCell)
        requires
            self.wf(),
        ensures
            c == self.spec_cell(index),
    {
        let (found, pos) = search(&self.cells, index);
        if found {
            proof {
                lemma_entries_map_at(self.cells@, pos as int);
            }
            self.cells[pos].1
        } else {
            proof {
                assert forall|i: int| 0 <= i < self.cells@.len() implies self.cells@[i].0
                    != index by {
                    if i < pos {
                        assert(idx_lt(self.cells@[i].0, index));
                    } else {
                        assert(idx_lt(index, self.cells@[i].0));
                    }
                }
                lemma_entries_map_absent(self.cells@, index);
            }
            CanvasCell::default_cell()
        }
    }

    pub fn cell(&self, index: CanvasIndex) -> (c: CanvasCell)
        requires
            self.wf(),
        ensures
            c == self.spec_cell(index),
    {
        self.get(index)
    }

    pub fn character(&self, index: CanvasIndex) -> (c: char)
        requires
            self.wf(),
        ensures
            c == self.spec_cell(index).character,
    {
        self.get(index).character
    }

    pub fn fg(&self, index: CanvasIndex) -> (c: Color)
        requires
            self.wf(),
        ensures
            c == self.spec_cell(index).fg,
    {
        self.get(index).fg
    }

    pub fn bg(&self, index: CanvasIndex) -> (c: Color)
        requires
            self.wf(),
        ensures
            c == self.spec_cell(index).bg,
    {
        self.get(index).bg
    }

    pub fn color(&self, index: CanvasIndex, ground: Ground) -> (c: Color)
        requires
            self.wf(),
        ensures
            c == (match ground {
                Ground::Foreground => self.spec_cell(index).fg,
                Ground::Background => self.spec_cell(index).bg,
            }),
    {
        match ground {
            Ground::Foreground => self.fg(index),
            Ground::Background => self.bg(index),
        }
    }

    pub fn modifiers(&self, index: CanvasIndex) -> (m: Modifier)
        requires
            self.wf(),
        ensures
            m == self.spec_cell(index).modifiers,
    {
        self.get(index).modifiers
    }

    pub fn area(&self) -> (a: CanvasRect)
        ensures
            a == self.area,
    {
        self.area
    }

    pub fn dimensions(&self) -> (d: (u16, u16))
        ensures
            d == (self.area.rows, self.area.columns),
    {
        (self.area.rows, self.area.columns)
    }

    /// Stores `cell` at `index`, leaving the area as it is.
    pub fn set_cell(&mut self, index: CanvasIndex, cell: CanvasCell)
        requires
            old(self).wf(),
        ensures
            final(self).wf(),
            final(self).cell_map() == old(self).cell_map().insert(index, cell),
            final(self).area == old(self).area,
    {
        let (found, pos) = search(&self.cells, index);
        if found {
            proof {
                lemma_entries_map_update(self.cells@, pos as int, cell);
            }
            self.cells.set(pos, (index, cell));
        } else {
            proof {
                lemma_entries_map_insert(self.cells@, pos as int, index, cell);
            }
            self.cells.insert(pos, (index, cell));
        }
    }

    /// Grows the area to include `index`, then stores `cell` there.
    fn write(&mut self, index: CanvasIndex, cell: CanvasCell)
        requires
            old(self).wf(),
            old(self).area.include_fits(index),
        ensures
            final(self).wf(),
            final(self).cell_map() == old(self).cell_map().insert(index, cell),
            final(self).area == old(self).area.spec_include(index),
    {
        self.area.include_index(index);
        self.set_cell(index, cell);
    }

    pub fn set_character(&mut self, index: CanvasIndex, character: char)
        requires
            old(self).wf(),
            old(self).area.include_fits(index),
        ensures
            final(self).wf(),
            final(self).cell_map() == old(self).cell_map().insert(
                index,
                CanvasCell { character, ..old(self).spec_cell(index) },
            ),
            final(self).area == old(self).area.spec_include(index),
    {
        let mut cell = self.get(index);
        cell.character = character;
        self.write(index, cell);
    }

    pub fn set_fg(&mut self, index: CanvasIndex, color: Color)
        requires
            old(self).wf(),
            old(self).area.include_fits(index),
        ensures
            final(self).wf(),
            final(self).cell_map() == old(self).cell_map().insert(
                index,
                CanvasCell { fg: color, ..old(self).spec_cell(index) },
            ),
            final(self).area == old(self).area.spec_include(index),
    {
        let mut cell = self.get(index);
        cell.fg = color;
        self.write(index, cell);
    }

    pub fn set_bg(&mut self, index: CanvasIndex, color: Color)
        requires
            old(self).wf(),
            old(self).area.include_fits(index),
        ensures
            final(self).wf(),
            final(self).cell_map() == old(self).cell_map().insert(
                index,
                CanvasCell { bg: color, ..old(self).spec_cell(index) },
            ),
            final(self).area == old(self).area.spec_include(index),
    {
        let mut cell = self.get(index);
        cell.bg = color;
        self.write(index, cell);
    }

    pub fn set_color(&mut self, index: CanvasIndex, color: Color, ground: Ground)
        requires
            old(self).wf(),
            old(self).area.include_fits(index),
        ensures
            final(self).wf(),
            final(self).cell_map() == old(self).cell_map().insert(
                index,
                match ground {
                    Ground::Foreground => CanvasCell { fg: color, ..old(self).spec_cell(index) },
                    Ground::Background => CanvasCell { bg: color, ..old(self).spec_cell(index) },
                },
            ),
            final(self).area == old(self).area.spec_include(index),
    {
        match ground {
            Ground::Foreground => self.set_fg(index, color),
            Ground::Background => self.set_bg(index, color),
        }
    }

    pub fn set_modifiers(&mut self, index: CanvasIndex, modifiers: Modifier)
        requires
            old(self).wf(),
            old(self).area.include_fits(index),
        ensures
            final(self).wf(),
            final(self).cell_map() == old(self).cell_map().insert(
                index,
                CanvasCell { modifiers, ..old(self).spec_cell(index) },
            ),
            final(self).area == old(self).area.spec_include(index),
    {
        let mut cell = self.get(index);
        cell.modifiers = modifiers;
        self.write(index, cell);
    }

    pub fn add_modifier(&mut self, index: CanvasIndex, modifier: Modifier)
        requires
            old(self).wf(),
            old(self).area.include_fits(index),
        ensures
            final(self).wf(),
            final(self).cell_map() == old(self).cell_map().insert(
                index,
                CanvasCell {
                    modifiers: old(self).spec_cell(index).modifiers.spec_union(modifier),
                    ..old(self).spec_cell(index)
                },
            ),
            final(self).area == old(self).area.spec_include(index),
    {
        let mut cell = self.get(index);
        cell.modifiers.insert(modifier);
        self.write(index, cell);
    }

    pub fn remove_modifier(&mut self, index: CanvasIndex, modifier: Modifier)
        requires
            old(self).wf(),
            old(self).area.include_fits(index),
        ensures
            final(self).wf(),
            final(self).cell_map() == old(self).cell_map().insert(
                index,
                CanvasCell {
                    modifiers: old(self).spec_cell(index).modifiers.spec_difference(modifier),
                    ..old(self).spec_cell(index)
                },
            ),
            final(self).area == old(self).area.spec_include(index),
    {
        let mut cell = self.get(index);
        cell.modifiers.remove(modifier);
        self.write(index, cell);
    }
}

} // verus!
