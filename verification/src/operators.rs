use vstd::prelude::*;

use crate::canvas::{default_cell, read_cell, Canvas, CanvasCell};
use crate::history::VersionControlledCanvas;
use crate::index_map::{entries_map, lemma_entries_map_at, map_remove, map_set, sorted_keys};
use crate::operations::CanvasModification;
use crate::rect::CanvasIndex;
use crate::state::{ColorOrSlot, ColorOrSlotSpecification, ProgramState, Selection, SlotSpecification};
use crate::style::{CellContentType, Color, Ground, Modifier};
use crate::yank::{relative_fits, yank_map};
use crate::continuous_region::{
    area_padded, find_continuous_region, reachable, ContinuousRegionRelativeType, MatchCell,
    MatchCellSame, MatchValue,
};

verus! {

/// `value` matches where it is unset or equal.
pub open spec fn opt_matches<T>(value: Option<T>, target: T) -> bool {
    match value {
        Some(v) => v == target,
        None => true,
    }
}

pub open spec fn cell_matches(
    cell: CanvasCell,
    ch: Option<char>,
    fg: Option<Color>,
    bg: Option<Color>,
    modifiers: Option<Modifier>,
) -> bool {
    opt_matches(ch, cell.character) && opt_matches(fg, cell.fg) && opt_matches(bg, cell.bg)
        && opt_matches(modifiers, cell.modifiers)
}

fn opt_char_matches(value: Option<char>, target: char) -> (b: bool)
    ensures
        b == opt_matches(value, target),
{
    match value {
        Some(v) => v == target,
        None => true,
    }
}

fn opt_color_matches(value: Option<Color>, target: Color) -> (b: bool)
    ensures
        b == opt_matches(value, target),
{
    match value {
        Some(v) => v == target,
        None => true,
    }
}

fn opt_modifier_matches(value: Option<Modifier>, target: Modifier) -> (b: bool)
    ensures
        b == opt_matches(value, target),
{
    match value {
        Some(v) => v == target,
        None => true,
    }
}

impl Canvas {
    /// The indices of the stored cells whose aspects equal the given ones, the unset ones left
    /// out of the comparison, in row-major order.
    pub fn cells_matching_old(
        &self,
        ch: Option<char>,
        fg: Option<Color>,
        bg: Option<Color>,
        modifiers: Option<Modifier>,
    ) -> (r: Vec<CanvasIndex>)
        requires
            self.wf(),
        ensures
            forall|k: CanvasIndex| #[trigger] r@.contains(k) <==> self.cell_map().contains_key(k)
                && cell_matches(self.cell_map()[k], ch, fg, bg, modifiers),
            forall|i: int, j: int| 0 <= i < j < r@.len() ==> crate::index_map::idx_lt(#[trigger] r@[i], #[trigger] r@[j]),
    {
        let mut r: Vec<CanvasIndex> = Vec::new();
        let mut i: usize = 0;
        while i < self.cells.len()
            invariant
                self.wf(),
                0 <= i <= self.cells@.len(),
                forall|k: CanvasIndex| #[trigger] r@.contains(k) <==> exists|j: int|
                    0 <= j < i && self.cells@[j].0 == k && cell_matches(self.cells@[j].1, ch, fg, bg, modifiers),
                forall|a: int| 0 <= a < r@.len() ==> exists|j: int| 0 <= j < i && #[trigger] r@[a] == self.cells@[j].0,
                forall|a: int, b: int| 0 <= a < b < r@.len() ==> crate::index_map::idx_lt(#[trigger] r@[a], #[trigger] r@[b]),
            decreases self.cells@.len() - i,
        {
            let (index, cell) = self.cells[i];
            let m = opt_char_matches(ch, cell.character) && opt_color_matches(fg, cell.fg)
                && opt_color_matches(bg, cell.bg) && opt_modifier_matches(modifiers, cell.modifiers);
            let ghost r0 = r@;
            if m {
                r.push(index);
                proof {
                    assert forall|a: int, b: int| 0 <= a < b < r@.len() implies crate::index_map::idx_lt(#[trigger] r@[a], #[trigger] r@[b]) by {
                        if b == r@.len() - 1 {
                            let j = choose|j: int| 0 <= j < i && #[trigger] r0[a] == self.cells@[j].0;
                            assert(crate::index_map::idx_lt(self.cells@[j].0, self.cells@[i as int].0));
                        } else {
                            assert(r@[a] == r0[a]);
                            assert(r@[b] == r0[b]);
                        }
                    }
                    assert forall|a: int| 0 <= a < r@.len() implies exists|j: int| 0 <= j < i + 1 && #[trigger] r@[a] == self.cells@[j].0 by {
                        if a < r0.len() {
                            assert(r@[a] == r0[a]);
                        } else {
                            assert(r@[a] == self.cells@[i as int].0);
                        }
                    }
                    assert forall|k: CanvasIndex| #[trigger] r@.contains(k) <==> exists|j: int|
                        0 <= j < i + 1 && self.cells@[j].0 == k && cell_matches(self.cells@[j].1, ch, fg, bg, modifiers) by {
                        if r@.contains(k) {
                            let a = choose|a: int| 0 <= a < r@.len() && r@[a] == k;
                            if a < r0.len() {
                                assert(r0[a] == k);
                                assert(r0.contains(k));
                            } else {
                                assert(self.cells@[i as int].0 == k);
                            }
                        }
                        if exists|j: int| 0 <= j < i + 1 && self.cells@[j].0 == k && cell_matches(self.cells@[j].1, ch, fg, bg, modifiers) {
                            let j = choose|j: int| 0 <= j < i + 1 && self.cells@[j].0 == k && cell_matches(self.cells@[j].1, ch, fg, bg, modifiers);
                            if j < i {
                                assert(r0.contains(k));
                                let a = choose|a: int| 0 <= a < r0.len() && r0[a] == k;
                                assert(r@[a] == k);
                            } else {
                                assert(r@[r@.len() - 1] == k);
                            }
                        }
                    }
                }
            } else {
                proof {
                    assert forall|k: CanvasIndex| #[trigger] r@.contains(k) <==> exists|j: int|
                        0 <= j < i + 1 && self.cells@[j].0 == k && cell_matches(self.cells@[j].1, ch, fg, bg, modifiers) by {
                        if exists|j: int| 0 <= j < i + 1 && self.cells@[j].0 == k && cell_matches(self.cells@[j].1, ch, fg, bg, modifiers) {
                            let j = choose|j: int| 0 <= j < i + 1 && self.cells@[j].0 == k && cell_matches(self.cells@[j].1, ch, fg, bg, modifiers);
                            assert(j != i);
                        }
                    }
                }
            }
            i += 1;
        }
        proof {
            assert forall|k: CanvasIndex| #[trigger] r@.contains(k) <==> self.cell_map().contains_key(k)
                && cell_matches(self.cell_map()[k], ch, fg, bg, modifiers) by {
                if r@.contains(k) {
                    let j = choose|j: int| 0 <= j < self.cells@.len() && self.cells@[j].0 == k && cell_matches(self.cells@[j].1, ch, fg, bg, modifiers);
                    lemma_entries_map_at(self.cells@, j);
                }
                if self.cell_map().contains_key(k) {
                    let j = choose|j: int| 0 <= j < self.cells@.len() && #[trigger] self.cells@[j].0 == k;
                    lemma_entries_map_at(self.cells@, j);
                }
            }
        }
        r
    }
}

impl Canvas {
    /// The selection of the stored cells that `match_cell` matches.
    pub fn cells_matching<M: MatchValue<CanvasCell>>(&self, match_cell: &M) -> (r: Selection)
        requires
            self.wf(),
        ensures
            r.wf(),
            forall|k: CanvasIndex| #[trigger] r.index_set().contains(k) <==> self.cell_map().contains_key(k)
                && match_cell.spec_matches(self.cell_map()[k]),
    {
        let mut v: Vec<(CanvasIndex, ())> = Vec::new();
        let mut i: usize = 0;
        proof {
            assert(entries_map(v@).dom() =~= Set::<CanvasIndex>::empty());
        }
        while i < self.cells.len()
            invariant
                self.wf(),
                0 <= i <= self.cells@.len(),
                sorted_keys(v@),
                forall|a: int| 0 <= a < v@.len() ==> exists|j: int| 0 <= j < i && #[trigger] v@[a].0 == self.cells@[j].0,
                forall|k: CanvasIndex| #[trigger] entries_map(v@).dom().contains(k) <==> exists|j: int|
                    0 <= j < i && self.cells@[j].0 == k && match_cell.spec_matches(self.cells@[j].1),
            decreases self.cells@.len() - i,
        {
            let (index, cell) = self.cells[i];
            let ghost v0 = v@;
            if match_cell.matches(&cell) {
                proof {
                    assert forall|a: int| 0 <= a < v0.len() implies crate::index_map::idx_lt(#[trigger] v0[a].0, index) by {
                        let j = choose|j: int| 0 <= j < i && #[trigger] v0[a].0 == self.cells@[j].0;
                        assert(crate::index_map::idx_lt(self.cells@[j].0, self.cells@[i as int].0));
                    }
                    crate::index_map::lemma_entries_map_insert(v0, v0.len() as int, index, ());
                    assert(v0.insert(v0.len() as int, (index, ())) =~= v0.push((index, ())));
                }
                v.push((index, ()));
                proof {
                    assert forall|a: int| 0 <= a < v@.len() implies exists|j: int| 0 <= j < i + 1 && #[trigger] v@[a].0 == self.cells@[j].0 by {
                        if a < v0.len() {
                            assert(v@[a] == v0[a]);
                        } else {
                            assert(v@[a].0 == self.cells@[i as int].0);
                        }
                    }
                    assert forall|k: CanvasIndex| #[trigger] entries_map(v@).dom().contains(k) <==> exists|j: int|
                        0 <= j < i + 1 && self.cells@[j].0 == k && match_cell.spec_matches(self.cells@[j].1) by {
                        if entries_map(v@).dom().contains(k) && k != index {
                            assert(entries_map(v0).dom().contains(k));
                        }
                        if k == index {
                            assert(self.cells@[i as int].0 == k);
                        }
                    }
                }
            } else {
                proof {
                    assert forall|k: CanvasIndex| #[trigger] entries_map(v@).dom().contains(k) <==> exists|j: int|
                        0 <= j < i + 1 && self.cells@[j].0 == k && match_cell.spec_matches(self.cells@[j].1) by {
                        if exists|j: int| 0 <= j < i + 1 && self.cells@[j].0 == k && match_cell.spec_matches(self.cells@[j].1) {
                            let j = choose|j: int| 0 <= j < i + 1 && self.cells@[j].0 == k && match_cell.spec_matches(self.cells@[j].1);
                            assert(j != i);
                        }
                    }
                }
            }
            i += 1;
        }
        let r = Selection { indices: v };
        proof {
            assert forall|k: CanvasIndex| #[trigger] r.index_set().contains(k) <==> self.cell_map().contains_key(k)
                && match_cell.spec_matches(self.cell_map()[k]) by {
                if r.index_set().contains(k) {
                    let j = choose|j: int| 0 <= j < self.cells@.len() && self.cells@[j].0 == k && match_cell.spec_matches(self.cells@[j].1);
                    lemma_entries_map_at(self.cells@, j);
                }
                if self.cell_map().contains_key(k) {
                    let j = choose|j: int| 0 <= j < self.cells@.len() && #[trigger] self.cells@[j].0 == k;
                    lemma_entries_map_at(self.cells@, j);
                }
            }
        }
        r
    }
}

/// The set of the first `i + 1` elements is that of the first `i` with element `i` added.
proof fn lemma_take_to_set(s: Seq<CanvasIndex>, i: int)
    requires
        0 <= i < s.len(),
    ensures
        s.take(i + 1).to_set() == s.take(i).to_set().insert(s[i]),
{
    let a = s.take(i + 1);
    let b = s.take(i);
    assert forall|k: CanvasIndex| a.to_set().contains(k) == b.to_set().insert(s[i]).contains(k) by {
        if a.contains(k) {
            let j = choose|j: int| 0 <= j < a.len() && #[trigger] a[j] == k;
            if j < i {
                assert(b[j] == k);
            }
        }
        if b.contains(k) {
            let j = choose|j: int| 0 <= j < b.len() && #[trigger] b[j] == k;
            assert(a[j] == k);
        }
        if k == s[i] {
            assert(a[i] == k);
        }
    }
    assert(a.to_set() =~= b.to_set().insert(s[i]));
}

impl Selection {
    pub fn new() -> (r: Self)
        ensures
            r.wf(),
            r.indices@.len() == 0,
            r.index_set() == Set::<CanvasIndex>::empty(),
    {
        let r = Selection { indices: Vec::new() };
        assert(r.index_set() =~= Set::<CanvasIndex>::empty());
        r
    }

    /// Whether `index` is in the selection.
    pub fn contains(&self, index: CanvasIndex) -> (b: bool)
        requires
            self.wf(),
        ensures
            b == self.index_set().contains(index),
    {
        let (found, pos) = crate::index_map::search(&self.indices, index);
        proof {
            if found {
                lemma_entries_map_at(self.indices@, pos as int);
            } else {
                assert forall|j: int| 0 <= j < self.indices@.len() implies #[trigger] self.indices@[j].0 != index by {
                    if j < pos {
                        assert(crate::index_map::idx_lt(self.indices@[j].0, index));
                    } else {
                        assert(crate::index_map::idx_lt(index, self.indices@[j].0));
                    }
                }
                crate::index_map::lemma_entries_map_absent(self.indices@, index);
            }
        }
        found
    }

    /// Adds every index of `indices`.
    pub fn add_all(&mut self, indices: &Vec<CanvasIndex>)
        requires
            old(self).wf(),
        ensures
            final(self).wf(),
            final(self).index_set() == old(self).index_set().union(indices@.to_set()),
    {
        let mut i: usize = 0;
        while i < indices.len()
            invariant
                self.wf(),
                0 <= i <= indices@.len(),
                self.index_set() == old(self).index_set().union(indices@.take(i as int).to_set()),
            decreases indices@.len() - i,
        {
            map_set(&mut self.indices, indices[i], ());
            proof {
                lemma_take_to_set(indices@, i as int);
                assert(self.index_set() =~= old(self).index_set().union(indices@.take(i as int + 1).to_set()));
            }
            i += 1;
        }
        proof {
            assert(indices@.take(indices@.len() as int) =~= indices@);
        }
    }

    /// Removes every index of `indices`.
    pub fn remove_all(&mut self, indices: &Vec<CanvasIndex>)
        requires
            old(self).wf(),
        ensures
            final(self).wf(),
            final(self).index_set() == old(self).index_set().difference(indices@.to_set()),
    {
        let mut i: usize = 0;
        while i < indices.len()
            invariant
                self.wf(),
                0 <= i <= indices@.len(),
                self.index_set() == old(self).index_set().difference(indices@.take(i as int).to_set()),
            decreases indices@.len() - i,
        {
            map_remove(&mut self.indices, indices[i]);
            proof {
                lemma_take_to_set(indices@, i as int);
                assert(self.index_set() =~= old(self).index_set().difference(indices@.take(i as int + 1).to_set()));
            }
            i += 1;
        }
        proof {
            assert(indices@.take(indices@.len() as int) =~= indices@);
        }
    }

    /// The indices of the selection, in row-major order.
    pub fn to_vec(&self) -> (r: Vec<CanvasIndex>)
        requires
            self.wf(),
        ensures
            r@.len() == self.indices@.len(),
            forall|j: int| 0 <= j < r@.len() ==> #[trigger] r@[j] == self.indices@[j].0,
            forall|k: CanvasIndex| #[trigger] r@.contains(k) <==> self.index_set().contains(k),
    {
        let mut r: Vec<CanvasIndex> = Vec::new();
        let mut i: usize = 0;
        while i < self.indices.len()
            invariant
                0 <= i <= self.indices@.len(),
                r@.len() == i,
                forall|j: int| 0 <= j < i ==> #[trigger] r@[j] == self.indices@[j].0,
            decreases self.indices@.len() - i,
        {
            r.push(self.indices[i].0);
            i += 1;
        }
        proof {
            assert forall|k: CanvasIndex| #[trigger] r@.contains(k) <==> self.index_set().contains(k) by {
                if r@.contains(k) {
                    let j = choose|j: int| 0 <= j < r@.len() && r@[j] == k;
                    lemma_entries_map_at(self.indices@, j);
                }
                if self.index_set().contains(k) {
                    let j = choose|j: int| 0 <= j < self.indices@.len() && #[trigger] self.indices@[j].0 == k;
                    assert(r@[j] == k);
                }
            }
        }
        r
    }
}

/// The cursor position alone.
#[derive(Debug, Clone, Copy)]
pub struct Stay {}

impl Stay {
    pub fn cells(&self, program_state: &ProgramState) -> (r: Vec<CanvasIndex>)
        ensures
            r@ == seq![program_state.cursor_position],
    {
        let mut r: Vec<CanvasIndex> = Vec::new();
        r.push(program_state.cursor_position);
        proof {
            assert(r@ =~= seq![program_state.cursor_position]);
        }
        r
    }
}

/// The indices of a selection.
#[derive(Debug, Clone, Copy)]
pub struct SelectionMotion {
    pub slot: SlotSpecification,
}

impl SelectionMotion {
    /// The indices of the selection in the slot, in row-major order; none where the slot is
    /// empty.
    pub fn cells(&self, program_state: &ProgramState) -> (r: Vec<CanvasIndex>)
        requires
            program_state.wf(),
        ensures
            ({
                let c = program_state.spec_selection_slot(self.slot);
                let sel = program_state.selections.view_map();
                &&& sel.contains_key(c) ==> forall|k: CanvasIndex| #[trigger] r@.contains(k) <==> sel[c].index_set().contains(k)
                &&& sel.contains_key(c) ==> r@.len() == sel[c].indices@.len()
                &&& !sel.contains_key(c) ==> r@.len() == 0
            }),
    {
        let slot = self.slot.as_selection_slot(program_state);
        match program_state.selections.get(slot) {
            Some(selection) => selection.to_vec(),
            None => Vec::new(),
        }
    }
}

/// The cells whose aspects named by `content_type` equal those of the cell under the cursor.
#[derive(Debug, Clone, Copy)]
pub struct MatchingCells {
    pub content_type: CellContentType,
}

impl MatchingCells {
    /// The stored cells that match, in row-major order.
    pub fn cells(&self, program_state: &ProgramState) -> (r: Vec<CanvasIndex>)
        requires
            program_state.wf(),
        ensures
            ({
                let canvas = program_state.canvas.current;
                let here = read_cell(canvas.cell_map(), program_state.cursor_position);
                let ct = self.content_type;
                forall|k: CanvasIndex| #[trigger] r@.contains(k) <==> canvas.cell_map().contains_key(k)
                    && cell_matches(
                    canvas.cell_map()[k],
                    if ct.text { Some(here.character) } else { None },
                    if ct.fg { Some(here.fg) } else { None },
                    if ct.bg { Some(here.bg) } else { None },
                    if ct.modifiers { Some(here.modifiers) } else { None },
                )
            }),
    {
        let canvas = program_state.canvas.raw();
        let here = canvas.cell(program_state.cursor_position);
        let ct = self.content_type;
        let ch = if ct.text { Some(here.character) } else { None };
        let fg = if ct.fg { Some(here.fg) } else { None };
        let bg = if ct.bg { Some(here.bg) } else { None };
        let modifiers = if ct.modifiers { Some(here.modifiers) } else { None };
        canvas.cells_matching_old(ch, fg, bg, modifiers)
    }
}

/// How a selection is updated with new indices.
#[derive(Debug, Clone, Copy, PartialEq, Eq, Structural)]
pub enum UpdateSelectionOperator {
    Add,
    Overwrite,
    Subtract,
}

/// Colors the cells, in one commit, with a color or the color in a slot.
#[derive(Debug, Clone, Copy)]
pub struct Colorize {
    pub ground: Ground,
    pub color: ColorOrSlotSpecification,
}

/// The color that a color-or-slot stands for, if the slot holds one.
pub open spec fn resolved_color(s: ProgramState, c: ColorOrSlot) -> Option<Color> {
    match c {
        ColorOrSlot::Color(color) => Some(color),
        ColorOrSlot::Slot(ch) => if s.color_slots.view_map().contains_key(ch) {
            Some(s.color_slots.view_map()[ch])
        } else {
            None
        },
    }
}

impl Colorize {
    pub open spec fn modifications(&self, cells: Seq<CanvasIndex>, color: Color) -> Seq<CanvasModification> {
        Seq::new(
            cells.len(),
            |j: int|
                if self.ground == Ground::Foreground {
                    CanvasModification::SetFgColor(cells[j], color)
                } else {
                    CanvasModification::SetBgColor(cells[j], color)
                },
        )
    }

    pub open spec fn requirement(&self, cells: Seq<CanvasIndex>, s: ProgramState) -> bool {
        match resolved_color(s, s.spec_color_or_slot(self.color)) {
            Some(color) => s.canvas.can_commit(self.modifications(cells, color)),
            None => true,
        }
    }

    pub open spec fn effect(&self, cells: Seq<CanvasIndex>, before: ProgramState, after: ProgramState) -> bool {
        &&& after == (ProgramState { canvas: after.canvas, ..before })
        &&& match resolved_color(before, before.spec_color_or_slot(self.color)) {
            Some(color) => before.canvas.create_commit_step(after.canvas, self.modifications(cells, color)),
            None => after.canvas == before.canvas,
        }
    }

    pub fn operate(&self, cell_indices: &Vec<CanvasIndex>, program_state: &mut ProgramState)
        requires
            old(program_state).wf(),
            self.requirement(cell_indices@, *old(program_state)),
        ensures
            final(program_state).wf(),
            self.effect(cell_indices@, *old(program_state), *final(program_state)),
    {
        let color = match self.color.as_color_or_slot(program_state) {
            ColorOrSlot::Slot(ch) => match program_state.color_slots.get(ch) {
                Some(color) => *color,
                None => {
                    return;
                },
            },
            ColorOrSlot::Color(color) => color,
        };
        let mut operations: Vec<CanvasModification> = Vec::new();
        let mut i: usize = 0;
        while i < cell_indices.len()
            invariant
                0 <= i <= cell_indices@.len(),
                operations@ == self.modifications(cell_indices@, color).take(i as int),
            decreases cell_indices@.len() - i,
        {
            let index = cell_indices[i];
            let op = match self.ground {
                Ground::Foreground => CanvasModification::SetFgColor(index, color),
                Ground::Background => CanvasModification::SetBgColor(index, color),
            };
            operations.push(op);
            proof {
                assert(operations@ =~= self.modifications(cell_indices@, color).take(i as int + 1));
            }
            i += 1;
        }
        proof {
            assert(self.modifications(cell_indices@, color).take(cell_indices@.len() as int) =~= self.modifications(cell_indices@, color));
        }
        program_state.canvas.create_commit(operations);
    }
}

/// Replaces the character of the cells, in one commit.
#[derive(Debug, Clone, Copy)]
pub struct Replace {
    pub ch: char,
}

impl Replace {
    pub open spec fn modifications(&self, cells: Seq<CanvasIndex>) -> Seq<CanvasModification> {
        Seq::new(cells.len(), |j: int| CanvasModification::SetCharacter(cells[j], self.ch))
    }

    pub open spec fn requirement(&self, cells: Seq<CanvasIndex>, s: ProgramState) -> bool {
        s.canvas.can_commit(self.modifications(cells))
    }

    pub open spec fn effect(&self, cells: Seq<CanvasIndex>, before: ProgramState, after: ProgramState) -> bool {
        &&& after == (ProgramState { canvas: after.canvas, ..before })
        &&& before.canvas.create_commit_step(after.canvas, self.modifications(cells))
    }

    pub fn operate(&self, cell_indices: &Vec<CanvasIndex>, program_state: &mut ProgramState)
        requires
            old(program_state).wf(),
            self.requirement(cell_indices@, *old(program_state)),
        ensures
            final(program_state).wf(),
            self.effect(cell_indices@, *old(program_state), *final(program_state)),
    {
        let mut operations: Vec<CanvasModification> = Vec::new();
        let mut i: usize = 0;
        while i < cell_indices.len()
            invariant
                0 <= i <= cell_indices@.len(),
                operations@ == self.modifications(cell_indices@).take(i as int),
            decreases cell_indices@.len() - i,
        {
            operations.push(CanvasModification::SetCharacter(cell_indices[i], self.ch));
            proof {
                assert(operations@ =~= self.modifications(cell_indices@).take(i as int + 1));
            }
            i += 1;
        }
        proof {
            assert(self.modifications(cell_indices@).take(cell_indices@.len() as int) =~= self.modifications(cell_indices@));
        }
        program_state.canvas.create_commit(operations);
    }
}

/// Updates a selection with the cells, and highlights it where asked to.
#[derive(Debug, Clone, Copy)]
pub struct UpdateSelection {
    pub operator: UpdateSelectionOperator,
    pub slot: SlotSpecification,
    pub highlight: bool,
}

impl UpdateSelection {
    /// The indices of the selection after the update.
    pub open spec fn updated(&self, cells: Seq<CanvasIndex>, s: ProgramState) -> Set<CanvasIndex> {
        let c = s.spec_selection_slot(self.slot);
        let before = if s.selections.view_map().contains_key(c) {
            s.selections.view_map()[c].index_set()
        } else {
            Set::empty()
        };
        match self.operator {
            UpdateSelectionOperator::Add => before.union(cells.to_set()),
            UpdateSelectionOperator::Overwrite => cells.to_set(),
            UpdateSelectionOperator::Subtract => before.difference(cells.to_set()),
        }
    }

    pub open spec fn effect(&self, cells: Seq<CanvasIndex>, before: ProgramState, after: ProgramState) -> bool {
        let c = before.spec_selection_slot(self.slot);
        &&& after == (ProgramState {
            selections: after.selections,
            selection_highlight: if self.highlight {
                Some(c)
            } else {
                before.selection_highlight
            },
            ..before
        })
        &&& after.selections.view_map().dom() == before.selections.view_map().dom().insert(c)
        &&& after.selections.view_map()[c].index_set() == self.updated(cells, before)
        &&& forall|d: char| d != c && #[trigger] before.selections.view_map().contains_key(d)
            ==> after.selections.view_map()[d] == before.selections.view_map()[d]
    }

    pub fn operate(&self, cell_indices: &Vec<CanvasIndex>, program_state: &mut ProgramState)
        requires
            old(program_state).wf(),
        ensures
            final(program_state).wf(),
            self.effect(cell_indices@, *old(program_state), *final(program_state)),
    {
        let slot = self.slot.as_selection_slot(program_state);
        let ghost before = program_state.selections.view_map();
        let mut selection = match program_state.selections.remove(slot) {
            Some(selection) => selection,
            None => Selection::new(),
        };
        match self.operator {
            UpdateSelectionOperator::Add => selection.add_all(cell_indices),
            UpdateSelectionOperator::Overwrite => {
                let mut fresh = Selection::new();
                fresh.add_all(cell_indices);
                proof {
                    assert(fresh.index_set() =~= cell_indices@.to_set());
                }
                selection = fresh;
            },
            UpdateSelectionOperator::Subtract => selection.remove_all(cell_indices),
        }
        program_state.selections.insert(slot, selection);
        if self.highlight {
            program_state.selection_highlight = Some(slot);
        }
        proof {
            assert(program_state.selections.view_map().dom() =~= before.dom().insert(slot));
        }
    }
}

/// Yanks the cells into a yank slot, relative to the cursor.
#[derive(Debug, Clone, Copy)]
pub struct Yank {
    pub content_type: CellContentType,
    pub slot: SlotSpecification,
}

impl Yank {
    pub open spec fn requirement(&self, cells: Seq<CanvasIndex>, s: ProgramState) -> bool {
        forall|j: int| 0 <= j < cells.len() ==> relative_fits(#[trigger] cells[j], s.cursor_position)
    }

    pub open spec fn effect(&self, cells: Seq<CanvasIndex>, before: ProgramState, after: ProgramState) -> bool {
        let c = before.spec_yank_slot(self.slot);
        let y = after.yanks.view_map()[c];
        &&& after == (ProgramState { yanks: after.yanks, ..before })
        &&& after.yanks.view_map().dom() == before.yanks.view_map().dom().insert(c)
        &&& y.content_type == self.content_type
        &&& entries_map(y.cells@) == yank_map(
            before.canvas.current.cell_map(),
            cells,
            self.content_type,
            before.cursor_position,
        )
        &&& forall|d: char| d != c && #[trigger] before.yanks.view_map().contains_key(d)
            ==> after.yanks.view_map()[d] == before.yanks.view_map()[d]
    }

    pub fn operate(&self, cell_indices: &Vec<CanvasIndex>, program_state: &mut ProgramState)
        requires
            old(program_state).wf(),
            self.requirement(cell_indices@, *old(program_state)),
        ensures
            final(program_state).wf(),
            self.effect(cell_indices@, *old(program_state), *final(program_state)),
    {
        let yank = program_state.canvas.raw().yank(cell_indices, self.content_type, program_state.cursor_position);
        let slot = self.slot.as_yank_slot(program_state);
        let ghost before = program_state.yanks.view_map();
        program_state.yanks.insert(slot, yank);
        proof {
            assert(program_state.yanks.view_map().dom() =~= before.dom().insert(slot));
        }
    }
}

/// Yanks the cells, then clears them in one commit.
#[derive(Debug, Clone, Copy)]
pub struct Cut {
    pub content_type: CellContentType,
    pub slot: SlotSpecification,
}

impl Cut {
    pub open spec fn modifications(&self, cells: Seq<CanvasIndex>) -> Seq<CanvasModification> {
        Seq::new(cells.len(), |j: int| CanvasModification::SetCell(cells[j], default_cell()))
    }

    pub open spec fn requirement(&self, cells: Seq<CanvasIndex>, s: ProgramState) -> bool {
        &&& (Yank { content_type: self.content_type, slot: self.slot }).requirement(cells, s)
        &&& s.canvas.can_commit(self.modifications(cells))
    }

    pub open spec fn effect(&self, cells: Seq<CanvasIndex>, before: ProgramState, after: ProgramState) -> bool {
        let yanked = ProgramState { yanks: after.yanks, ..before };
        &&& (Yank { content_type: self.content_type, slot: self.slot }).effect(cells, before, yanked)
        &&& after == (ProgramState { canvas: after.canvas, ..yanked })
        &&& before.canvas.create_commit_step(after.canvas, self.modifications(cells))
    }

    pub fn operate(&self, cell_indices: &Vec<CanvasIndex>, program_state: &mut ProgramState)
        requires
            old(program_state).wf(),
            self.requirement(cell_indices@, *old(program_state)),
        ensures
            final(program_state).wf(),
            self.effect(cell_indices@, *old(program_state), *final(program_state)),
    {
        let yank = Yank { content_type: self.content_type, slot: self.slot };
        yank.operate(cell_indices, program_state);
        let mut operations: Vec<CanvasModification> = Vec::new();
        let mut i: usize = 0;
        while i < cell_indices.len()
            invariant
                0 <= i <= cell_indices@.len(),
                operations@ == self.modifications(cell_indices@).take(i as int),
            decreases cell_indices@.len() - i,
        {
            operations.push(CanvasModification::SetCell(cell_indices[i], CanvasCell::default_cell()));
            proof {
                assert(operations@ =~= self.modifications(cell_indices@).take(i as int + 1));
            }
            i += 1;
        }
        proof {
            assert(self.modifications(cell_indices@).take(cell_indices@.len() as int) =~= self.modifications(cell_indices@));
        }
        program_state.canvas.create_commit(operations);
    }
}

/// An operator applied to the cells a motion gives.
#[derive(Debug, Clone, Copy)]
pub enum OperatorEnum {
    Colorize(Colorize),
    Replace(Replace),
    UpdateSelection(UpdateSelection),
    Yank(Yank),
    Cut(Cut),
}

impl OperatorEnum {
    pub open spec fn requirement(&self, cells: Seq<CanvasIndex>, s: ProgramState) -> bool {
        match self {
            OperatorEnum::Colorize(o) => o.requirement(cells, s),
            OperatorEnum::Replace(o) => o.requirement(cells, s),
            OperatorEnum::UpdateSelection(_) => true,
            OperatorEnum::Yank(o) => o.requirement(cells, s),
            OperatorEnum::Cut(o) => o.requirement(cells, s),
        }
    }

    pub open spec fn effect(&self, cells: Seq<CanvasIndex>, before: ProgramState, after: ProgramState) -> bool {
        match self {
            OperatorEnum::Colorize(o) => o.effect(cells, before, after),
            OperatorEnum::Replace(o) => o.effect(cells, before, after),
            OperatorEnum::UpdateSelection(o) => o.effect(cells, before, after),
            OperatorEnum::Yank(o) => o.effect(cells, before, after),
            OperatorEnum::Cut(o) => o.effect(cells, before, after),
        }
    }

    pub fn operate(&self, cell_indices: &Vec<CanvasIndex>, program_state: &mut ProgramState)
        requires
            old(program_state).wf(),
            self.requirement(cell_indices@, *old(program_state)),
        ensures
            final(program_state).wf(),
            self.effect(cell_indices@, *old(program_state), *final(program_state)),
    {
        match self {
            OperatorEnum::Colorize(o) => o.operate(cell_indices, program_state),
            OperatorEnum::Replace(o) => o.operate(cell_indices, program_state),
            OperatorEnum::UpdateSelection(o) => o.operate(cell_indices, program_state),
            OperatorEnum::Yank(o) => o.operate(cell_indices, program_state),
            OperatorEnum::Cut(o) => o.operate(cell_indices, program_state),
        }
    }
}

/// An operator applied to the cells of a motion. The cells come from the motion, which the
/// caller evaluates.
#[derive(Debug, Clone, Copy)]
pub struct Operation {
    pub operator: OperatorEnum,
}

impl Operation {
    pub fn execute(&self, cells: &Vec<CanvasIndex>, program_state: &mut ProgramState)
        requires
            old(program_state).wf(),
            self.operator.requirement(cells@, *old(program_state)),
        ensures
            final(program_state).wf(),
            self.operator.effect(cells@, *old(program_state), *final(program_state)),
    {
        self.operator.operate(cells, program_state);
    }
}

/// The region of cells around the cursor that are like the cell under it, or unlike it.
#[derive(Debug, Clone, Copy)]
pub struct ContinuousRegion {
    pub relative_type: ContinuousRegionRelativeType,
    pub diagonals_allowed: bool,
}

impl ContinuousRegion {
    /// The condition the region's cells meet, given the cell under the cursor.
    pub open spec fn condition(&self, here: CanvasCell) -> MatchCell {
        match self.relative_type {
            ContinuousRegionRelativeType::Same(ct) => MatchCell::Same(MatchCellSame::spec_from_cell(here, ct)),
            ContinuousRegionRelativeType::NotSame(ct) => MatchCell::NotSame(MatchCellSame::spec_from_cell(here, ct)),
            ContinuousRegionRelativeType::NonBlank(ct) => MatchCell::NotSame(MatchCellSame::spec_from_cell(default_cell(), ct)),
        }
    }

    /// The cells of the region, in row-major order.
    pub fn cells(&self, program_state: &ProgramState) -> (r: Vec<CanvasIndex>)
        requires
            program_state.wf(),
            area_padded(program_state.canvas.current.area),
        ensures
            ({
                let canvas = program_state.canvas.current;
                let here = read_cell(canvas.cell_map(), program_state.cursor_position);
                forall|k: CanvasIndex| #[trigger] r@.contains(k) <==> reachable(
                    canvas,
                    self.condition(here),
                    self.diagonals_allowed,
                    program_state.cursor_position,
                    k,
                )
            }),
    {
        let canvas = program_state.canvas.raw();
        let start = program_state.cursor_position;
        let here = canvas.get(start);
        let match_cell = MatchCell::from_relative(&here, self.relative_type);
        let region = find_continuous_region(canvas, start, &match_cell, self.diagonals_allowed);
        region.to_vec()
    }
}

} // verus!
