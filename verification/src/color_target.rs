use vstd::prelude::*;

use crate::canvas::{area_after, includes_fit, lemma_includes_concat, read_cell, CanvasCell};
use crate::history::{lemma_clear_staged_step, lemma_stage_step, same_canvas, VersionControlledCanvas};
use crate::index_map::{entries_map, lemma_entries_map_at, lemma_sorted_listing};
use crate::operations::{
    apply_entries, apply_entry, apply_unit_to_cell, builder_add_entries, builder_add_entry, builder_add_modifications, diff_writes,
    empty_unit, merge_unit, modification_diff, reverse_unit, reversed_entries, unit_changes, lemma_apply_entries_read, unit_writes, CanvasDiffUnit,
    CanvasModification,
};
use crate::rect::CanvasIndex;
use crate::state::ProgramState;
use crate::style::{Color, Ground};

verus! {

/// The diff unit that sets the color of one ground.
pub open spec fn ground_unit(ground: Ground, color: Color) -> CanvasDiffUnit {
    match ground {
        Ground::Foreground => CanvasDiffUnit { fg: Some(color), ..empty_unit() },
        Ground::Background => CanvasDiffUnit { bg: Some(color), ..empty_unit() },
    }
}

/// The modification that sets the color of one ground at `index`.
pub open spec fn ground_modification(index: CanvasIndex, ground: Ground, color: Color) -> CanvasModification {
    match ground {
        Ground::Foreground => CanvasModification::SetFgColor(index, color),
        Ground::Background => CanvasModification::SetBgColor(index, color),
    }
}

/// The cells and the staged units after staging `u` at each of `idxs` in turn, starting from
/// the cells `cells` and the staged units `staged`.
pub open spec fn staged_colors(
    cells: Map<CanvasIndex, CanvasCell>,
    staged: Map<CanvasIndex, CanvasDiffUnit>,
    idxs: Seq<CanvasIndex>,
    u: CanvasDiffUnit,
) -> (Map<CanvasIndex, CanvasCell>, Map<CanvasIndex, CanvasDiffUnit>)
    decreases idxs.len(),
{
    if idxs.len() == 0 {
        (cells, staged)
    } else {
        let before = staged_colors(cells, staged, idxs.drop_last(), u);
        let e = seq![(idxs.last(), u)];
        (apply_entries(before.0, e), builder_add_entries(before.1, reversed_entries(before.0, e), false))
    }
}

/// Staging the color of one ground at `index` applies exactly the unit that sets it, which
/// grows the area by that index once.
proof fn lemma_ground_stage_diff(
    canvas: VersionControlledCanvas,
    index: CanvasIndex,
    ground: Ground,
    color: Color,
)
    ensures
        canvas.stage_diff(ground_modification(index, ground, color)) == seq![
            (index, ground_unit(ground, color)),
        ],
        diff_writes(seq![(index, ground_unit(ground, color))]) == seq![index],
{
    let m = ground_modification(index, ground, color);
    let u = ground_unit(ground, color);
    let s = seq![(index, u)];
    let cells = canvas.current.cell_map();
    let empty = Map::<CanvasIndex, CanvasDiffUnit>::empty();
    assert(seq![m].drop_first() =~= Seq::<CanvasModification>::empty());
    assert(modification_diff(m, cells) == s);
    assert(s.drop_first() =~= Seq::<(CanvasIndex, CanvasDiffUnit)>::empty());
    let one = builder_add_entry(empty, (index, u), true);
    assert(builder_add_entries(one, s.drop_first(), true) == one);
    assert(builder_add_entries(empty, s, true) == one);
    assert(merge_unit(empty_unit(), u, true) == u);
    let built = builder_add_modifications(empty, seq![m], cells, true);
    assert(builder_add_modifications(one, seq![m].drop_first(), cells, true) == one);
    assert(built == one);
    assert(built == empty.insert(index, u));
    lemma_entries_map_at(s, 0);
    assert(entries_map(s) =~= built);
    lemma_sorted_listing(s);
    assert(unit_writes(index, u) =~= seq![index]);
    assert(diff_writes(s) == unit_writes(index, u) + diff_writes(s.drop_first()));
    assert(diff_writes(s) =~= seq![index]);
}

/// Staging `u` at indices in turn: each index holds `u` applied to what it read
/// at the start, and the staged unit at each index sets back what it read at the start.
proof fn lemma_staged_colors(cells: Map<CanvasIndex, CanvasCell>, idxs: Seq<CanvasIndex>, u: CanvasDiffUnit)
    requires
        unit_changes(u),
    ensures
        ({
            let r = staged_colors(cells, Map::empty(), idxs, u);
            &&& forall|k: CanvasIndex| #[trigger] r.1.contains_key(k) <==> idxs.contains(k)
            &&& forall|k: CanvasIndex| #[trigger] r.1.contains_key(k) ==> r.1[k] == reverse_unit(read_cell(cells, k), u)
            &&& forall|k: CanvasIndex| #[trigger] read_cell(r.0, k) == if idxs.contains(k) {
                apply_unit_to_cell(read_cell(cells, k), u)
            } else {
                read_cell(cells, k)
            }
        }),
    decreases idxs.len(),
{
    if idxs.len() > 0 {
        let prev_idxs = idxs.drop_last();
        let c = idxs.last();
        assert(idxs =~= prev_idxs.push(c));
        lemma_staged_colors(cells, prev_idxs, u);
        let prev = staged_colors(cells, Map::empty(), prev_idxs, u);
        let e = seq![(c, u)];
        let rev = reverse_unit(read_cell(prev.0, c), u);
        assert(e.drop_first() =~= Seq::<(CanvasIndex, CanvasDiffUnit)>::empty());
        let m1 = apply_entry(prev.0, (c, u));
        assert(apply_entries(m1, e.drop_first()) == m1);
        assert(apply_entries(prev.0, e) == m1);
        assert(reversed_entries(m1, e.drop_first()) =~= Seq::<(CanvasIndex, CanvasDiffUnit)>::empty());
        let re = reversed_entries(prev.0, e);
        assert(re =~= seq![(c, rev)]);
        assert(re.drop_first() =~= Seq::<(CanvasIndex, CanvasDiffUnit)>::empty());
        let s1 = builder_add_entry(prev.1, (c, rev), false);
        assert(builder_add_entries(s1, re.drop_first(), false) == s1);
        assert(builder_add_entries(prev.1, re, false) == s1);
        // A cell staged before keeps what sets it back to how it read at the start.
        let first = reverse_unit(read_cell(cells, c), u);
        if prev_idxs.contains(c) {
            assert(prev.1.contains_key(c));
            assert(merge_unit(first, rev, false) == first);
            assert(s1 == prev.1.insert(c, first));
        } else {
            assert(read_cell(prev.0, c) == read_cell(cells, c));
            assert(merge_unit(empty_unit(), rev, false) == rev);
            assert(s1 == prev.1.insert(c, first));
        }
        let r = staged_colors(cells, Map::empty(), idxs, u);
        assert(r == (m1, s1));
        assert forall|k: CanvasIndex| #[trigger] idxs.contains(k) <==> (prev_idxs.contains(k) || k == c) by {
            if idxs.contains(k) {
                let i = choose|i: int| 0 <= i < idxs.len() && idxs[i] == k;
                if i < prev_idxs.len() {
                    assert(prev_idxs[i] == k);
                }
            }
            if prev_idxs.contains(k) {
                let i = choose|i: int| 0 <= i < prev_idxs.len() && prev_idxs[i] == k;
                assert(idxs[i] == k);
            }
            if k == c {
                assert(idxs[idxs.len() - 1] == k);
            }
        }
        assert(m1 == prev.0.insert(c, apply_unit_to_cell(read_cell(cells, c), u)));
        assert(s1 == prev.1.insert(c, first));
        assert forall|k: CanvasIndex| #[trigger] read_cell(r.0, k) == if idxs.contains(k) {
            apply_unit_to_cell(read_cell(cells, k), u)
        } else {
            read_cell(cells, k)
        } by {
            assert(idxs.contains(k) <==> (prev_idxs.contains(k) || k == c));
            if k != c {
                assert(read_cell(m1, k) == read_cell(prev.0, k));
            }
        }
    } else {
        assert forall|k: CanvasIndex| #[trigger] staged_colors(cells, Map::empty(), idxs, u).1.contains_key(k) <==> idxs.contains(k) by {
            if idxs.contains(k) {
                let i = choose|i: int| 0 <= i < idxs.len() && idxs[i] == k;
            }
        }
    }
}

/// Showing a color at cells and then clearing what is staged makes every index read what it
/// read once the earlier preview was set back.
pub proof fn law_clear_staged_after_set_color(
    target: ColorPickerTargetMotion,
    cells: Seq<CanvasIndex>,
    color: Color,
    a: ProgramState,
    b: ProgramState,
    c: VersionControlledCanvas,
)
    requires
        target.shown(cells, color, a, b),
        b.canvas.wf(),
        b.canvas.clear_staged_step(c),
    ensures
        forall|k: CanvasIndex| #[trigger] read_cell(c.current.cell_map(), k) == read_cell(
            apply_entries(a.canvas.current.cell_map(), a.canvas.staging_area.entries@),
            k,
        ),
{
    let cleared = apply_entries(a.canvas.current.cell_map(), a.canvas.staging_area.entries@);
    let u = ground_unit(target.ground, color);
    lemma_staged_colors(cleared, cells, u);
    lemma_clear_staged_step(b.canvas, c);
    let e = b.canvas.staging_area.entries@;
    let m = b.canvas.current.cell_map();
    assert forall|k: CanvasIndex| #[trigger] read_cell(c.current.cell_map(), k) == read_cell(cleared, k) by {
        lemma_apply_entries_read(m, e, k);
        if cells.contains(k) {
            assert(entries_map(e).contains_key(k));
            let j = choose|j: int| 0 <= j < e.len() && #[trigger] e[j].0 == k;
            lemma_entries_map_at(e, j);
            assert(e[j].1 == reverse_unit(read_cell(cleared, k), u));
        } else {
            assert forall|j: int| 0 <= j < e.len() implies #[trigger] e[j].0 != k by {
                if e[j].0 == k {
                    lemma_entries_map_at(e, j);
                }
            }
        }
    }
}

/// A color picker's target: the color of one ground at the cells of a motion. The caller
/// evaluates the motion and hands over its cells.
#[derive(Debug, Clone, Copy)]
pub struct ColorPickerTargetMotion {
    pub ground: Ground,
}

impl ColorPickerTargetMotion {
    /// The color the picker starts from: that of the first cell, or the default color where
    /// there are no cells.
    pub fn get_color(&self, cells: &Vec<CanvasIndex>, program_state: &ProgramState) -> (c: Color)
        requires
            program_state.wf(),
        ensures
            cells@.len() == 0 ==> c == Color::Reset,
            cells@.len() > 0 ==> c == (match self.ground {
                Ground::Foreground => program_state.canvas.current.spec_cell(cells@[0]).fg,
                Ground::Background => program_state.canvas.current.spec_cell(cells@[0]).bg,
            }),
    {
        if cells.len() > 0 {
            program_state.canvas.raw().color(cells[0], self.ground)
        } else {
            Color::Reset
        }
    }

    /// Setting the color runs without overflow: the staged modifications are set back, then
    /// the area grows by each of the cells in turn.
    pub open spec fn can_set(&self, cells: Seq<CanvasIndex>, s: ProgramState) -> bool {
        let c = s.canvas;
        &&& includes_fit(c.current.area, diff_writes(c.staging_area.entries@))
        &&& includes_fit(area_after(c.current.area, diff_writes(c.staging_area.entries@)), cells)
    }

    /// `after` is `before` with `color` shown at `cells`: the staged modifications were set
    /// back, then the color was staged at each cell in turn; nothing else changed.
    pub open spec fn shown(&self, cells: Seq<CanvasIndex>, color: Color, before: ProgramState, after: ProgramState) -> bool {
        let a = before.canvas;
        let b = after.canvas;
        let cleared = apply_entries(a.current.cell_map(), a.staging_area.entries@);
        let r = staged_colors(cleared, Map::empty(), cells, ground_unit(self.ground, color));
        &&& after == (ProgramState { canvas: after.canvas, ..before })
        &&& same_canvas(b.initial, a.initial)
        &&& b.current.cell_map() == r.0
        &&& b.staging_area.unit_map() == r.1
        &&& b.current.area == area_after(
            area_after(a.current.area, diff_writes(a.staging_area.entries@)),
            cells,
        )
        &&& b.commits@ == a.commits@
        &&& b.commits_unapplied@ == a.commits_unapplied@
        &&& b.revision_counter == a.revision_counter
    }

    /// Shows `color` at the cells: what was staged before is set back, then the color is
    /// staged at each cell in turn.
    pub fn set_color(&self, cells: &Vec<CanvasIndex>, color: Color, program_state: &mut ProgramState)
        requires
            old(program_state).wf(),
            self.can_set(cells@, *old(program_state)),
        ensures
            final(program_state).wf(),
            self.shown(cells@, color, *old(program_state), *final(program_state)),
    {
        let ghost start = *program_state;
        let ghost u = ground_unit(self.ground, color);
        program_state.canvas.clear_staged();
        proof {
            lemma_clear_staged_step(start.canvas, program_state.canvas);
            assert(program_state.canvas.staging_area.entries@ =~= Seq::<
                (CanvasIndex, CanvasDiffUnit),
            >::empty());
            assert(program_state.canvas.staging_area.unit_map() =~= Map::<
                CanvasIndex,
                CanvasDiffUnit,
            >::empty());
            assert(cells@.take(0) =~= Seq::<CanvasIndex>::empty());
        }
        let ghost cleared = program_state.canvas.current.cell_map();
        let ghost area0 = program_state.canvas.current.area;
        let mut i: usize = 0;
        while i < cells.len()
            invariant
                0 <= i <= cells@.len(),
                program_state.wf(),
                *program_state == (ProgramState { canvas: program_state.canvas, ..start }),
                includes_fit(area0, cells@),
                (program_state.canvas.current.cell_map(), program_state.canvas.staging_area.unit_map())
                    == staged_colors(cleared, Map::empty(), cells@.take(i as int), u),
                program_state.canvas.current.area == area_after(area0, cells@.take(i as int)),
                same_canvas(program_state.canvas.initial, start.canvas.initial),
                program_state.canvas.commits@ == start.canvas.commits@,
                program_state.canvas.commits_unapplied@ == start.canvas.commits_unapplied@,
                program_state.canvas.revision_counter == start.canvas.revision_counter,
                u == ground_unit(self.ground, color),
            decreases cells@.len() - i,
        {
            let index = cells[i];
            let m = CanvasModification::set_color(index, self.ground, color);
            let ghost before = program_state.canvas;
            proof {
                lemma_ground_stage_diff(before, index, self.ground, color);
                let done = cells@.take(i as int);
                assert(cells@.take(i as int + 1) =~= done + seq![index]);
                assert(cells@ =~= cells@.take(i as int + 1) + cells@.skip(i as int + 1));
                lemma_includes_concat(area0, cells@.take(i as int + 1), cells@.skip(i as int + 1));
                lemma_includes_concat(area0, done, seq![index]);
            }
            program_state.canvas.stage(m);
            proof {
                lemma_stage_step(before, program_state.canvas, m);
                assert(cells@.take(i as int + 1).drop_last() =~= cells@.take(i as int));
                assert(cells@.take(i as int + 1).last() == index);
            }
            i += 1;
        }
        proof {
            assert(cells@.take(cells@.len() as int) =~= cells@);
        }
    }
}

} // verus!
