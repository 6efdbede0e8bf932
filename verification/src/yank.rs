use vstd::prelude::*;

use crate::canvas::{area_after, copy_cells, includes_fit, read_cell, Canvas, CanvasCell};
use crate::index_map::{entries_map, lemma_entries_map_at, map_set, sorted_keys};
use crate::rect::{fits_i16, CanvasIndex};
use crate::style::{spec_modifier_empty, CellContentType, Color, Modifier};

verus! {

/// A piece of art yanked from a canvas: cells by their index relative to the yank's origin,
/// and which aspects of the cells it carries.
#[derive(Debug)]
pub struct CanvasYank {
    pub cells: Vec<(CanvasIndex, CanvasCell)>,
    pub content_type: CellContentType,
}

impl Clone for CanvasYank {
    fn clone(&self) -> (r: Self)
        ensures
            r.cells@ == self.cells@,
            r.content_type == self.content_type,
    {
        let cells = copy_cells(&self.cells);
        CanvasYank { cells, content_type: self.content_type }
    }
}

impl CanvasYank {
    pub open spec fn wf(&self) -> bool {
        sorted_keys(self.cells@)
    }

    /// The yanked cells, by relative index.
    pub open spec fn cell_map(&self) -> Map<CanvasIndex, CanvasCell> {
        entries_map(self.cells@)
    }
}

/// `cell` with the aspects that `content_type` leaves out set to their defaults.
pub open spec fn masked_cell(cell: CanvasCell, content_type: CellContentType) -> CanvasCell {
    CanvasCell {
        character: if content_type.text {
            cell.character
        } else {
            ' '
        },
        fg: if content_type.fg {
            cell.fg
        } else {
            Color::Reset
        },
        bg: if content_type.bg {
            cell.bg
        } else {
            Color::Reset
        },
        modifiers: if content_type.modifiers {
            cell.modifiers
        } else {
            spec_modifier_empty()
        },
    }
}

/// `index - origo` stays in `i16`.
pub open spec fn relative_fits(index: CanvasIndex, origo: CanvasIndex) -> bool {
    fits_i16(index.0 - origo.0) && fits_i16(index.1 - origo.1)
}

pub open spec fn relative(index: CanvasIndex, origo: CanvasIndex) -> CanvasIndex {
    ((index.0 - origo.0) as i16, (index.1 - origo.1) as i16)
}

/// `origo + offset` stays in `i16`.
pub open spec fn shift_fits(origo: CanvasIndex, offset: CanvasIndex) -> bool {
    fits_i16(origo.0 + offset.0) && fits_i16(origo.1 + offset.1)
}

pub open spec fn shifted(origo: CanvasIndex, offset: CanvasIndex) -> CanvasIndex {
    ((origo.0 + offset.0) as i16, (origo.1 + offset.1) as i16)
}

/// What a yank of `indices` relative to `origo` holds: at `index - origo`, the cell read at
/// `index`, masked by `content_type`.
pub open spec fn yank_map(
    cells: Map<CanvasIndex, CanvasCell>,
    indices: Seq<CanvasIndex>,
    content_type: CellContentType,
    origo: CanvasIndex,
) -> Map<CanvasIndex, CanvasCell> {
    Map::new(
        |k: CanvasIndex| exists|j: int| 0 <= j < indices.len() && relative(#[trigger] indices[j], origo) == k,
        |k: CanvasIndex| masked_cell(read_cell(cells, shifted(origo, k)), content_type),
    )
}

/// `cell` with the aspects that `content_type` names taken from `pasted`.
pub open spec fn paste_cell(cell: CanvasCell, pasted: CanvasCell, content_type: CellContentType) -> CanvasCell {
    CanvasCell {
        character: if content_type.text {
            pasted.character
        } else {
            cell.character
        },
        fg: if content_type.fg {
            pasted.fg
        } else {
            cell.fg
        },
        bg: if content_type.bg {
            pasted.bg
        } else {
            cell.bg
        },
        modifiers: if content_type.modifiers {
            pasted.modifiers
        } else {
            cell.modifiers
        },
    }
}

/// Every target index `origo + offset` of a paste stays in `i16`.
pub open spec fn paste_fits(origo: CanvasIndex, cells: Seq<(CanvasIndex, CanvasCell)>) -> bool {
    forall|j: int| 0 <= j < cells.len() ==> shift_fits(origo, #[trigger] cells[j].0)
}

/// The target indices of a paste, in the order it writes them.
pub open spec fn paste_targets(origo: CanvasIndex, cells: Seq<(CanvasIndex, CanvasCell)>) -> Seq<
    CanvasIndex,
> {
    Seq::new(cells.len(), |j: int| shifted(origo, cells[j].0))
}

/// The cells after pasting `cells` at `origo`, one entry after the other.
pub open spec fn paste_map(
    m: Map<CanvasIndex, CanvasCell>,
    cells: Seq<(CanvasIndex, CanvasCell)>,
    origo: CanvasIndex,
    content_type: CellContentType,
) -> Map<CanvasIndex, CanvasCell>
    decreases cells.len(),
{
    if cells.len() == 0 {
        m
    } else {
        let prev = paste_map(m, cells.drop_last(), origo, content_type);
        let target = shifted(origo, cells.last().0);
        prev.insert(target, paste_cell(read_cell(prev, target), cells.last().1, content_type))
    }
}

impl Canvas {
    /// Yanks the cells at `indices`, keyed by their position relative to `origo`; the aspects
    /// that `content_type` leaves out are reset to their defaults.
    pub fn yank(&self, indices: &Vec<CanvasIndex>, content_type: CellContentType, origo: CanvasIndex) -> (r:
        CanvasYank)
        requires
            self.wf(),
            forall|j: int| 0 <= j < indices@.len() ==> relative_fits(#[trigger] indices@[j], origo),
        ensures
            r.wf(),
            r.content_type == content_type,
            r.cell_map() == yank_map(self.cell_map(), indices@, content_type, origo),
    {
        let mut cells: Vec<(CanvasIndex, CanvasCell)> = Vec::new();
        let mut i: usize = 0;
        proof {
            assert(entries_map(cells@) =~= yank_map(self.cell_map(), indices@.take(0), content_type, origo));
        }
        while i < indices.len()
            invariant
                self.wf(),
                0 <= i <= indices@.len(),
                forall|j: int| 0 <= j < indices@.len() ==> relative_fits(#[trigger] indices@[j], origo),
                sorted_keys(cells@),
                entries_map(cells@) == yank_map(self.cell_map(), indices@.take(i as int), content_type, origo),
            decreases indices@.len() - i,
        {
            let index = indices[i];
            assert(relative_fits(indices@[i as int], origo));
            let mut cell = self.get(index);
            if !content_type.text {
                cell.character = ' ';
            }
            if !content_type.fg {
                cell.fg = Color::Reset;
            }
            if !content_type.bg {
                cell.bg = Color::Reset;
            }
            if !content_type.modifiers {
                cell.modifiers = Modifier::empty();
            }
            let key: CanvasIndex = (index.0 - origo.0, index.1 - origo.1);
            let ghost before = entries_map(cells@);
            map_set(&mut cells, key, cell);
            proof {
                let prev = indices@.take(i as int);
                let next = indices@.take(i as int + 1);
                let target = yank_map(self.cell_map(), next, content_type, origo);
                assert(shifted(origo, key) == index);
                assert forall|k: CanvasIndex| #[trigger] target.contains_key(k) <==> entries_map(cells@).contains_key(k) by {
                    if target.contains_key(k) {
                        let j = choose|j: int| 0 <= j < next.len() && relative(#[trigger] next[j], origo) == k;
                        if j < i {
                            assert(prev[j] == next[j]);
                        }
                    }
                    if before.contains_key(k) {
                        let j = choose|j: int| 0 <= j < prev.len() && relative(#[trigger] prev[j], origo) == k;
                        assert(next[j] == prev[j]);
                    }
                    if k == key {
                        assert(next[i as int] == index);
                    }
                }
                assert(target =~= entries_map(cells@));
            }
            i += 1;
        }
        proof {
            assert(indices@.take(indices@.len() as int) =~= indices@);
        }
        CanvasYank { cells, content_type }
    }

    /// Pastes `yank` with its origin at `origo`: each yanked cell's aspects named by the yank's
    /// content type are written at `origo` plus the cell's relative index.
    pub fn paste(&mut self, yank: &CanvasYank, origo: CanvasIndex)
        requires
            old(self).wf(),
            yank.wf(),
            paste_fits(origo, yank.cells@),
            includes_fit(old(self).area, paste_targets(origo, yank.cells@)),
        ensures
            final(self).wf(),
            final(self).cell_map() == paste_map(
                old(self).cell_map(),
                yank.cells@,
                origo,
                yank.content_type,
            ),
            final(self).area == area_after(old(self).area, paste_targets(origo, yank.cells@)),
    {
        let ghost targets = paste_targets(origo, yank.cells@);
        let ghost area0 = self.area;
        let ghost m0 = self.cell_map();
        let mut i: usize = 0;
        proof {
            assert(yank.cells@.take(0) =~= Seq::<(CanvasIndex, CanvasCell)>::empty());
            assert(targets.skip(0) =~= targets);
        }
        while i < yank.cells.len()
            invariant
                self.wf(),
                yank.wf(),
                0 <= i <= yank.cells@.len(),
                paste_fits(origo, yank.cells@),
                targets == paste_targets(origo, yank.cells@),
                includes_fit(self.area, targets.skip(i as int)),
                area_after(self.area, targets.skip(i as int)) == area_after(area0, targets),
                self.cell_map() == paste_map(m0, yank.cells@.take(i as int), origo, yank.content_type),
            decreases yank.cells@.len() - i,
        {
            let (offset, pasted) = yank.cells[i];
            assert(shift_fits(origo, yank.cells@[i as int].0));
            let index: CanvasIndex = (origo.0 + offset.0, origo.1 + offset.1);
            proof {
                assert(targets.skip(i as int)[0] == index);
                assert(targets.skip(i as int).drop_first() =~= targets.skip(i as int + 1));
            }
            let mut cell = self.get(index);
            if yank.content_type.text {
                cell.character = pasted.character;
            }
            if yank.content_type.fg {
                cell.fg = pasted.fg;
            }
            if yank.content_type.bg {
                cell.bg = pasted.bg;
            }
            if yank.content_type.modifiers {
                cell.modifiers = pasted.modifiers;
            }
            self.area.include_index(index);
            self.set_cell(index, cell);
            proof {
                let t = yank.cells@.take(i as int + 1);
                assert(t.drop_last() =~= yank.cells@.take(i as int));
                assert(t.last() == yank.cells@[i as int]);
            }
            i += 1;
        }
        proof {
            assert(yank.cells@.take(yank.cells@.len() as int) =~= yank.cells@);
            assert(targets.skip(yank.cells@.len() as int) =~= Seq::<CanvasIndex>::empty());
        }
    }
}


/// Where a paste reads what it writes: every cell holds what the paste writes over it.
pub open spec fn pastes_in_place(
    m: Map<CanvasIndex, CanvasCell>,
    cells: Seq<(CanvasIndex, CanvasCell)>,
    origo: CanvasIndex,
    content_type: CellContentType,
) -> bool {
    forall|j: int|
        0 <= j < cells.len() ==> #[trigger] paste_cell(
            read_cell(m, shifted(origo, cells[j].0)),
            cells[j].1,
            content_type,
        ) == read_cell(m, shifted(origo, cells[j].0))
}

proof fn lemma_paste_in_place(
    m: Map<CanvasIndex, CanvasCell>,
    cells: Seq<(CanvasIndex, CanvasCell)>,
    origo: CanvasIndex,
    content_type: CellContentType,
)
    requires
        pastes_in_place(m, cells, origo, content_type),
    ensures
        forall|p: CanvasIndex| #[trigger] read_cell(paste_map(m, cells, origo, content_type), p)
            == read_cell(m, p),
    decreases cells.len(),
{
    if cells.len() > 0 {
        let d = cells.drop_last();
        assert forall|j: int| 0 <= j < d.len() implies #[trigger] paste_cell(
            read_cell(m, shifted(origo, d[j].0)),
            d[j].1,
            content_type,
        ) == read_cell(m, shifted(origo, d[j].0)) by {
            assert(d[j] == cells[j]);
        }
        lemma_paste_in_place(m, d, origo, content_type);
        let prev = paste_map(m, d, origo, content_type);
        let t = shifted(origo, cells.last().0);
        assert(paste_cell(read_cell(m, t), cells.last().1, content_type) == read_cell(m, t)) by {
            assert(cells.last() == cells[cells.len() - 1]);
        }
        assert(read_cell(prev, t) == read_cell(m, t));
        let v = paste_cell(read_cell(prev, t), cells.last().1, content_type);
        assert(paste_map(m, cells, origo, content_type) == prev.insert(t, v));
        assert forall|p: CanvasIndex| #[trigger] read_cell(prev.insert(t, v), p) == read_cell(m, p) by {
            if p != t {
                assert(read_cell(prev, p) == read_cell(m, p));
            }
        }
    }
}

/// Pasting a yank where it was taken, onto the cells it was taken from, changes no cell: every
/// index reads as it did.
pub proof fn law_paste_yank_in_place(
    m: Map<CanvasIndex, CanvasCell>,
    yank: CanvasYank,
    indices: Seq<CanvasIndex>,
    origo: CanvasIndex,
)
    requires
        yank.wf(),
        forall|j: int| 0 <= j < indices.len() ==> relative_fits(#[trigger] indices[j], origo),
        yank.cell_map() == yank_map(m, indices, yank.content_type, origo),
    ensures
        forall|p: CanvasIndex| #[trigger] read_cell(
            paste_map(m, yank.cells@, origo, yank.content_type),
            p,
        ) == read_cell(m, p),
{
    let ct = yank.content_type;
    let cells = yank.cells@;
    assert forall|j: int| 0 <= j < cells.len() implies #[trigger] paste_cell(
        read_cell(m, shifted(origo, cells[j].0)),
        cells[j].1,
        ct,
    ) == read_cell(m, shifted(origo, cells[j].0)) by {
        lemma_entries_map_at(cells, j);
        let k = cells[j].0;
        assert(yank_map(m, indices, ct, origo).contains_key(k));
        assert(cells[j].1 == masked_cell(read_cell(m, shifted(origo, k)), ct));
    }
    lemma_paste_in_place(m, cells, origo, ct);
}

/// After a paste, the cell at `origo + k` carries the aspects that the pasted cell at `k` holds
/// in the aspects the content type names, and keeps its own in the others.
pub proof fn law_paste_places_yank(
    m: Map<CanvasIndex, CanvasCell>,
    yank: CanvasYank,
    origo: CanvasIndex,
    j: int,
)
    requires
        yank.wf(),
        paste_fits(origo, yank.cells@),
        0 <= j < yank.cells@.len(),
    ensures
        ({
            let t = shifted(origo, yank.cells@[j].0);
            let after = read_cell(paste_map(m, yank.cells@, origo, yank.content_type), t);
            after == paste_cell(read_cell(m, t), yank.cells@[j].1, yank.content_type)
        }),
{
    lemma_paste_places(m, yank.cells@, origo, yank.content_type, j);
}

/// A paste changes no index other than those it pastes to.
proof fn lemma_paste_elsewhere(
    m: Map<CanvasIndex, CanvasCell>,
    cells: Seq<(CanvasIndex, CanvasCell)>,
    origo: CanvasIndex,
    content_type: CellContentType,
    q: CanvasIndex,
)
    requires
        forall|j: int| 0 <= j < cells.len() ==> shifted(origo, #[trigger] cells[j].0) != q,
    ensures
        read_cell(paste_map(m, cells, origo, content_type), q) == read_cell(m, q),
    decreases cells.len(),
{
    if cells.len() > 0 {
        let d = cells.drop_last();
        assert forall|j: int| 0 <= j < d.len() implies shifted(origo, #[trigger] d[j].0) != q by {
            assert(d[j] == cells[j]);
        }
        lemma_paste_elsewhere(m, d, origo, content_type, q);
        assert(shifted(origo, cells[cells.len() - 1].0) != q);
    }
}

/// Pasting at `target` what was yanked from `indices` around `origo` puts, at each yanked index
/// moved from `origo` to `target`, the aspects the yank took from the index, and keeps the
/// others; every index the paste does not reach reads as before.
pub proof fn law_paste_of_yank(
    source: Map<CanvasIndex, CanvasCell>,
    dest: Map<CanvasIndex, CanvasCell>,
    yank: CanvasYank,
    indices: Seq<CanvasIndex>,
    origo: CanvasIndex,
    target: CanvasIndex,
)
    requires
        yank.wf(),
        forall|j: int| 0 <= j < indices.len() ==> relative_fits(#[trigger] indices[j], origo),
        yank.cell_map() == yank_map(source, indices, yank.content_type, origo),
        paste_fits(target, yank.cells@),
    ensures
        forall|j: int|
            0 <= j < indices.len() ==> {
                let t = shifted(target, relative(#[trigger] indices[j], origo));
                read_cell(paste_map(dest, yank.cells@, target, yank.content_type), t) == paste_cell(
                    read_cell(dest, t),
                    read_cell(source, indices[j]),
                    yank.content_type,
                )
            },
        forall|q: CanvasIndex|
            (forall|j: int| 0 <= j < indices.len() ==> q != shifted(target, relative(#[trigger] indices[j], origo)))
                ==> #[trigger] read_cell(paste_map(dest, yank.cells@, target, yank.content_type), q)
                == read_cell(dest, q),
{
    let cells = yank.cells@;
    let ct = yank.content_type;
    assert forall|j: int| 0 <= j < indices.len() implies {
        let t = shifted(target, relative(#[trigger] indices[j], origo));
        read_cell(paste_map(dest, cells, target, ct), t) == paste_cell(read_cell(dest, t), read_cell(source, indices[j]), ct)
    } by {
        let k = relative(indices[j], origo);
        assert(yank_map(source, indices, ct, origo).contains_key(k));
        let jj = choose|jj: int| 0 <= jj < cells.len() && #[trigger] cells[jj].0 == k;
        lemma_entries_map_at(cells, jj);
        lemma_paste_places(dest, cells, target, ct, jj);
        assert(shifted(origo, k) == indices[j]);
    }
    assert forall|q: CanvasIndex|
        (forall|j: int| 0 <= j < indices.len() ==> q != shifted(target, relative(#[trigger] indices[j], origo)))
            implies #[trigger] read_cell(paste_map(dest, cells, target, ct), q) == read_cell(dest, q) by {
        assert forall|jj: int| 0 <= jj < cells.len() implies shifted(target, #[trigger] cells[jj].0) != q by {
            lemma_entries_map_at(cells, jj);
            let k = cells[jj].0;
            assert(yank_map(source, indices, ct, origo).contains_key(k));
            let j = choose|j: int| 0 <= j < indices.len() && relative(#[trigger] indices[j], origo) == k;
            assert(q != shifted(target, relative(indices[j], origo)));
        }
        lemma_paste_elsewhere(dest, cells, target, ct, q);
    }
}

proof fn lemma_paste_places(
    m: Map<CanvasIndex, CanvasCell>,
    cells: Seq<(CanvasIndex, CanvasCell)>,
    origo: CanvasIndex,
    content_type: CellContentType,
    j: int,
)
    requires
        sorted_keys(cells),
        paste_fits(origo, cells),
        0 <= j < cells.len(),
    ensures
        ({
            let t = shifted(origo, cells[j].0);
            read_cell(paste_map(m, cells, origo, content_type), t) == paste_cell(
                read_cell(m, t),
                cells[j].1,
                content_type,
            )
        }),
        forall|p: CanvasIndex|
            (forall|i: int| 0 <= i < cells.len() ==> shifted(origo, #[trigger] cells[i].0) != p)
                ==> #[trigger] read_cell(paste_map(m, cells, origo, content_type), p) == read_cell(m, p),
    decreases cells.len(),
{
    let n = cells.len();
    let d = cells.drop_last();
    let t_last = shifted(origo, cells[n - 1].0);
    assert(sorted_keys(d));
    assert(paste_fits(origo, d)) by {
        assert forall|i: int| 0 <= i < d.len() implies shift_fits(origo, #[trigger] d[i].0) by {
            assert(d[i] == cells[i]);
            assert(shift_fits(origo, cells[i].0));
        }
    }
    assert(shift_fits(origo, cells[n - 1].0));
    if j < n - 1 {
        lemma_paste_places(m, d, origo, content_type, j);
        assert(d[j] == cells[j]);
        assert(shift_fits(origo, cells[j].0));
        assert(crate::index_map::idx_lt(cells[j].0, cells[n - 1].0));
        assert(shifted(origo, cells[j].0) != t_last);
    } else if n > 1 {
        lemma_paste_places(m, d, origo, content_type, 0);
        assert forall|i: int| 0 <= i < d.len() implies shifted(origo, #[trigger] d[i].0) != t_last by {
            assert(d[i] == cells[i]);
            assert(shift_fits(origo, cells[i].0));
            assert(crate::index_map::idx_lt(cells[i].0, cells[n - 1].0));
        }
    }
    if n > 1 {
        lemma_paste_places(m, d, origo, content_type, 0);
        assert forall|p: CanvasIndex|
            (forall|i: int| 0 <= i < cells.len() ==> shifted(origo, #[trigger] cells[i].0) != p)
                implies #[trigger] read_cell(paste_map(m, cells, origo, content_type), p) == read_cell(m, p) by {
            assert forall|i: int| 0 <= i < d.len() implies shifted(origo, #[trigger] d[i].0) != p by {
                assert(d[i] == cells[i]);
            }
            assert(shifted(origo, cells[n - 1].0) != p);
            let prev = paste_map(m, d, origo, content_type);
            assert(read_cell(prev, p) == read_cell(m, p));
            assert(cells.last() == cells[n - 1]);
            assert(paste_map(m, cells, origo, content_type) == prev.insert(
                t_last,
                paste_cell(read_cell(prev, t_last), cells.last().1, content_type),
            ));
        }
    } else {
        assert(d.len() == 0);
        assert(paste_map(m, d, origo, content_type) == m);
        assert forall|p: CanvasIndex|
            (forall|i: int| 0 <= i < cells.len() ==> shifted(origo, #[trigger] cells[i].0) != p)
                implies #[trigger] read_cell(paste_map(m, cells, origo, content_type), p) == read_cell(m, p) by {
            assert(shifted(origo, cells[0].0) != p);
        }
    }
}

} // verus!
