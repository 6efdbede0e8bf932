use vstd::prelude::*;

use crate::canvas::{area_after, includes_fit, lemma_includes_concat, read_cell, Canvas, CanvasCell};
use crate::index_map::{entries_map, idx_lt, map_get, map_set, sorted_keys};
use crate::rect::{CanvasIndex, CanvasRect};
use crate::style::{CellContentType, Color, Ground, Modifier};
use crate::yank::{paste_cell, paste_fits, paste_map, shift_fits, shifted, CanvasYank};

verus! {

/// A change to one cell: each aspect that is `Some` is set to the value it holds.
#[derive(Debug, Clone, Copy)]
pub struct CanvasDiffUnit {
    pub ch: Option<char>,
    pub fg: Option<Color>,
    pub bg: Option<Color>,
    pub modifier: Option<Modifier>,
}

pub open spec fn empty_unit() -> CanvasDiffUnit {
    CanvasDiffUnit { ch: None, fg: None, bg: None, modifier: None }
}

impl Default for CanvasDiffUnit {
    fn default() -> (u: Self)
        ensures
            u == empty_unit(),
    {
        CanvasDiffUnit { ch: None, fg: None, bg: None, modifier: None }
    }
}

impl CanvasDiffUnit {
    pub fn ch(ch: char) -> (u: Self)
        ensures
            u == (CanvasDiffUnit { ch: Some(ch), ..empty_unit() }),
    {
        CanvasDiffUnit { ch: Some(ch), fg: None, bg: None, modifier: None }
    }

    pub fn fg(fg: Color) -> (u: Self)
        ensures
            u == (CanvasDiffUnit { fg: Some(fg), ..empty_unit() }),
    {
        CanvasDiffUnit { ch: None, fg: Some(fg), bg: None, modifier: None }
    }

    pub fn bg(bg: Color) -> (u: Self)
        ensures
            u == (CanvasDiffUnit { bg: Some(bg), ..empty_unit() }),
    {
        CanvasDiffUnit { ch: None, fg: None, bg: Some(bg), modifier: None }
    }

    pub fn modifier(modifier: Modifier) -> (u: Self)
        ensures
            u == (CanvasDiffUnit { modifier: Some(modifier), ..empty_unit() }),
    {
        CanvasDiffUnit { ch: None, fg: None, bg: None, modifier: Some(modifier) }
    }
}

/// The unit changes at least one aspect.
pub open spec fn unit_changes(u: CanvasDiffUnit) -> bool {
    u.ch is Some || u.fg is Some || u.bg is Some || u.modifier is Some
}

/// `cell` with the aspects that `u` sets replaced.
pub open spec fn apply_unit_to_cell(cell: CanvasCell, u: CanvasDiffUnit) -> CanvasCell {
    CanvasCell {
        character: match u.ch {
            Some(x) => x,
            None => cell.character,
        },
        fg: match u.fg {
            Some(x) => x,
            None => cell.fg,
        },
        bg: match u.bg {
            Some(x) => x,
            None => cell.bg,
        },
        modifiers: match u.modifier {
            Some(x) => x,
            None => cell.modifiers,
        },
    }
}

/// The unit that sets back what `u` overwrites in `cell`.
pub open spec fn reverse_unit(cell: CanvasCell, u: CanvasDiffUnit) -> CanvasDiffUnit {
    CanvasDiffUnit {
        ch: match u.ch {
            Some(_) => Some(cell.character),
            None => None,
        },
        fg: match u.fg {
            Some(_) => Some(cell.fg),
            None => None,
        },
        bg: match u.bg {
            Some(_) => Some(cell.bg),
            None => None,
        },
        modifier: match u.modifier {
            Some(_) => Some(cell.modifiers),
            None => None,
        },
    }
}

pub open spec fn unit_write_count(u: CanvasDiffUnit) -> nat {
    (if u.ch is Some { 1nat } else { 0nat }) + (if u.fg is Some { 1nat } else { 0nat }) + (
    if u.bg is Some { 1nat } else { 0nat }) + (if u.modifier is Some { 1nat } else { 0nat })
}

/// The index once for every aspect the unit sets: the area grows once per aspect written.
pub open spec fn unit_writes(index: CanvasIndex, u: CanvasDiffUnit) -> Seq<CanvasIndex> {
    Seq::new(unit_write_count(u), |j: int| index)
}

/// The indices that applying `s` includes in the area, in order.
pub open spec fn diff_writes(s: Seq<(CanvasIndex, CanvasDiffUnit)>) -> Seq<CanvasIndex>
    decreases s.len(),
{
    if s.len() == 0 {
        Seq::empty()
    } else {
        unit_writes(s[0].0, s[0].1) + diff_writes(s.drop_first())
    }
}

/// The cells after applying one entry.
pub open spec fn apply_entry(m: Map<CanvasIndex, CanvasCell>, e: (CanvasIndex, CanvasDiffUnit)) -> Map<
    CanvasIndex,
    CanvasCell,
> {
    if unit_changes(e.1) {
        m.insert(e.0, apply_unit_to_cell(read_cell(m, e.0), e.1))
    } else {
        m
    }
}

/// The cells after applying the entries of `s` one after the other.
pub open spec fn apply_entries(m: Map<CanvasIndex, CanvasCell>, s: Seq<(CanvasIndex, CanvasDiffUnit)>) -> Map<
    CanvasIndex,
    CanvasCell,
>
    decreases s.len(),
{
    if s.len() == 0 {
        m
    } else {
        apply_entries(apply_entry(m, s[0]), s.drop_first())
    }
}

/// What applying `s` to `m` leaves in `s`: each unit turned into the one that sets back what it
/// overwrote.
pub open spec fn reversed_entries(m: Map<CanvasIndex, CanvasCell>, s: Seq<(CanvasIndex, CanvasDiffUnit)>) -> Seq<
    (CanvasIndex, CanvasDiffUnit),
>
    decreases s.len(),
{
    if s.len() == 0 {
        Seq::empty()
    } else {
        seq![(s[0].0, reverse_unit(read_cell(m, s[0].0), s[0].1))] + reversed_entries(
            apply_entry(m, s[0]),
            s.drop_first(),
        )
    }
}

/// A change to a canvas, as an editing action requests it.
#[derive(Debug)]
pub enum CanvasModification {
    SetCharacter(CanvasIndex, char),
    SetFgColor(CanvasIndex, Color),
    SetBgColor(CanvasIndex, Color),
    AddModifier(CanvasIndex, Modifier),
    RemoveModifier(CanvasIndex, Modifier),
    SetModifiers(CanvasIndex, Modifier),
    SetCell(CanvasIndex, CanvasCell),
    Paste(CanvasIndex, CanvasYank),
}

/// The two modifications are the same change; a paste's yank is compared by its contents.
pub open spec fn same_modification(a: CanvasModification, b: CanvasModification) -> bool {
    match (a, b) {
        (CanvasModification::Paste(i, y), CanvasModification::Paste(j, z)) => i == j && y.cells@
            == z.cells@ && y.content_type == z.content_type,
        (CanvasModification::Paste(_, _), _) => false,
        (_, CanvasModification::Paste(_, _)) => false,
        _ => a == b,
    }
}

impl Clone for CanvasModification {
    fn clone(&self) -> (r: Self)
        ensures
            same_modification(r, *self),
    {
        match self {
            CanvasModification::SetCharacter(i, c) => CanvasModification::SetCharacter(*i, *c),
            CanvasModification::SetFgColor(i, c) => CanvasModification::SetFgColor(*i, *c),
            CanvasModification::SetBgColor(i, c) => CanvasModification::SetBgColor(*i, *c),
            CanvasModification::AddModifier(i, m) => CanvasModification::AddModifier(*i, *m),
            CanvasModification::RemoveModifier(i, m) => CanvasModification::RemoveModifier(*i, *m),
            CanvasModification::SetModifiers(i, m) => CanvasModification::SetModifiers(*i, *m),
            CanvasModification::SetCell(i, c) => CanvasModification::SetCell(*i, *c),
            CanvasModification::Paste(i, y) => CanvasModification::Paste(*i, y.clone()),
        }
    }
}

/// The unit that pastes the aspects of `cell` that `content_type` names.
pub open spec fn paste_unit(cell: CanvasCell, content_type: CellContentType) -> CanvasDiffUnit {
    CanvasDiffUnit {
        ch: if content_type.text {
            Some(cell.character)
        } else {
            None
        },
        fg: if content_type.fg {
            Some(cell.fg)
        } else {
            None
        },
        bg: if content_type.bg {
            Some(cell.bg)
        } else {
            None
        },
        modifier: if content_type.modifiers {
            Some(cell.modifiers)
        } else {
            None
        },
    }
}

/// A modification can be turned into a diff without overflow.
pub open spec fn modification_fits(m: CanvasModification) -> bool {
    match m {
        CanvasModification::Paste(origo, yank) => paste_fits(origo, yank.cells@),
        _ => true,
    }
}

/// The diff entries that a modification stands for, against the cells `cells`.
pub open spec fn modification_diff(m: CanvasModification, cells: Map<CanvasIndex, CanvasCell>) -> Seq<
    (CanvasIndex, CanvasDiffUnit),
> {
    match m {
        CanvasModification::SetCharacter(i, c) => seq![(i, CanvasDiffUnit { ch: Some(c), ..empty_unit() })],
        CanvasModification::SetFgColor(i, c) => seq![(i, CanvasDiffUnit { fg: Some(c), ..empty_unit() })],
        CanvasModification::SetBgColor(i, c) => seq![(i, CanvasDiffUnit { bg: Some(c), ..empty_unit() })],
        CanvasModification::AddModifier(i, mo) => seq![
            (i, CanvasDiffUnit {
                modifier: Some(read_cell(cells, i).modifiers.spec_union(mo)),
                ..empty_unit()
            }),
        ],
        CanvasModification::RemoveModifier(i, mo) => seq![
            (i, CanvasDiffUnit {
                modifier: Some(read_cell(cells, i).modifiers.spec_difference(mo)),
                ..empty_unit()
            }),
        ],
        CanvasModification::SetModifiers(i, mo) => seq![(i, CanvasDiffUnit { modifier: Some(mo), ..empty_unit() })],
        CanvasModification::SetCell(i, c) => seq![
            (i, CanvasDiffUnit {
                ch: Some(c.character),
                fg: Some(c.fg),
                bg: Some(c.bg),
                modifier: Some(c.modifiers),
            }),
        ],
        CanvasModification::Paste(origo, yank) => Seq::new(
            yank.cells@.len(),
            |j: int|
                (shifted(origo, yank.cells@[j].0), paste_unit(yank.cells@[j].1, yank.content_type)),
        ),
    }
}

impl CanvasModification {
    pub fn set_color(index: CanvasIndex, ground: Ground, color: Color) -> (m: Self)
        ensures
            m == (match ground {
                Ground::Foreground => CanvasModification::SetFgColor(index, color),
                Ground::Background => CanvasModification::SetBgColor(index, color),
            }),
    {
        match ground {
            Ground::Foreground => CanvasModification::SetFgColor(index, color),
            Ground::Background => CanvasModification::SetBgColor(index, color),
        }
    }

    /// The diff entries of this modification against `canvas`, in the order they apply.
    pub fn to_diff(&self, canvas: &Canvas) -> (r: Vec<(CanvasIndex, CanvasDiffUnit)>)
        requires
            canvas.wf(),
            modification_fits(*self),
        ensures
            r@ == modification_diff(*self, canvas.cell_map()),
    {
        let mut r: Vec<(CanvasIndex, CanvasDiffUnit)> = Vec::new();
        match self {
            CanvasModification::SetCharacter(index, character) => {
                r.push((*index, CanvasDiffUnit::ch(*character)));
            },
            CanvasModification::SetFgColor(index, color) => {
                r.push((*index, CanvasDiffUnit::fg(*color)));
            },
            CanvasModification::SetBgColor(index, color) => {
                r.push((*index, CanvasDiffUnit::bg(*color)));
            },
            CanvasModification::AddModifier(index, modifier) => {
                let mut modifiers = canvas.modifiers(*index);
                modifiers.insert(*modifier);
                r.push((*index, CanvasDiffUnit::modifier(modifiers)));
            },
            CanvasModification::RemoveModifier(index, modifier) => {
                let mut modifiers = canvas.modifiers(*index);
                modifiers.remove(*modifier);
                r.push((*index, CanvasDiffUnit::modifier(modifiers)));
            },
            CanvasModification::SetModifiers(index, modifiers) => {
                r.push((*index, CanvasDiffUnit::modifier(*modifiers)));
            },
            CanvasModification::SetCell(index, cell) => {
                r.push(
                    (
                        *index,
                        CanvasDiffUnit {
                            ch: Some(cell.character),
                            fg: Some(cell.fg),
                            bg: Some(cell.bg),
                            modifier: Some(cell.modifiers),
                        },
                    ),
                );
            },
            CanvasModification::Paste(origo, yank) => {
                let ghost target = modification_diff(*self, canvas.cell_map());
                let mut i: usize = 0;
                while i < yank.cells.len()
                    invariant
                        0 <= i <= yank.cells@.len(),
                        paste_fits(*origo, yank.cells@),
                        target.len() == yank.cells@.len(),
                        forall|j: int|
                            0 <= j < yank.cells@.len() ==> #[trigger] target[j] == (
                                shifted(*origo, yank.cells@[j].0),
                                paste_unit(yank.cells@[j].1, yank.content_type),
                            ),
                        r@ == target.take(i as int),
                    decreases yank.cells@.len() - i,
                {
                    let (offset, cell) = yank.cells[i];
                    assert(shift_fits(*origo, yank.cells@[i as int].0));
                    let index: CanvasIndex = (origo.0 + offset.0, origo.1 + offset.1);
                    let ct = yank.content_type;
                    let unit = CanvasDiffUnit {
                        ch: if ct.text {
                            Some(cell.character)
                        } else {
                            None
                        },
                        fg: if ct.fg {
                            Some(cell.fg)
                        } else {
                            None
                        },
                        bg: if ct.bg {
                            Some(cell.bg)
                        } else {
                            None
                        },
                        modifier: if ct.modifiers {
                            Some(cell.modifiers)
                        } else {
                            None
                        },
                    };
                    r.push((index, unit));
                    proof {
                        assert(target[i as int] == (index, unit));
                        assert(r@ =~= target.take(i as int + 1));
                    }
                    i += 1;
                }
                proof {
                    assert(target.take(target.len() as int) =~= target);
                }
            },
        }
        r
    }
}

/// `new` merged into `target`: with `overwrite`, `new` replaces what `target` already sets;
/// without it, an aspect that `target` already sets is kept.
pub open spec fn merge_field<T>(target: Option<T>, new: Option<T>, overwrite: bool) -> Option<T> {
    match new {
        Some(x) => if !overwrite && target is Some {
            target
        } else {
            Some(x)
        },
        None => target,
    }
}

pub open spec fn merge_unit(target: CanvasDiffUnit, new: CanvasDiffUnit, overwrite: bool) -> CanvasDiffUnit {
    CanvasDiffUnit {
        ch: merge_field(target.ch, new.ch, overwrite),
        fg: merge_field(target.fg, new.fg, overwrite),
        bg: merge_field(target.bg, new.bg, overwrite),
        modifier: merge_field(target.modifier, new.modifier, overwrite),
    }
}

/// The builder's entries after adding one entry: the entry's key is present afterwards even
/// where its unit sets nothing.
pub open spec fn builder_add_entry(
    m: Map<CanvasIndex, CanvasDiffUnit>,
    e: (CanvasIndex, CanvasDiffUnit),
    overwrite: bool,
) -> Map<CanvasIndex, CanvasDiffUnit> {
    let target = if m.contains_key(e.0) {
        m[e.0]
    } else {
        empty_unit()
    };
    m.insert(e.0, merge_unit(target, e.1, overwrite))
}

pub open spec fn builder_add_entries(
    m: Map<CanvasIndex, CanvasDiffUnit>,
    s: Seq<(CanvasIndex, CanvasDiffUnit)>,
    overwrite: bool,
) -> Map<CanvasIndex, CanvasDiffUnit>
    decreases s.len(),
{
    if s.len() == 0 {
        m
    } else {
        builder_add_entries(builder_add_entry(m, s[0], overwrite), s.drop_first(), overwrite)
    }
}

/// The builder's entries after adding the diff of each modification in turn, each against the
/// same cells `cells`.
pub open spec fn builder_add_modifications(
    m: Map<CanvasIndex, CanvasDiffUnit>,
    mods: Seq<CanvasModification>,
    cells: Map<CanvasIndex, CanvasCell>,
    overwrite: bool,
) -> Map<CanvasIndex, CanvasDiffUnit>
    decreases mods.len(),
{
    if mods.len() == 0 {
        m
    } else {
        builder_add_modifications(
            builder_add_entries(m, modification_diff(mods[0], cells), overwrite),
            mods.drop_first(),
            cells,
            overwrite,
        )
    }
}

/// A diff under construction: at most one unit per index, in row-major order of the indices.
#[derive(Debug, Clone)]
pub struct CanvasDiffBuilder {
    pub entries: Vec<(CanvasIndex, CanvasDiffUnit)>,
}

/// A diff ready to apply: units with their indices, in the order they apply.
#[derive(Debug, Clone)]
pub struct CanvasDiff(pub Vec<(CanvasIndex, CanvasDiffUnit)>);

impl Default for CanvasDiffBuilder {
    fn default() -> (b: Self)
        ensures
            b.entries@ == Seq::<(CanvasIndex, CanvasDiffUnit)>::empty(),
    {
        CanvasDiffBuilder { entries: Vec::new() }
    }
}

impl Default for CanvasDiff {
    fn default() -> (d: Self)
        ensures
            d.0@ == Seq::<(CanvasIndex, CanvasDiffUnit)>::empty(),
    {
        CanvasDiff(Vec::new())
    }
}

impl CanvasDiffBuilder {
    pub open spec fn wf(&self) -> bool {
        sorted_keys(self.entries@)
    }

    /// The units of the builder, by index.
    pub open spec fn unit_map(&self) -> Map<CanvasIndex, CanvasDiffUnit> {
        entries_map(self.entries@)
    }

    /// A builder holding the diffs of `modifications` against `canvas`; where two of them touch
    /// the same aspect of a cell, the later one wins.
    pub fn from_modifications(modifications: &Vec<CanvasModification>, canvas: &Canvas) -> (b: Self)
        requires
            canvas.wf(),
            forall|j: int| 0 <= j < modifications@.len() ==> modification_fits(#[trigger] modifications@[j]),
        ensures
            b.wf(),
            b.unit_map() == builder_add_modifications(
                Map::empty(),
                modifications@,
                canvas.cell_map(),
                true,
            ),
    {
        let mut b = CanvasDiffBuilder { entries: Vec::new() };
        proof {
            assert(b.unit_map() =~= Map::<CanvasIndex, CanvasDiffUnit>::empty());
        }
        b.add_modifications(modifications, canvas, true);
        b
    }

    pub fn add_modifications(&mut self, modifications: &Vec<CanvasModification>, canvas: &Canvas, overwrite: bool)
        requires
            old(self).wf(),
            canvas.wf(),
            forall|j: int| 0 <= j < modifications@.len() ==> modification_fits(#[trigger] modifications@[j]),
        ensures
            final(self).wf(),
            final(self).unit_map() == builder_add_modifications(
                old(self).unit_map(),
                modifications@,
                canvas.cell_map(),
                overwrite,
            ),
    {
        let ghost target = builder_add_modifications(
            self.unit_map(),
            modifications@,
            canvas.cell_map(),
            overwrite,
        );
        let mut i: usize = 0;
        proof {
            assert(modifications@.skip(0) =~= modifications@);
        }
        while i < modifications.len()
            invariant
                self.wf(),
                canvas.wf(),
                0 <= i <= modifications@.len(),
                forall|j: int| 0 <= j < modifications@.len() ==> modification_fits(#[trigger] modifications@[j]),
                builder_add_modifications(
                    self.unit_map(),
                    modifications@.skip(i as int),
                    canvas.cell_map(),
                    overwrite,
                ) == target,
            decreases modifications@.len() - i,
        {
            assert(modification_fits(modifications@[i as int]));
            let diff = modifications[i].to_diff(canvas);
            proof {
                assert(modifications@.skip(i as int)[0] == modifications@[i as int]);
                assert(modifications@.skip(i as int).drop_first() =~= modifications@.skip(i as int + 1));
            }
            diff_builder_add(self, &diff, overwrite);
            i += 1;
        }
    }

    /// Adds the units of `diff`.
    pub fn add_diff(&mut self, diff: Self, overwrite: bool)
        requires
            old(self).wf(),
        ensures
            final(self).wf(),
            final(self).unit_map() == builder_add_entries(old(self).unit_map(), diff.entries@, overwrite),
    {
        diff_builder_add(self, &diff.entries, overwrite);
    }

    /// Adds one unit; aspects that the builder already sets at `index` are kept.
    pub fn add_diff_unit(&mut self, index: CanvasIndex, diff: CanvasDiffUnit)
        requires
            old(self).wf(),
        ensures
            final(self).wf(),
            final(self).unit_map() == builder_add_entry(old(self).unit_map(), (index, diff), true),
    {
        let ghost m0 = self.unit_map();
        let mut v: Vec<(CanvasIndex, CanvasDiffUnit)> = Vec::new();
        v.push((index, diff));
        diff_builder_add(self, &v, true);
        proof {
            assert(v@[0] == (index, diff));
            assert(v@.drop_first() =~= Seq::<(CanvasIndex, CanvasDiffUnit)>::empty());
            let m1 = builder_add_entry(m0, (index, diff), true);
            assert(builder_add_entries(m1, v@.drop_first(), true) == m1);
        }
    }

    /// The units in row-major order of their indices.
    pub fn serialize(self) -> (d: CanvasDiff)
        ensures
            d.0@ == self.entries@,
    {
        CanvasDiff(self.entries)
    }
}

impl CanvasDiff {
    pub fn from_modifications(canvas: &Canvas, modifications: &Vec<CanvasModification>) -> (d: Self)
        requires
            canvas.wf(),
            forall|j: int| 0 <= j < modifications@.len() ==> modification_fits(#[trigger] modifications@[j]),
        ensures
            sorted_keys(d.0@),
            entries_map(d.0@) == builder_add_modifications(
                Map::empty(),
                modifications@,
                canvas.cell_map(),
                true,
            ),
    {
        CanvasDiffBuilder::from_modifications(modifications, canvas).serialize()
    }

    pub fn from_diff_units(diff_units: Vec<(CanvasIndex, CanvasDiffUnit)>) -> (d: Self)
        ensures
            d.0@ == diff_units@,
    {
        CanvasDiff(diff_units)
    }
}

/// Adds each of `entries` to the builder in turn. For every aspect an entry sets, the builder
/// takes it, unless `overwrite` is off and the builder already sets that aspect at that index:
/// the staging area adds the diffs that set back staged modifications without `overwrite`, so
/// that what it holds keeps setting back to the state before the first of them.
pub fn diff_builder_add(builder: &mut CanvasDiffBuilder, entries: &Vec<(CanvasIndex, CanvasDiffUnit)>, overwrite: bool)
    requires
        old(builder).wf(),
    ensures
        final(builder).wf(),
        final(builder).unit_map() == builder_add_entries(old(builder).unit_map(), entries@, overwrite),
{
    let ghost target = builder_add_entries(builder.unit_map(), entries@, overwrite);
    let mut i: usize = 0;
    proof {
        assert(entries@.skip(0) =~= entries@);
    }
    while i < entries.len()
        invariant
            builder.wf(),
            0 <= i <= entries@.len(),
            builder_add_entries(builder.unit_map(), entries@.skip(i as int), overwrite) == target,
        decreases entries@.len() - i,
    {
        let (index, entry) = entries[i];
        let mut target_unit = match map_get(&builder.entries, index) {
            Some(u) => u,
            None => CanvasDiffUnit::default(),
        };
        if let Some(ch) = entry.ch {
            if overwrite || target_unit.ch.is_none() {
                target_unit.ch = Some(ch);
            }
        }
        if let Some(fg) = entry.fg {
            if overwrite || target_unit.fg.is_none() {
                target_unit.fg = Some(fg);
            }
        }
        if let Some(bg) = entry.bg {
            if overwrite || target_unit.bg.is_none() {
                target_unit.bg = Some(bg);
            }
        }
        if let Some(modifier) = entry.modifier {
            if overwrite || target_unit.modifier.is_none() {
                target_unit.modifier = Some(modifier);
            }
        }
        map_set(&mut builder.entries, index, target_unit);
        proof {
            assert(entries@.skip(i as int)[0] == entries@[i as int]);
            assert(entries@.skip(i as int).drop_first() =~= entries@.skip(i as int + 1));
        }
        i += 1;
    }
}

/// The character in `o`: taken by a call, so that the result is known to be a `char`.
pub fn some_char(o: Option<char>) -> (c: char)
    requires
        o is Some,
    ensures
        Some(c) == o,
{
    o.unwrap()
}

impl Canvas {
    /// Applies one unit at `index` and turns it into the unit that sets back what it overwrote.
    fn apply_unit(&mut self, index: CanvasIndex, unit: &mut CanvasDiffUnit)
        requires
            old(self).wf(),
            includes_fit(old(self).area, unit_writes(index, *old(unit))),
        ensures
            final(self).wf(),
            final(self).cell_map() == apply_entry(old(self).cell_map(), (index, *old(unit))),
            final(self).area == area_after(old(self).area, unit_writes(index, *old(unit))),
            *final(unit) == reverse_unit(old(self).spec_cell(index), *old(unit)),
    {
        let u = *unit;
        let ghost c0 = self.spec_cell(index);
        let ghost m0 = self.cell_map();
        let ghost end_area = area_after(self.area, unit_writes(index, u));
        let ghost mut n: nat = unit_write_count(u);
        let ghost mut cur: CanvasCell = c0;
        let ghost mut changed: bool = false;
        proof {
            assert(unit_writes(index, u) =~= Seq::new(n, |j: int| index));
        }
        let mut reversed = CanvasDiffUnit::default();
        match u.ch {
            Some(_) => {
                let ch = some_char(u.ch);
                proof {
                    assert(Seq::new(n, |j: int| index)[0] == index);
                    assert(Seq::new(n, |j: int| index).drop_first() =~= Seq::new((n - 1) as nat, |j: int| index));
                }
                let old_ch = self.character(index);
                self.set_character(index, ch);
                reversed.ch = Some(old_ch);
                proof {
                    n = (n - 1) as nat;
                    cur = CanvasCell { character: ch, ..cur };
                    changed = true;
                    assert(self.cell_map() =~= m0.insert(index, cur));
                }
            },
            None => {},
        }
        assert(includes_fit(self.area, Seq::new(n, |j: int| index)));
        assert(area_after(self.area, Seq::new(n, |j: int| index)) == end_area);
        assert(changed ==> self.cell_map() == m0.insert(index, cur));
        assert(!changed ==> self.cell_map() == m0 && cur == c0);
        match u.fg {
            Some(fg) => {
                proof {
                    assert(Seq::new(n, |j: int| index)[0] == index);
                    assert(Seq::new(n, |j: int| index).drop_first() =~= Seq::new((n - 1) as nat, |j: int| index));
                }
                let old_fg = self.fg(index);
                self.set_fg(index, fg);
                reversed.fg = Some(old_fg);
                proof {
                    n = (n - 1) as nat;
                    cur = CanvasCell { fg: fg, ..cur };
                    changed = true;
                    assert(self.cell_map() =~= m0.insert(index, cur));
                }
            },
            None => {},
        }
        assert(includes_fit(self.area, Seq::new(n, |j: int| index)));
        assert(area_after(self.area, Seq::new(n, |j: int| index)) == end_area);
        assert(changed ==> self.cell_map() == m0.insert(index, cur));
        assert(!changed ==> self.cell_map() == m0 && cur == c0);
        match u.bg {
            Some(bg) => {
                proof {
                    assert(Seq::new(n, |j: int| index)[0] == index);
                    assert(Seq::new(n, |j: int| index).drop_first() =~= Seq::new((n - 1) as nat, |j: int| index));
                }
                let old_bg = self.bg(index);
                self.set_bg(index, bg);
                reversed.bg = Some(old_bg);
                proof {
                    n = (n - 1) as nat;
                    cur = CanvasCell { bg: bg, ..cur };
                    changed = true;
                    assert(self.cell_map() =~= m0.insert(index, cur));
                }
            },
            None => {},
        }
        assert(includes_fit(self.area, Seq::new(n, |j: int| index)));
        assert(area_after(self.area, Seq::new(n, |j: int| index)) == end_area);
        assert(changed ==> self.cell_map() == m0.insert(index, cur));
        assert(!changed ==> self.cell_map() == m0 && cur == c0);
        match u.modifier {
            Some(modifier) => {
                proof {
                    assert(Seq::new(n, |j: int| index)[0] == index);
                    assert(Seq::new(n, |j: int| index).drop_first() =~= Seq::new((n - 1) as nat, |j: int| index));
                }
                let old_modifiers = self.modifiers(index);
                self.set_modifiers(index, modifier);
                reversed.modifier = Some(old_modifiers);
                proof {
                    n = (n - 1) as nat;
                    cur = CanvasCell { modifiers: modifier, ..cur };
                    changed = true;
                    assert(self.cell_map() =~= m0.insert(index, cur));
                }
            },
            None => {},
        }
        proof {
            assert(Seq::new(n, |j: int| index) =~= Seq::<CanvasIndex>::empty());
            assert(area_after(self.area, Seq::new(n, |j: int| index)) == end_area);
            assert(cur == apply_unit_to_cell(c0, u));
            assert(changed == unit_changes(u));
        }
        *unit = reversed;
    }

    /// Applies `entries` in order and turns each unit into the one that sets back what it
    /// overwrote.
    fn apply_entries_in_place(&mut self, entries: &mut Vec<(CanvasIndex, CanvasDiffUnit)>)
        requires
            old(self).wf(),
            includes_fit(old(self).area, diff_writes(old(entries)@)),
        ensures
            final(self).wf(),
            final(self).cell_map() == apply_entries(old(self).cell_map(), old(entries)@),
            final(self).area == area_after(old(self).area, diff_writes(old(entries)@)),
            final(entries)@ == reversed_entries(old(self).cell_map(), old(entries)@),
    {
        let ghost s = entries@;
        let ghost m0 = self.cell_map();
        let ghost area0 = self.area;
        let mut i: usize = 0;
        proof {
            assert(s.skip(0) =~= s);
            assert(entries@.take(0) =~= Seq::<(CanvasIndex, CanvasDiffUnit)>::empty());
            assert(entries@.take(0) + reversed_entries(m0, s) =~= reversed_entries(m0, s));
        }
        while i < entries.len()
            invariant
                self.wf(),
                0 <= i <= s.len(),
                entries@.len() == s.len(),
                entries@.skip(i as int) == s.skip(i as int),
                includes_fit(self.area, diff_writes(s.skip(i as int))),
                area_after(self.area, diff_writes(s.skip(i as int))) == area_after(area0, diff_writes(s)),
                apply_entries(self.cell_map(), s.skip(i as int)) == apply_entries(m0, s),
                entries@.take(i as int) + reversed_entries(self.cell_map(), s.skip(i as int))
                    == reversed_entries(m0, s),
            decreases s.len() - i,
        {
            let (index, unit0) = entries[i];
            let mut unit = unit0;
            let ghost rest = s.skip(i as int);
            let ghost m_before = self.cell_map();
            proof {
                assert(rest[0] == s[i as int]);
                assert(s[i as int] == entries@[i as int]) by {
                    assert(entries@.skip(i as int)[0] == entries@[i as int]);
                }
                assert(rest.drop_first() =~= s.skip(i as int + 1));
                lemma_includes_concat(self.area, unit_writes(index, unit), diff_writes(rest.drop_first()));
            }
            self.apply_unit(index, &mut unit);
            entries.set(i, (index, unit));
            proof {
                assert(entries@.skip(i as int + 1) =~= s.skip(i as int + 1));
                assert(entries@.take(i as int + 1) =~= entries@.take(i as int).push((index, unit)));
                let r_rest = reversed_entries(m_before, rest);
                assert(r_rest == seq![(index, unit)] + reversed_entries(self.cell_map(), rest.drop_first()));
                assert(entries@.take(i as int + 1) + reversed_entries(self.cell_map(), s.skip(i as int + 1))
                    =~= entries@.take(i as int) + r_rest);
            }
            i += 1;
        }
        proof {
            assert(s.skip(s.len() as int) =~= Seq::<(CanvasIndex, CanvasDiffUnit)>::empty());
            assert(entries@.take(s.len() as int) =~= entries@);
            assert(entries@ + Seq::<(CanvasIndex, CanvasDiffUnit)>::empty() =~= entries@);
        }
    }

    /// Applies `diff` and reverses it in place: afterwards `diff` sets back what it overwrote.
    pub fn apply_diff(&mut self, diff: &mut CanvasDiff)
        requires
            old(self).wf(),
            includes_fit(old(self).area, diff_writes(old(diff).0@)),
        ensures
            final(self).wf(),
            final(self).cell_map() == apply_entries(old(self).cell_map(), old(diff).0@),
            final(self).area == area_after(old(self).area, diff_writes(old(diff).0@)),
            final(diff).0@ == reversed_entries(old(self).cell_map(), old(diff).0@),
    {
        self.apply_entries_in_place(&mut diff.0);
    }

    /// Applies the units of `diff` in row-major order and reverses them in place.
    pub fn apply_diff_builder(&mut self, diff: &mut CanvasDiffBuilder)
        requires
            old(self).wf(),
            old(diff).wf(),
            includes_fit(old(self).area, diff_writes(old(diff).entries@)),
        ensures
            final(self).wf(),
            final(diff).wf(),
            final(self).cell_map() == apply_entries(old(self).cell_map(), old(diff).entries@),
            final(self).area == area_after(old(self).area, diff_writes(old(diff).entries@)),
            final(diff).entries@ == reversed_entries(old(self).cell_map(), old(diff).entries@),
    {
        proof {
            lemma_reversed_keys(self.cell_map(), diff.entries@);
        }
        self.apply_entries_in_place(&mut diff.entries);
    }
}

/// Reversing keeps every entry's index.
pub proof fn lemma_reversed_keys(m: Map<CanvasIndex, CanvasCell>, s: Seq<(CanvasIndex, CanvasDiffUnit)>)
    ensures
        reversed_entries(m, s).len() == s.len(),
        forall|j: int| 0 <= j < s.len() ==> (#[trigger] reversed_entries(m, s)[j]).0 == s[j].0,
        sorted_keys(s) ==> sorted_keys(reversed_entries(m, s)),
    decreases s.len(),
{
    if s.len() > 0 {
        lemma_reversed_keys(apply_entry(m, s[0]), s.drop_first());
        let r = reversed_entries(m, s);
        assert forall|j: int| 0 <= j < s.len() implies (#[trigger] r[j]).0 == s[j].0 by {
            if j > 0 {
                assert(r[j] == reversed_entries(apply_entry(m, s[0]), s.drop_first())[j - 1]);
            }
        }
    }
}

/// What an index reads after applying a sorted diff: the entry at that index, if it changes
/// something, applied to what the index read before.
pub proof fn lemma_apply_entries_read(
    m: Map<CanvasIndex, CanvasCell>,
    s: Seq<(CanvasIndex, CanvasDiffUnit)>,
    k: CanvasIndex,
)
    requires
        sorted_keys(s),
    ensures
        forall|j: int|
            0 <= j < s.len() && #[trigger] s[j].0 == k ==> read_cell(apply_entries(m, s), k) == (
            if unit_changes(s[j].1) {
                apply_unit_to_cell(read_cell(m, k), s[j].1)
            } else {
                read_cell(m, k)
            }),
        (forall|j: int| 0 <= j < s.len() ==> #[trigger] s[j].0 != k) ==> read_cell(
            apply_entries(m, s),
            k,
        ) == read_cell(m, k),
    decreases s.len(),
{
    if s.len() > 0 {
        let m1 = apply_entry(m, s[0]);
        let rest = s.drop_first();
        assert(sorted_keys(rest)) by {
            assert forall|i: int, j: int| 0 <= i < j < rest.len() implies idx_lt(
                #[trigger] rest[i].0,
                #[trigger] rest[j].0,
            ) by {
                assert(rest[i] == s[i + 1]);
                assert(rest[j] == s[j + 1]);
            }
        }
        lemma_apply_entries_read(m1, rest, k);
        if s[0].0 == k {
            assert forall|j: int| 0 <= j < rest.len() implies #[trigger] rest[j].0 != k by {
                assert(rest[j] == s[j + 1]);
                assert(idx_lt(s[0].0, s[j + 1].0));
            }
            assert forall|j: int| 0 <= j < s.len() && #[trigger] s[j].0 == k implies j == 0 by {
                if j > 0 {
                    assert(idx_lt(s[0].0, s[j].0));
                }
            }
        } else {
            assert(read_cell(m1, k) == read_cell(m, k));
            assert forall|j: int| 0 <= j < s.len() && #[trigger] s[j].0 == k implies read_cell(
                apply_entries(m, s),
                k,
            ) == (if unit_changes(s[j].1) {
                apply_unit_to_cell(read_cell(m, k), s[j].1)
            } else {
                read_cell(m, k)
            }) by {
                assert(j > 0);
                assert(rest[j - 1] == s[j]);
            }
            assert((forall|j: int| 0 <= j < s.len() ==> #[trigger] s[j].0 != k) ==> (forall|j: int|
                0 <= j < rest.len() ==> #[trigger] rest[j].0 != k)) by {
                if forall|j: int| 0 <= j < s.len() ==> #[trigger] s[j].0 != k {
                    assert forall|j: int| 0 <= j < rest.len() implies #[trigger] rest[j].0 != k by {
                        assert(rest[j] == s[j + 1]);
                    }
                }
            }
        }
    }
}

/// In a sorted diff, each reversed unit sets back what its index read before the diff.
pub proof fn lemma_reversed_entry(
    m: Map<CanvasIndex, CanvasCell>,
    s: Seq<(CanvasIndex, CanvasDiffUnit)>,
    j: int,
)
    requires
        sorted_keys(s),
        0 <= j < s.len(),
    ensures
        reversed_entries(m, s)[j] == (s[j].0, reverse_unit(read_cell(m, s[j].0), s[j].1)),
    decreases s.len(),
{
    if j > 0 {
        let m1 = apply_entry(m, s[0]);
        let rest = s.drop_first();
        assert(sorted_keys(rest)) by {
            assert forall|a: int, b: int| 0 <= a < b < rest.len() implies idx_lt(
                #[trigger] rest[a].0,
                #[trigger] rest[b].0,
            ) by {
                assert(rest[a] == s[a + 1]);
                assert(rest[b] == s[b + 1]);
            }
        }
        lemma_reversed_entry(m1, rest, j - 1);
        lemma_reversed_keys(m1, rest);
        assert(reversed_entries(m, s)[j] == reversed_entries(m1, rest)[j - 1]);
        assert(rest[j - 1] == s[j]);
        assert(idx_lt(s[0].0, s[j].0));
        assert(read_cell(m1, s[j].0) == read_cell(m, s[j].0));
    }
}

/// Reversing keeps the number of aspects each unit writes, so the area grows along the same
/// indices.
pub proof fn lemma_reversed_writes(m: Map<CanvasIndex, CanvasCell>, s: Seq<(CanvasIndex, CanvasDiffUnit)>)
    ensures
        diff_writes(reversed_entries(m, s)) == diff_writes(s),
    decreases s.len(),
{
    if s.len() > 0 {
        let r = reversed_entries(m, s);
        lemma_reversed_writes(apply_entry(m, s[0]), s.drop_first());
        assert(r[0] == (s[0].0, reverse_unit(read_cell(m, s[0].0), s[0].1)));
        assert(r.drop_first() =~= reversed_entries(apply_entry(m, s[0]), s.drop_first()));
        assert(unit_writes(r[0].0, r[0].1) =~= unit_writes(s[0].0, s[0].1));
    }
}

/// Applying a sorted diff and then what it was reversed into makes every index read what it
/// read before.
pub proof fn law_apply_then_reversed_restores(
    m: Map<CanvasIndex, CanvasCell>,
    s: Seq<(CanvasIndex, CanvasDiffUnit)>,
)
    requires
        sorted_keys(s),
    ensures
        forall|k: CanvasIndex| #[trigger] read_cell(apply_entries(apply_entries(m, s), reversed_entries(m, s)), k)
            == read_cell(m, k),
{
    let m1 = apply_entries(m, s);
    let r = reversed_entries(m, s);
    lemma_reversed_keys(m, s);
    assert forall|k: CanvasIndex| #[trigger] read_cell(apply_entries(m1, r), k) == read_cell(m, k) by {
        lemma_apply_entries_read(m, s, k);
        lemma_apply_entries_read(m1, r, k);
        if exists|j: int| 0 <= j < s.len() && #[trigger] s[j].0 == k {
            let j = choose|j: int| 0 <= j < s.len() && #[trigger] s[j].0 == k;
            lemma_reversed_entry(m, s, j);
            assert(r[j].0 == k);
        } else {
            assert forall|j: int| 0 <= j < r.len() implies #[trigger] r[j].0 != k by {
                assert(r[j].0 == s[j].0);
            }
        }
    }
}

/// Reversing the reversed diff against the cells it left gives back the diff itself.
pub proof fn law_reverse_twice(m: Map<CanvasIndex, CanvasCell>, s: Seq<(CanvasIndex, CanvasDiffUnit)>)
    requires
        sorted_keys(s),
    ensures
        reversed_entries(apply_entries(m, s), reversed_entries(m, s)) == s,
{
    let m1 = apply_entries(m, s);
    let r = reversed_entries(m, s);
    lemma_reversed_keys(m, s);
    lemma_reversed_keys(m1, r);
    let rr = reversed_entries(m1, r);
    assert forall|j: int| 0 <= j < s.len() implies #[trigger] rr[j] == s[j] by {
        lemma_reversed_entry(m, s, j);
        lemma_reversed_entry(m1, r, j);
        lemma_apply_entries_read(m, s, s[j].0);
    }
    assert(rr =~= s);
}

/// Calling `apply_diff` twice with the same sorted diff, which the first call turns into what
/// sets back its changes, makes every index read what it read before and leaves the diff as it
/// was.
pub proof fn law_apply_diff_twice(m: Map<CanvasIndex, CanvasCell>, d: Seq<(CanvasIndex, CanvasDiffUnit)>)
    requires
        sorted_keys(d),
    ensures
        forall|k: CanvasIndex| #[trigger] read_cell(
            apply_entries(apply_entries(m, d), reversed_entries(m, d)),
            k,
        ) == read_cell(m, k),
        reversed_entries(apply_entries(m, d), reversed_entries(m, d)) == d,
{
    law_apply_then_reversed_restores(m, d);
    law_reverse_twice(m, d);
}

/// Applying entries one more at the end is applying that entry after the others.
proof fn lemma_apply_entries_push(
    m: Map<CanvasIndex, CanvasCell>,
    s: Seq<(CanvasIndex, CanvasDiffUnit)>,
    e: (CanvasIndex, CanvasDiffUnit),
)
    ensures
        apply_entries(m, s.push(e)) == apply_entry(apply_entries(m, s), e),
    decreases s.len(),
{
    if s.len() == 0 {
        assert(s.push(e).drop_first() =~= Seq::<(CanvasIndex, CanvasDiffUnit)>::empty());
        assert(s.push(e)[0] == e);
        assert(apply_entries(apply_entry(m, e), s.push(e).drop_first()) == apply_entry(m, e));
    } else {
        assert(s.push(e).drop_first() =~= s.drop_first().push(e));
        assert(s.push(e)[0] == s[0]);
        lemma_apply_entries_push(apply_entry(m, s[0]), s.drop_first(), e);
    }
}

/// The diff of pasting the cells `cells` at `origo`.
spec fn paste_entries(
    cells: Seq<(CanvasIndex, CanvasCell)>,
    origo: CanvasIndex,
    content_type: CellContentType,
) -> Seq<(CanvasIndex, CanvasDiffUnit)> {
    Seq::new(cells.len(), |j: int| (shifted(origo, cells[j].0), paste_unit(cells[j].1, content_type)))
}

proof fn lemma_paste_entries_read(
    m: Map<CanvasIndex, CanvasCell>,
    cells: Seq<(CanvasIndex, CanvasCell)>,
    origo: CanvasIndex,
    content_type: CellContentType,
)
    ensures
        forall|p: CanvasIndex| #[trigger] read_cell(apply_entries(m, paste_entries(cells, origo, content_type)), p)
            == read_cell(paste_map(m, cells, origo, content_type), p),
    decreases cells.len(),
{
    if cells.len() > 0 {
        let d = cells.drop_last();
        lemma_paste_entries_read(m, d, origo, content_type);
        let e = (shifted(origo, cells.last().0), paste_unit(cells.last().1, content_type));
        assert(paste_entries(cells, origo, content_type) =~= paste_entries(d, origo, content_type).push(e));
        lemma_apply_entries_push(m, paste_entries(d, origo, content_type), e);
        let a = apply_entries(m, paste_entries(d, origo, content_type));
        let pm = paste_map(m, d, origo, content_type);
        let c = cells.last().1;
        assert(read_cell(a, e.0) == read_cell(pm, e.0));
        assert(apply_unit_to_cell(read_cell(a, e.0), e.1) == paste_cell(read_cell(pm, e.0), c, content_type));
        assert(!unit_changes(e.1) ==> paste_cell(read_cell(pm, e.0), c, content_type) == read_cell(pm, e.0));
        assert(paste_map(m, cells, origo, content_type) == pm.insert(
            e.0,
            paste_cell(read_cell(pm, e.0), c, content_type),
        ));
        assert forall|p: CanvasIndex| #[trigger] read_cell(apply_entry(a, e), p) == read_cell(
            paste_map(m, cells, origo, content_type),
            p,
        ) by {
            assert(read_cell(a, p) == read_cell(pm, p));
        }
    } else {
        assert(paste_entries(cells, origo, content_type) =~= Seq::<(CanvasIndex, CanvasDiffUnit)>::empty());
    }
}

/// Committing a paste puts the yank as pasting it onto the canvas does: applying the diff of a
/// `Paste` modification makes every index read what `Canvas::paste` leaves there, which takes
/// each aspect the content type names from the pasted cell, the foreground from its foreground
/// and the background from its background.
pub proof fn law_paste_modification_pastes(
    m: Map<CanvasIndex, CanvasCell>,
    origo: CanvasIndex,
    yank: CanvasYank,
)
    ensures
        forall|p: CanvasIndex| #[trigger] read_cell(
            apply_entries(m, modification_diff(CanvasModification::Paste(origo, yank), m)),
            p,
        ) == read_cell(paste_map(m, yank.cells@, origo, yank.content_type), p),
{
    assert(modification_diff(CanvasModification::Paste(origo, yank), m) =~= paste_entries(
        yank.cells@,
        origo,
        yank.content_type,
    ));
    lemma_paste_entries_read(m, yank.cells@, origo, yank.content_type);
}

/// Two cell maps that read the same everywhere still read the same after a sorted diff.
pub proof fn lemma_apply_entries_same_reads(
    m1: Map<CanvasIndex, CanvasCell>,
    m2: Map<CanvasIndex, CanvasCell>,
    s: Seq<(CanvasIndex, CanvasDiffUnit)>,
)
    requires
        sorted_keys(s),
        forall|k: CanvasIndex| #[trigger] read_cell(m1, k) == read_cell(m2, k),
    ensures
        forall|k: CanvasIndex| #[trigger] read_cell(apply_entries(m1, s), k) == read_cell(apply_entries(m2, s), k),
{
    assert forall|k: CanvasIndex| #[trigger] read_cell(apply_entries(m1, s), k) == read_cell(
        apply_entries(m2, s),
        k,
    ) by {
        lemma_apply_entries_read(m1, s, k);
        lemma_apply_entries_read(m2, s, k);
        assert(read_cell(m1, k) == read_cell(m2, k));
        if exists|j: int| 0 <= j < s.len() && #[trigger] s[j].0 == k {
            let j = choose|j: int| 0 <= j < s.len() && #[trigger] s[j].0 == k;
        }
    }
}

/// Whether applying `entries` to a canvas whose area is `area` runs without overflow.
pub fn diff_fits(area: CanvasRect, entries: &Vec<(CanvasIndex, CanvasDiffUnit)>) -> (b: bool)
    ensures
        b == includes_fit(area, diff_writes(entries@)),
{
    let ghost s = entries@;
    let mut cur = area;
    let mut i: usize = 0;
    proof {
        assert(s.skip(0) =~= s);
    }
    while i < entries.len()
        invariant
            s == entries@,
            0 <= i <= s.len(),
            includes_fit(area, diff_writes(s)) == includes_fit(cur, diff_writes(s.skip(i as int))),
        decreases s.len() - i,
    {
        let (index, unit) = entries[i];
        let n: usize = (if unit.ch.is_some() { 1usize } else { 0usize }) + (if unit.fg.is_some() { 1usize } else { 0usize })
            + (if unit.bg.is_some() { 1usize } else { 0usize }) + (if unit.modifier.is_some() { 1usize } else { 0usize });
        let ghost rest = diff_writes(s.skip(i as int + 1));
        proof {
            assert(s.skip(i as int)[0] == s[i as int]);
            assert(s.skip(i as int).drop_first() =~= s.skip(i as int + 1));
            assert(unit_writes(index, unit) =~= Seq::new(n as nat, |j: int| index));
        }
        let mut k: usize = 0;
        while k < n
            invariant
                s == entries@,
                0 <= k <= n,
                includes_fit(area, diff_writes(s)) == includes_fit(
                    cur,
                    Seq::new((n - k) as nat, |j: int| index) + rest,
                ),
            decreases n - k,
        {
            proof {
                let t = Seq::new((n - k) as nat, |j: int| index) + rest;
                assert(t[0] == index);
                assert(t.drop_first() =~= Seq::new((n - k - 1) as nat, |j: int| index) + rest);
            }
            if !cur.can_include_index(index) {
                return false;
            }
            cur.include_index(index);
            k += 1;
        }
        proof {
            assert(Seq::new(0nat, |j: int| index) + rest =~= rest);
        }
        i += 1;
    }
    proof {
        assert(s.skip(s.len() as int) =~= Seq::<(CanvasIndex, CanvasDiffUnit)>::empty());
    }
    true
}

/// Whether turning `m` into a diff runs without overflow.
pub fn modification_fits_exec(m: &CanvasModification) -> (b: bool)
    ensures
        b == modification_fits(*m),
{
    match m {
        CanvasModification::Paste(origo, yank) => {
            let mut i: usize = 0;
            while i < yank.cells.len()
                invariant
                    0 <= i <= yank.cells@.len(),
                    modification_fits(*m) == paste_fits(*origo, yank.cells@),
                    forall|j: int| 0 <= j < i ==> shift_fits(*origo, #[trigger] yank.cells@[j].0),
                decreases yank.cells@.len() - i,
            {
                let offset = yank.cells[i].0;
                let r = origo.0 as i32 + offset.0 as i32;
                let c = origo.1 as i32 + offset.1 as i32;
                if !(-32768 <= r && r <= 32767 && -32768 <= c && c <= 32767) {
                    assert(!shift_fits(*origo, yank.cells@[i as int].0));
                    assert(!paste_fits(*origo, yank.cells@));
                    return false;
                }
                i += 1;
            }
            true
        },
        _ => true,
    }
}

} // verus!
