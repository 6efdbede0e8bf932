use vstd::prelude::*;

use crate::canvas::{default_cell, read_cell, Canvas, CanvasCell};
use crate::index_map::{entries_map, idx_lt, lemma_entries_map_at, map_get, map_insert, sorted_keys};
use crate::rect::{fits_i16, wrap_i16, CanvasIndex, CanvasRect};
use crate::state::Selection;
use crate::style::{CellContentType, Color, Modifier};

verus! {

/// A condition on a value.
pub trait MatchValue<T> {
    spec fn spec_matches(&self, target: T) -> bool;

    fn matches(&self, target: &T) -> (b: bool)
        ensures
            b == self.spec_matches(*target),
    ;
}

impl MatchValue<char> for char {
    open spec fn spec_matches(&self, target: char) -> bool {
        target == *self
    }

    fn matches(&self, target: &char) -> (b: bool) {
        *target == *self
    }
}

impl MatchValue<Color> for Color {
    open spec fn spec_matches(&self, target: Color) -> bool {
        target == *self
    }

    fn matches(&self, target: &Color) -> (b: bool) {
        *target == *self
    }
}

/// A modifier set matches every set that holds all of its modifiers.
impl MatchValue<Modifier> for Modifier {
    open spec fn spec_matches(&self, target: Modifier) -> bool {
        target.spec_contains(*self)
    }

    fn matches(&self, target: &Modifier) -> (b: bool) {
        target.contains(*self)
    }
}

/// A cell matches where its character and colors are equal and it holds all the modifiers.
impl MatchValue<CanvasCell> for CanvasCell {
    open spec fn spec_matches(&self, target: CanvasCell) -> bool {
        target.character == self.character && target.fg == self.fg && target.bg == self.bg
            && target.modifiers.spec_contains(self.modifiers)
    }

    fn matches(&self, target: &CanvasCell) -> (b: bool) {
        self.character.matches(&target.character) && self.fg.matches(&target.fg) && self.bg.matches(
            &target.bg,
        ) && self.modifiers.matches(&target.modifiers)
    }
}

/// An unset condition matches everything.
impl<T, U: MatchValue<T>> MatchValue<T> for Option<U> {
    open spec fn spec_matches(&self, target: T) -> bool {
        match self {
            Some(v) => v.spec_matches(target),
            None => true,
        }
    }

    fn matches(&self, target: &T) -> (b: bool) {
        match self {
            Some(v) => v.matches(target),
            None => true,
        }
    }
}

/// The values that match: those listed, or those not listed.
#[derive(Debug)]
pub enum AllowedDisallowed<T> {
    Allowed(Vec<T>),
    Disallowed(Vec<T>),
}

impl<T> AllowedDisallowed<T> {
    /// Nothing disallowed.
    pub fn new() -> (r: Self)
        ensures
            r matches AllowedDisallowed::Disallowed(v) && v@.len() == 0,
    {
        AllowedDisallowed::Disallowed(Vec::new())
    }
}

fn contains_char(v: &Vec<char>, c: char) -> (b: bool)
    ensures
        b == v@.contains(c),
{
    let mut i: usize = 0;
    while i < v.len()
        invariant
            0 <= i <= v@.len(),
            forall|j: int| 0 <= j < i ==> v@[j] != c,
        decreases v@.len() - i,
    {
        if v[i] == c {
            return true;
        }
        i += 1;
    }
    false
}

fn contains_color(v: &Vec<Color>, c: Color) -> (b: bool)
    ensures
        b == v@.contains(c),
{
    let mut i: usize = 0;
    while i < v.len()
        invariant
            0 <= i <= v@.len(),
            forall|j: int| 0 <= j < i ==> v@[j] != c,
        decreases v@.len() - i,
    {
        if v[i] == c {
            return true;
        }
        i += 1;
    }
    false
}

impl MatchValue<char> for AllowedDisallowed<char> {
    open spec fn spec_matches(&self, target: char) -> bool {
        match self {
            AllowedDisallowed::Allowed(v) => v@.contains(target),
            AllowedDisallowed::Disallowed(v) => !v@.contains(target),
        }
    }

    fn matches(&self, target: &char) -> (b: bool) {
        match self {
            AllowedDisallowed::Allowed(v) => contains_char(v, *target),
            AllowedDisallowed::Disallowed(v) => !contains_char(v, *target),
        }
    }
}

impl MatchValue<Color> for AllowedDisallowed<Color> {
    open spec fn spec_matches(&self, target: Color) -> bool {
        match self {
            AllowedDisallowed::Allowed(v) => v@.contains(target),
            AllowedDisallowed::Disallowed(v) => !v@.contains(target),
        }
    }

    fn matches(&self, target: &Color) -> (b: bool) {
        match self {
            AllowedDisallowed::Allowed(v) => contains_color(v, *target),
            AllowedDisallowed::Disallowed(v) => !contains_color(v, *target),
        }
    }
}

/// Matches what the inner condition does not.
#[derive(Debug)]
pub struct MatchInverse<M>(pub M);

impl<M> MatchInverse<M> {
    pub fn new(value: M) -> (r: Self)
        ensures
            r.0 == value,
    {
        MatchInverse(value)
    }
}

impl<T, M: MatchValue<T>> MatchValue<T> for MatchInverse<M> {
    open spec fn spec_matches(&self, target: T) -> bool {
        !self.0.spec_matches(target)
    }

    fn matches(&self, target: &T) -> (b: bool) {
        !self.0.matches(target)
    }
}

/// Conditions on the aspects of a cell; unset ones match everything.
#[derive(Debug, Clone, Copy)]
pub struct MatchCellSame {
    pub ch: Option<char>,
    pub fg: Option<Color>,
    pub bg: Option<Color>,
    pub modifier: Option<Modifier>,
}

impl MatchValue<CanvasCell> for MatchCellSame {
    open spec fn spec_matches(&self, target: CanvasCell) -> bool {
        self.ch.spec_matches(target.character) && self.fg.spec_matches(target.fg)
            && self.bg.spec_matches(target.bg) && self.modifier.spec_matches(target.modifiers)
    }

    fn matches(&self, target: &CanvasCell) -> (b: bool) {
        self.ch.matches(&target.character) && self.fg.matches(&target.fg) && self.bg.matches(
            &target.bg,
        ) && self.modifier.matches(&target.modifiers)
    }
}

impl MatchCellSame {
    /// The conditions that the aspects of `cell` named by `content_type` set.
    pub fn from_cell(cell: &CanvasCell, content_type: CellContentType) -> (r: Self)
        ensures
            r.ch == (if content_type.text { Some(cell.character) } else { None }),
            r.fg == (if content_type.fg { Some(cell.fg) } else { None }),
            r.bg == (if content_type.bg { Some(cell.bg) } else { None }),
            r.modifier == (if content_type.modifiers { Some(cell.modifiers) } else { None }),
    {
        MatchCellSame {
            ch: if content_type.text { Some(cell.character) } else { None },
            fg: if content_type.fg { Some(cell.fg) } else { None },
            bg: if content_type.bg { Some(cell.bg) } else { None },
            modifier: if content_type.modifiers { Some(cell.modifiers) } else { None },
        }
    }
}

/// Cells like a given one, or cells unlike it.
#[derive(Debug, Clone, Copy)]
pub enum MatchCell {
    Same(MatchCellSame),
    NotSame(MatchCellSame),
}

impl MatchValue<CanvasCell> for MatchCell {
    open spec fn spec_matches(&self, target: CanvasCell) -> bool {
        match self {
            MatchCell::Same(s) => s.spec_matches(target),
            MatchCell::NotSame(s) => !s.spec_matches(target),
        }
    }

    fn matches(&self, target: &CanvasCell) -> (b: bool) {
        match self {
            MatchCell::Same(s) => s.matches(target),
            MatchCell::NotSame(s) => !s.matches(target),
        }
    }
}

/// What a region is made of, relative to the cell it starts from.
#[derive(Debug, Clone, Copy, PartialEq, Eq, Structural)]
pub enum ContinuousRegionRelativeType {
    /// Cells whose aspects named are those of the start cell.
    Same(CellContentType),
    /// Cells whose aspects named are not all those of the start cell.
    NotSame(CellContentType),
    /// Cells whose aspects named are not all those of a blank cell.
    NonBlank(CellContentType),
}

impl MatchCell {
    pub fn non_blank(content_type: CellContentType) -> (r: Self)
        ensures
            r matches MatchCell::NotSame(s) && s == MatchCellSame::spec_from_cell(default_cell(), content_type),
    {
        let blank = CanvasCell::default_cell();
        MatchCell::NotSame(MatchCellSame::from_cell(&blank, content_type))
    }

    pub fn from_relative(cell: &CanvasCell, relative_type: ContinuousRegionRelativeType) -> (r: Self)
        ensures
            r == (match relative_type {
                ContinuousRegionRelativeType::Same(ct) => MatchCell::Same(MatchCellSame::spec_from_cell(*cell, ct)),
                ContinuousRegionRelativeType::NotSame(ct) => MatchCell::NotSame(MatchCellSame::spec_from_cell(*cell, ct)),
                ContinuousRegionRelativeType::NonBlank(ct) => MatchCell::NotSame(MatchCellSame::spec_from_cell(default_cell(), ct)),
            }),
    {
        match relative_type {
            ContinuousRegionRelativeType::Same(ct) => MatchCell::Same(MatchCellSame::from_cell(cell, ct)),
            ContinuousRegionRelativeType::NotSame(ct) => MatchCell::NotSame(MatchCellSame::from_cell(cell, ct)),
            ContinuousRegionRelativeType::NonBlank(ct) => MatchCell::non_blank(ct),
        }
    }
}

impl MatchCellSame {
    pub open spec fn spec_from_cell(cell: CanvasCell, content_type: CellContentType) -> MatchCellSame {
        MatchCellSame {
            ch: if content_type.text { Some(cell.character) } else { None },
            fg: if content_type.fg { Some(cell.fg) } else { None },
            bg: if content_type.bg { Some(cell.bg) } else { None },
            modifier: if content_type.modifiers { Some(cell.modifiers) } else { None },
        }
    }
}

/// The steps to the neighbors of a cell: up, down, left and right, and the diagonal ones
/// where they are allowed.
pub open spec fn offsets(diagonals_allowed: bool) -> Seq<(i16, i16)> {
    if diagonals_allowed {
        seq![(1i16, 0i16), (0i16, 1i16), (-1i16, 0i16), (0i16, -1i16), (1i16, 1i16), (-1i16, 1i16), (-1i16, -1i16), (1i16, -1i16)]
    } else {
        seq![(1i16, 0i16), (0i16, 1i16), (-1i16, 0i16), (0i16, -1i16)]
    }
}

pub open spec fn neighbor(index: CanvasIndex, offset: (i16, i16)) -> CanvasIndex {
    ((index.0 + offset.0) as i16, (index.1 + offset.1) as i16)
}

pub open spec fn adjacent(a: CanvasIndex, b: CanvasIndex, diagonals_allowed: bool) -> bool {
    exists|j: int| 0 <= j < offsets(diagonals_allowed).len() && b == neighbor(a, #[trigger] offsets(diagonals_allowed)[j])
}

/// A cell of the region: inside the canvas area, and matching.
pub open spec fn in_region<M: MatchValue<CanvasCell>>(canvas: Canvas, m: M, p: CanvasIndex) -> bool {
    m.spec_matches(read_cell(canvas.cell_map(), p)) && canvas.area.spec_includes(p)
}

/// A path of region cells, each a neighbor of the one before.
pub open spec fn region_path<M: MatchValue<CanvasCell>>(
    canvas: Canvas,
    m: M,
    diagonals_allowed: bool,
    path: Seq<CanvasIndex>,
) -> bool {
    &&& path.len() > 0
    &&& forall|i: int| 0 <= i < path.len() ==> in_region(canvas, m, #[trigger] path[i])
    &&& forall|i: int| 0 <= i < path.len() - 1 ==> adjacent(#[trigger] path[i], path[i + 1], diagonals_allowed)
}

/// `p` can be reached from `start` through region cells.
pub open spec fn reachable<M: MatchValue<CanvasCell>>(
    canvas: Canvas,
    m: M,
    diagonals_allowed: bool,
    start: CanvasIndex,
    p: CanvasIndex,
) -> bool {
    exists|path: Seq<CanvasIndex>| #[trigger] region_path(canvas, m, diagonals_allowed, path) && path[0] == start && path.last() == p
}

/// A modifier condition matches exactly the modifier sets that hold every modifier it names.
pub proof fn law_modifier_condition_needs_all(condition: Modifier, target: Modifier)
    ensures
        condition.spec_matches(target) <==> ({
            &&& condition.bold ==> target.bold
            &&& condition.dim ==> target.dim
            &&& condition.italic ==> target.italic
            &&& condition.underlined ==> target.underlined
            &&& condition.slow_blink ==> target.slow_blink
            &&& condition.rapid_blink ==> target.rapid_blink
            &&& condition.reversed ==> target.reversed
            &&& condition.hidden ==> target.hidden
            &&& condition.crossed_out ==> target.crossed_out
        }),
{
}

/// Every cell of a region whose condition names modifiers carries each of them; so a cell
/// without modifiers is never in a region that asks for one.
pub proof fn law_region_cells_carry_condition_modifiers(
    canvas: Canvas,
    condition: MatchCellSame,
    diagonals_allowed: bool,
    start: CanvasIndex,
    p: CanvasIndex,
)
    requires
        condition.modifier is Some,
        reachable(canvas, condition, diagonals_allowed, start, p),
    ensures
        ({
            let mo = condition.modifier->0;
            let held = read_cell(canvas.cell_map(), p).modifiers;
            &&& mo.bold ==> held.bold
            &&& mo.dim ==> held.dim
            &&& mo.italic ==> held.italic
            &&& mo.underlined ==> held.underlined
            &&& mo.slow_blink ==> held.slow_blink
            &&& mo.rapid_blink ==> held.rapid_blink
            &&& mo.reversed ==> held.reversed
            &&& mo.hidden ==> held.hidden
            &&& mo.crossed_out ==> held.crossed_out
        }),
{
    let path = choose|path: Seq<CanvasIndex>| #[trigger] region_path(canvas, condition, diagonals_allowed, path)
        && path[0] == start && path.last() == p;
    assert(in_region(canvas, condition, path[path.len() - 1]));
    law_modifier_condition_needs_all(condition.modifier->0, read_cell(canvas.cell_map(), p).modifiers);
}

/// The neighbors of the canvas area are indices: the area does not touch the edge of `i16`.
pub open spec fn area_padded(area: CanvasRect) -> bool {
    &&& area.last_row_fits()
    &&& area.last_column_fits()
    &&& fits_i16(area.row - 1)
    &&& fits_i16(area.column - 1)
    &&& fits_i16(area.spec_last_row() + 1)
    &&& fits_i16(area.spec_last_column() + 1)
}

/// The position of an index of the area in row-major order.
spec fn rank(area: CanvasRect, p: CanvasIndex) -> int {
    (p.0 - area.row) * wrap_i16(area.columns) + (p.1 - area.column)
}

proof fn lemma_rank(area: CanvasRect, a: CanvasIndex, b: CanvasIndex)
    requires
        area.spec_includes(a),
        area.spec_includes(b),
        idx_lt(a, b),
    ensures
        0 <= rank(area, a) < rank(area, b) < wrap_i16(area.rows) * wrap_i16(area.columns),
{
    let c = wrap_i16(area.columns);
    let r = wrap_i16(area.rows);
    let ra = a.0 - area.row;
    let rb = b.0 - area.row;
    let ca = a.1 - area.column;
    let cb = b.1 - area.column;
    assert(0 <= ra < r && 0 <= rb < r && 0 <= ca < c && 0 <= cb < c);
    if ra < rb {
        assert(ra * c + ca < (ra + 1) * c) by (nonlinear_arith)
            requires ca < c;
        assert((ra + 1) * c <= rb * c) by (nonlinear_arith)
            requires ra + 1 <= rb, c >= 0;
    } else {
        assert(ra == rb);
    }
    assert(0 <= ra * c) by (nonlinear_arith)
        requires ra >= 0, c >= 0;
    assert(rb * c + cb < (rb + 1) * c) by (nonlinear_arith)
        requires cb < c;
    assert((rb + 1) * c <= r * c) by (nonlinear_arith)
        requires rb + 1 <= r, c >= 0;
}

/// The number of indices in the area.
spec fn area_size(area: CanvasRect) -> int {
    if wrap_i16(area.rows) > 0 && wrap_i16(area.columns) > 0 {
        wrap_i16(area.rows) * wrap_i16(area.columns)
    } else {
        0
    }
}

/// A selection inside the area holds at most as many indices as the area.
proof fn lemma_selection_bound(area: CanvasRect, s: Seq<(CanvasIndex, ())>)
    requires
        sorted_keys(s),
        forall|j: int| 0 <= j < s.len() ==> area.spec_includes(#[trigger] s[j].0),
    ensures
        s.len() <= area_size(area),
{
    if s.len() > 0 {
        let last = s.len() - 1;
        lemma_rank_at_least(area, s, last);
        assert(area.spec_includes(s[last].0));
        let c = wrap_i16(area.columns);
        let r = wrap_i16(area.rows);
        let ra = s[last].0.0 - area.row;
        let ca = s[last].0.1 - area.column;
        assert(ra * c + ca < r * c) by (nonlinear_arith)
            requires
                0 <= ra < r,
                0 <= ca < c,
        {
            assert(ra * c + ca < (ra + 1) * c);
            assert((ra + 1) * c <= r * c);
        }
        assert(rank(area, s[last].0) == ra * c + ca);
        assert(last < r * c);
        assert(r > 0 && c > 0);
        assert(s.len() == last + 1);
    }
}

proof fn lemma_rank_at_least(area: CanvasRect, s: Seq<(CanvasIndex, ())>, i: int)
    requires
        sorted_keys(s),
        forall|j: int| 0 <= j < s.len() ==> area.spec_includes(#[trigger] s[j].0),
        0 <= i < s.len(),
    ensures
        rank(area, s[i].0) >= i,
    decreases i,
{
    if i == 0 {
        let c = wrap_i16(area.columns);
        let ra = s[0].0.0 - area.row;
        let ca = s[0].0.1 - area.column;
        assert(ra * c + ca >= 0) by (nonlinear_arith)
            requires ra >= 0, ca >= 0, c >= 0;
    } else {
        lemma_rank_at_least(area, s, i - 1);
        lemma_rank(area, s[i - 1].0, s[i].0);
    }
}

/// The region is closed: every region neighbor of `q` is in it.
pub open spec fn closed_at<M: MatchValue<CanvasCell>>(
    canvas: Canvas,
    m: M,
    diagonals_allowed: bool,
    region: Set<CanvasIndex>,
    q: CanvasIndex,
) -> bool {
    forall|j: int| 0 <= j < offsets(diagonals_allowed).len() && in_region(canvas, m, neighbor(q, #[trigger] offsets(diagonals_allowed)[j]))
        ==> region.contains(neighbor(q, offsets(diagonals_allowed)[j]))
}

/// A closed region that holds the start of a path holds the whole path.
proof fn lemma_closed_holds_path<M: MatchValue<CanvasCell>>(
    canvas: Canvas,
    m: M,
    diagonals_allowed: bool,
    region: Set<CanvasIndex>,
    path: Seq<CanvasIndex>,
    k: int,
)
    requires
        region_path(canvas, m, diagonals_allowed, path),
        region.contains(path[0]),
        forall|q: CanvasIndex| #[trigger] region.contains(q) ==> closed_at(canvas, m, diagonals_allowed, region, q),
        0 <= k < path.len(),
    ensures
        region.contains(path[k]),
    decreases k,
{
    if k > 0 {
        lemma_closed_holds_path(canvas, m, diagonals_allowed, region, path, k - 1);
        assert(adjacent(path[k - 1], path[k], diagonals_allowed));
        let j = choose|j: int| 0 <= j < offsets(diagonals_allowed).len() && path[k] == neighbor(path[k - 1], #[trigger] offsets(diagonals_allowed)[j]);
        assert(closed_at(canvas, m, diagonals_allowed, region, path[k - 1]));
        assert(in_region(canvas, m, path[k]));
    }
}

proof fn lemma_offsets_small(diagonals_allowed: bool)
    ensures
        forall|j: int| 0 <= j < offsets(diagonals_allowed).len() ==> -1 <= (#[trigger] offsets(diagonals_allowed)[j]).0 <= 1
            && -1 <= offsets(diagonals_allowed)[j].1 <= 1,
{
    let o = offsets(diagonals_allowed);
    assert forall|j: int| 0 <= j < o.len() implies -1 <= (#[trigger] o[j]).0 <= 1 && -1 <= o[j].1 <= 1 by {
        if j == 0 {} else if j == 1 {} else if j == 2 {} else if j == 3 {} else if j == 4 {} else if j == 5 {} else if j == 6 {} else {}
    }
}

proof fn lemma_extend_reachable<M: MatchValue<CanvasCell>>(
    canvas: Canvas,
    m: M,
    diagonals_allowed: bool,
    start: CanvasIndex,
    index: CanvasIndex,
    next: CanvasIndex,
)
    requires
        reachable(canvas, m, diagonals_allowed, start, index),
        in_region(canvas, m, next),
        adjacent(index, next, diagonals_allowed),
    ensures
        reachable(canvas, m, diagonals_allowed, start, next),
{
    let path = choose|path: Seq<CanvasIndex>| #[trigger] region_path(canvas, m, diagonals_allowed, path) && path[0] == start && path.last() == index;
    let path2 = path.push(next);
    assert forall|i: int| 0 <= i < path2.len() - 1 implies adjacent(#[trigger] path2[i], path2[i + 1], diagonals_allowed) by {
        if i < path.len() - 1 {
            assert(path2[i] == path[i] && path2[i + 1] == path[i + 1]);
        }
    }
    assert forall|i: int| 0 <= i < path2.len() implies in_region(canvas, m, #[trigger] path2[i]) by {
        if i < path.len() {
            assert(path2[i] == path[i]);
        }
    }
    assert(region_path(canvas, m, diagonals_allowed, path2));
    assert(path2[0] == start && path2.last() == next);
}

proof fn lemma_closed_grows<M: MatchValue<CanvasCell>>(
    canvas: Canvas,
    m: M,
    diagonals_allowed: bool,
    r1: Set<CanvasIndex>,
    r2: Set<CanvasIndex>,
    q: CanvasIndex,
)
    requires
        closed_at(canvas, m, diagonals_allowed, r1, q),
        r1.subset_of(r2),
    ensures
        closed_at(canvas, m, diagonals_allowed, r2, q),
{
    assert forall|jj: int| 0 <= jj < offsets(diagonals_allowed).len() && in_region(canvas, m, neighbor(q, #[trigger] offsets(diagonals_allowed)[jj]))
        implies r2.contains(neighbor(q, offsets(diagonals_allowed)[jj])) by {
        assert(r1.contains(neighbor(q, offsets(diagonals_allowed)[jj])));
    }
}

fn offset_list(diagonals_allowed: bool) -> (r: Vec<(i16, i16)>)
    ensures
        r@ == offsets(diagonals_allowed),
{
    let mut r: Vec<(i16, i16)> = Vec::new();
    r.push((1, 0));
    r.push((0, 1));
    r.push((-1, 0));
    r.push((0, -1));
    if diagonals_allowed {
        r.push((1, 1));
        r.push((-1, 1));
        r.push((-1, -1));
        r.push((1, -1));
    }
    proof {
        assert(r@ =~= offsets(diagonals_allowed));
    }
    r
}

/// The cells reachable from `start` through cells that match and lie inside the canvas area,
/// stepping to the neighbors up, down, left and right, and diagonally where allowed.
pub fn find_continuous_region<M: MatchValue<CanvasCell>>(
    canvas: &Canvas,
    start: CanvasIndex,
    match_cell: &M,
    diagonals_allowed: bool,
) -> (r: Selection)
    requires
        canvas.wf(),
        area_padded(canvas.area),
    ensures
        r.wf(),
        forall|p: CanvasIndex| #[trigger] r.index_set().contains(p) <==> reachable(*canvas, *match_cell, diagonals_allowed, start, p),
{
    let ghost m = *match_cell;
    let ghost area = canvas.area;
    let ghost bound = area_size(area);
    let offs = offset_list(diagonals_allowed);
    let mut result = Selection::new();
    let mut stack: Vec<CanvasIndex> = Vec::new();
    let start_good = match_cell.matches(&canvas.get(start)) && canvas.area.includes_index(start);
    if start_good {
        map_insert(&mut result.indices, start, ());
        stack.push(start);
        proof {
            assert(region_path(*canvas, m, diagonals_allowed, seq![start]));
            assert(seq![start][0] == start && seq![start].last() == start);
            assert forall|i: int| 0 <= i < result.indices@.len() implies canvas.area.spec_includes(#[trigger] result.indices@[i].0) by {
                lemma_entries_map_at(result.indices@, i);
            }
            lemma_selection_bound(canvas.area, result.indices@);
            assert(stack@ =~= seq![start]);
            assert(result.index_set() =~= Set::<CanvasIndex>::empty().insert(start));
        }
    }
    while stack.len() > 0
        invariant
            canvas.wf(),
            area_padded(canvas.area),
            m == *match_cell,
            offs@ == offsets(diagonals_allowed),
            result.wf(),
            start_good == in_region(*canvas, m, start),
            start_good ==> result.index_set().contains(start),
            !start_good ==> result.indices@.len() == 0 && stack@.len() == 0,
            forall|p: CanvasIndex| #[trigger] result.index_set().contains(p) ==> in_region(*canvas, m, p)
                && reachable(*canvas, m, diagonals_allowed, start, p),
            forall|j: int| 0 <= j < stack@.len() ==> result.index_set().contains(#[trigger] stack@[j]),
            forall|q: CanvasIndex| #[trigger] result.index_set().contains(q) ==> stack@.contains(q)
                || closed_at(*canvas, m, diagonals_allowed, result.index_set(), q),
            result.indices@.len() <= bound,
            bound == area_size(canvas.area),
        decreases bound - result.indices@.len(), stack@.len(),
    {
        let ghost old_stack = stack@;
        let index = stack.pop().unwrap();
        let ghost len_before = result.indices@.len();
        let ghost stack_len0 = stack@.len();
        proof {
            lemma_offsets_small(diagonals_allowed);
            assert(stack@.push(index) =~= old_stack);
            assert(result.index_set().contains(index)) by {
                assert(old_stack[old_stack.len() - 1] == index);
            }
            assert forall|q: CanvasIndex| #[trigger] result.index_set().contains(q) implies q == index || stack@.contains(q)
                || closed_at(*canvas, m, diagonals_allowed, result.index_set(), q) by {
                if old_stack.contains(q) && q != index {
                    let i = choose|i: int| 0 <= i < old_stack.len() && old_stack[i] == q;
                    assert(i < old_stack.len() - 1);
                    assert(stack@[i] == q);
                }
            }
            assert forall|i: int| 0 <= i < stack@.len() implies result.index_set().contains(#[trigger] stack@[i]) by {
                assert(stack@[i] == old_stack[i]);
            }
        }
        let mut j: usize = 0;
        while j < offs.len()
            invariant
                canvas.wf(),
                area_padded(canvas.area),
                m == *match_cell,
                offs@ == offsets(diagonals_allowed),
                0 <= j <= offs@.len(),
                result.wf(),
                result.indices@.len() >= len_before,
                result.index_set().contains(index),
                start_good ==> result.index_set().contains(start),
                forall|p: CanvasIndex| #[trigger] result.index_set().contains(p) ==> in_region(*canvas, m, p)
                    && reachable(*canvas, m, diagonals_allowed, start, p),
                forall|i: int| 0 <= i < stack@.len() ==> result.index_set().contains(#[trigger] stack@[i]),
                forall|q: CanvasIndex| #[trigger] result.index_set().contains(q) ==> q == index || stack@.contains(q)
                    || closed_at(*canvas, m, diagonals_allowed, result.index_set(), q),
                forall|i: int| 0 <= i < j && in_region(*canvas, m, neighbor(index, #[trigger] offs@[i]))
                    ==> result.index_set().contains(neighbor(index, offs@[i])),
                result.indices@.len() == len_before ==> stack@.len() == stack_len0,
                result.indices@.len() <= bound,
                bound == area_size(canvas.area),
                forall|i: int| 0 <= i < offs@.len() ==> -1 <= (#[trigger] offs@[i]).0 <= 1 && -1 <= offs@[i].1 <= 1,
            decreases offs@.len() - j,
        {
            let off = offs[j];
            assert(in_region(*canvas, m, index));
            let next: CanvasIndex = (index.0 + off.0, index.1 + off.1);
            let present = map_get(&result.indices, next).is_some();
            if !present && match_cell.matches(&canvas.get(next)) && canvas.area.includes_index(next) {
                let ghost before = result.index_set();
                let ghost stack_before = stack@;
                proof {
                    assert(next == neighbor(index, offsets(diagonals_allowed)[j as int]));
                    lemma_extend_reachable(*canvas, m, diagonals_allowed, start, index, next);
                }
                map_insert(&mut result.indices, next, ());
                stack.push(next);
                proof {
                    assert(result.index_set() =~= before.insert(next));
                    assert(stack@ =~= stack_before.push(next));
                    assert forall|q: CanvasIndex| #[trigger] result.index_set().contains(q) implies q == index || stack@.contains(q)
                        || closed_at(*canvas, m, diagonals_allowed, result.index_set(), q) by {
                        if q == next {
                            assert(stack@[stack@.len() - 1] == next);
                        } else if q != index {
                            if stack_before.contains(q) {
                                let i = choose|i: int| 0 <= i < stack_before.len() && stack_before[i] == q;
                                assert(stack@[i] == q);
                            } else {
                                lemma_closed_grows(*canvas, m, diagonals_allowed, before, result.index_set(), q);
                            }
                        }
                    }
                    assert forall|i: int| 0 <= i < stack@.len() implies result.index_set().contains(#[trigger] stack@[i]) by {
                        if i < stack_before.len() {
                            assert(stack@[i] == stack_before[i]);
                        }
                    }
                    assert forall|i: int| 0 <= i < result.indices@.len() implies canvas.area.spec_includes(#[trigger] result.indices@[i].0) by {
                        lemma_entries_map_at(result.indices@, i);
                    }
                    lemma_selection_bound(canvas.area, result.indices@);
                }
            }
            j += 1;
        }
        proof {
            assert(closed_at(*canvas, m, diagonals_allowed, result.index_set(), index));
        }
    }
    proof {
        assert forall|p: CanvasIndex| #[trigger] result.index_set().contains(p) <==> reachable(*canvas, m, diagonals_allowed, start, p) by {
            if reachable(*canvas, m, diagonals_allowed, start, p) {
                let path = choose|path: Seq<CanvasIndex>| #[trigger] region_path(*canvas, m, diagonals_allowed, path) && path[0] == start && path.last() == p;
                assert(in_region(*canvas, m, path[0]));
                lemma_closed_holds_path(*canvas, m, diagonals_allowed, result.index_set(), path, path.len() - 1);
            }
        }
    }
    result
}

} // verus!
