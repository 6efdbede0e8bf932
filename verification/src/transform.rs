use vstd::prelude::*;

use crate::canvas::CanvasCell;
use crate::index_map::{
    entries_map, idx_lt, lemma_entries_map_at, map_get, map_remove, map_set, sorted_keys,
};
use crate::rect::{fits_i16, CanvasIndex};
use crate::slots::SlotMap;
use crate::style::{Axis, RotationDirection};

verus! {

/// Characters that turn into one another when art is mirrored, such as `/` and `\`.
#[derive(Debug)]
pub struct CharacterSwapMap(pub SlotMap<char>);

impl CharacterSwapMap {
    pub open spec fn wf(&self) -> bool {
        self.0.wf()
    }

    pub open spec fn swaps(&self) -> Map<char, char> {
        self.0.view_map()
    }

    /// The map built from deserialized pairs: for each pair `(a, b)` in turn, `a` turns into `b`
    /// and `b` into `a`, unless an earlier pair already says what `a` (or `b`) turns into.
    pub fn from_pairs_keep_first(pairs: &Vec<(char, char)>) -> (m: Self)
        ensures
            m.wf(),
            m.swaps() == swap_pairs_keep_first(pairs@),
    {
        let mut map: SlotMap<char> = SlotMap::new();
        let mut i: usize = 0;
        while i < pairs.len()
            invariant
                0 <= i <= pairs@.len(),
                map.wf(),
                map.view_map() == swap_pairs_keep_first(pairs@.take(i as int)),
            decreases pairs@.len() - i,
        {
            let (a, b) = char_pair(pairs, i);
            if !map.contains_key(a) {
                map.insert(a, b);
            }
            if !map.contains_key(b) {
                map.insert(b, a);
            }
            proof {
                assert(pairs@.take(i as int + 1).drop_last() =~= pairs@.take(i as int));
            }
            i += 1;
        }
        proof {
            assert(pairs@.take(pairs@.len() as int) =~= pairs@);
        }
        CharacterSwapMap(map)
    }

    /// The character that `c` turns into.
    pub fn swapped(&self, c: char) -> (r: char)
        requires
            self.wf(),
        ensures
            r == swap_char(self.swaps(), c),
    {
        match self.0.get(c) {
            Some(s) => *s,
            None => c,
        }
    }
}

/// The pair at `i`, taken by a call so that its characters are known to be characters.
fn char_pair(pairs: &Vec<(char, char)>, i: usize) -> (r: (char, char))
    requires
        i < pairs@.len(),
    ensures
        r == pairs@[i as int],
{
    pairs[i]
}

pub open spec fn swap_pairs_keep_first(pairs: Seq<(char, char)>) -> Map<char, char>
    decreases pairs.len(),
{
    if pairs.len() == 0 {
        Map::empty()
    } else {
        let m = swap_pairs_keep_first(pairs.drop_last());
        let (a, b) = pairs.last();
        let m1 = if m.contains_key(a) {
            m
        } else {
            m.insert(a, b)
        };
        if m1.contains_key(b) {
            m1
        } else {
            m1.insert(b, a)
        }
    }
}

/// The map built from pairs: for each pair `(a, b)` in turn, `a` turns into `b` and `b` into `a`;
/// later pairs override earlier ones.
pub open spec fn swap_pairs(pairs: Seq<(char, char)>) -> Map<char, char>
    decreases pairs.len(),
{
    if pairs.len() == 0 {
        Map::empty()
    } else {
        let (a, b) = pairs.last();
        swap_pairs(pairs.drop_last()).insert(a, b).insert(b, a)
    }
}

pub open spec fn swap_char(swaps: Map<char, char>, c: char) -> char {
    if swaps.contains_key(c) {
        swaps[c]
    } else {
        c
    }
}

/// `cell` with its character turned into its counterpart.
pub open spec fn swap_cell(swaps: Map<char, char>, cell: CanvasCell) -> CanvasCell {
    CanvasCell { character: swap_char(swaps, cell.character), ..cell }
}

pub fn map_from_swap_pairs(swaps: &Vec<(char, char)>) -> (m: CharacterSwapMap)
    ensures
        m.wf(),
        m.swaps() == swap_pairs(swaps@),
{
    let mut map: SlotMap<char> = SlotMap::new();
    let mut i: usize = 0;
    while i < swaps.len()
        invariant
            0 <= i <= swaps@.len(),
            map.wf(),
            map.view_map() == swap_pairs(swaps@.take(i as int)),
        decreases swaps@.len() - i,
    {
        let (a, b) = char_pair(swaps, i);
        map.insert(a, b);
        map.insert(b, a);
        proof {
            assert(swaps@.take(i as int + 1).drop_last() =~= swaps@.take(i as int));
        }
        i += 1;
    }
    proof {
        assert(swaps@.take(swaps@.len() as int) =~= swaps@);
    }
    CharacterSwapMap(map)
}

/// `mirror_index` runs without overflow.
pub open spec fn mirror_fits(index: i16, mirror: i16) -> bool {
    fits_i16(index - mirror) && fits_i16(2 * (index - mirror)) && fits_i16(
        index - 2 * (index - mirror),
    )
}

pub open spec fn spec_mirror_index(index: i16, mirror: i16) -> i16 {
    (index - 2 * (index - mirror)) as i16
}

/// The position mirrored about `mirror`.
pub fn mirror_index(index: i16, mirror: i16) -> (r: i16)
    requires
        mirror_fits(index, mirror),
    ensures
        r == spec_mirror_index(index, mirror),
        r == 2 * mirror - index,
{
    index - 2 * (index - mirror)
}

/// The index mirrored about `mirror` along `axis`: along `X` the column is mirrored, along `Y`
/// the row.
pub open spec fn mirrored(index: CanvasIndex, axis: Axis, mirror: i16) -> CanvasIndex {
    if axis == Axis::X {
        (index.0, spec_mirror_index(index.1, mirror))
    } else {
        (spec_mirror_index(index.0, mirror), index.1)
    }
}

pub open spec fn mirrored_fits(index: CanvasIndex, axis: Axis, mirror: i16) -> bool {
    if axis == Axis::X {
        mirror_fits(index.1, mirror)
    } else {
        mirror_fits(index.0, mirror)
    }
}

/// The mirror image of `index` along `axis` lies in `i16`.
pub open spec fn partner_fits(index: CanvasIndex, axis: Axis, mirror: i16) -> bool {
    if axis == Axis::X {
        fits_i16(2 * mirror - index.1)
    } else {
        fits_i16(2 * mirror - index.0)
    }
}

/// What `mirror_cells` leaves at `p`. A cell whose mirror image is itself gets its character
/// swapped. Of two cells that trade places, the one first in row-major order gets its character
/// swapped and the other one moves as it is; a cell that moves to an empty place gets its
/// character swapped and leaves its place empty.
pub open spec fn mirror_result(
    m: Map<CanvasIndex, CanvasCell>,
    axis: Axis,
    mirror: i16,
    swaps: Map<char, char>,
    p: CanvasIndex,
) -> Option<CanvasCell> {
    let q = mirrored(p, axis, mirror);
    if !partner_fits(p, axis, mirror) {
        None
    } else if p == q {
        if m.contains_key(p) {
            Some(swap_cell(swaps, m[p]))
        } else {
            None
        }
    } else if m.contains_key(q) {
        if m.contains_key(p) && idx_lt(p, q) {
            Some(m[q])
        } else {
            Some(swap_cell(swaps, m[q]))
        }
    } else {
        None
    }
}

/// The cells that mirrored cells end up as.
pub open spec fn mirror_map(
    m: Map<CanvasIndex, CanvasCell>,
    axis: Axis,
    mirror: i16,
    swaps: Map<char, char>,
) -> Map<CanvasIndex, CanvasCell> {
    Map::new(
        |p: CanvasIndex| mirror_result(m, axis, mirror, swaps, p) is Some,
        |p: CanvasIndex| mirror_result(m, axis, mirror, swaps, p)->0,
    )
}

fn mirrored_exec(index: CanvasIndex, axis: Axis, mirror: i16) -> (r: CanvasIndex)
    requires
        mirrored_fits(index, axis, mirror),
    ensures
        r == mirrored(index, axis, mirror),
{
    match axis {
        Axis::X => (index.0, mirror_index(index.1, mirror)),
        Axis::Y => (mirror_index(index.0, mirror), index.1),
    }
}

/// Mirroring an index twice about the same line, along the same axis, gives it back.
pub proof fn law_mirrored_twice(index: CanvasIndex, axis: Axis, mirror: i16)
    requires
        partner_fits(index, axis, mirror),
    ensures
        partner_fits(mirrored(index, axis, mirror), axis, mirror),
        mirrored(mirrored(index, axis, mirror), axis, mirror) == index,
{
}

pub open spec fn get_opt(c: Map<CanvasIndex, CanvasCell>, k: CanvasIndex) -> Option<CanvasCell> {
    if c.contains_key(k) {
        Some(c[k])
    } else {
        None
    }
}

pub open spec fn set_opt(c: Map<CanvasIndex, CanvasCell>, k: CanvasIndex, o: Option<CanvasCell>) -> Map<
    CanvasIndex,
    CanvasCell,
> {
    match o {
        Some(x) => c.insert(k, x),
        None => c.remove(k),
    }
}

pub open spec fn swap_opt(sw: Map<char, char>, o: Option<CanvasCell>) -> Option<CanvasCell> {
    match o {
        Some(x) => Some(swap_cell(sw, x)),
        None => None,
    }
}

/// One step of `mirror_cells`: the pair `index`, `q` trade places.
pub open spec fn mirror_step(
    c: Map<CanvasIndex, CanvasCell>,
    index: CanvasIndex,
    q: CanvasIndex,
    sw: Map<char, char>,
) -> Map<CanvasIndex, CanvasCell> {
    if index == q {
        set_opt(c, index, swap_opt(sw, get_opt(c, index)))
    } else {
        set_opt(set_opt(c, q, swap_opt(sw, get_opt(c, index))), index, get_opt(c, q))
    }
}

/// Handled places come in mirror pairs and hold their result; the others hold what they held.
pub open spec fn mirror_inv(
    c: Map<CanvasIndex, CanvasCell>,
    d: Set<CanvasIndex>,
    m0: Map<CanvasIndex, CanvasCell>,
    axis: Axis,
    mirror: i16,
    sw: Map<char, char>,
) -> bool {
    &&& forall|p: CanvasIndex| #[trigger] d.contains(p) ==> partner_fits(p, axis, mirror) && d.contains(mirrored(p, axis, mirror))
    &&& forall|p: CanvasIndex| #[trigger] d.contains(p) ==> get_opt(c, p) == mirror_result(m0, axis, mirror, sw, p)
    &&& forall|p: CanvasIndex| !(#[trigger] d.contains(p)) ==> get_opt(c, p) == get_opt(m0, p)
}

proof fn lemma_mirror_step(
    c: Map<CanvasIndex, CanvasCell>,
    d: Set<CanvasIndex>,
    m0: Map<CanvasIndex, CanvasCell>,
    axis: Axis,
    mirror: i16,
    sw: Map<char, char>,
    index: CanvasIndex,
)
    requires
        mirror_inv(c, d, m0, axis, mirror, sw),
        !d.contains(index),
        m0.contains_key(index),
        mirrored_fits(index, axis, mirror),
        m0.contains_key(mirrored(index, axis, mirror)) && mirrored(index, axis, mirror) != index
            ==> idx_lt(index, mirrored(index, axis, mirror)),
    ensures
        mirror_inv(
            mirror_step(c, index, mirrored(index, axis, mirror), sw),
            d.insert(index).insert(mirrored(index, axis, mirror)),
            m0,
            axis,
            mirror,
            sw,
        ),
{
    let q = mirrored(index, axis, mirror);
    law_mirrored_twice(index, axis, mirror);
    assert(!d.contains(q)) by {
        if d.contains(q) {
            assert(d.contains(mirrored(q, axis, mirror)));
        }
    }
    let c2 = mirror_step(c, index, q, sw);
    let d2 = d.insert(index).insert(q);
    assert forall|p: CanvasIndex| #[trigger] d2.contains(p) implies get_opt(c2, p) == mirror_result(m0, axis, mirror, sw, p) by {
        if p == index || p == q {
            law_mirrored_twice(p, axis, mirror);
        } else {
            assert(d.contains(p));
        }
    }
    assert forall|p: CanvasIndex| #[trigger] d2.contains(p) implies partner_fits(p, axis, mirror) && d2.contains(mirrored(p, axis, mirror)) by {
        if p == index || p == q {
            law_mirrored_twice(p, axis, mirror);
        } else {
            assert(d.contains(p));
        }
    }
    assert forall|p: CanvasIndex| !(#[trigger] d2.contains(p)) implies get_opt(c2, p) == get_opt(m0, p) by {
        assert(!d.contains(p));
    }
}

/// Stores `cell` at `k`, or removes what is at `k` where `cell` is `None`.
fn set_option(cells: &mut Vec<(CanvasIndex, CanvasCell)>, k: CanvasIndex, cell: Option<CanvasCell>)
    requires
        sorted_keys(old(cells)@),
    ensures
        sorted_keys(final(cells)@),
        entries_map(final(cells)@) == (match cell {
            Some(c) => entries_map(old(cells)@).insert(k, c),
            None => entries_map(old(cells)@).remove(k),
        }),
{
    match cell {
        Some(c) => map_set(cells, k, c),
        None => {
            map_remove(cells, k);
        },
    }
}

/// `cell` with its character turned into its counterpart, where there is a cell.
fn swap_option(swaps: &CharacterSwapMap, cell: Option<CanvasCell>) -> (r: Option<CanvasCell>)
    requires
        swaps.wf(),
    ensures
        r == (match cell {
            Some(c) => Some(swap_cell(swaps.swaps(), c)),
            None => None::<CanvasCell>,
        }),
{
    match cell {
        Some(c) => {
            let mut c2 = c;
            c2.character = swaps.swapped(c.character);
            Some(c2)
        },
        None => None,
    }
}

/// Mirrors `cells` about `mirror` along `axis`, turning characters into their counterparts as
/// `mirror_result` says.
pub fn mirror_cells(
    cells: &mut Vec<(CanvasIndex, CanvasCell)>,
    axis: Axis,
    mirror: i16,
    swaps: &CharacterSwapMap,
)
    requires
        sorted_keys(old(cells)@),
        swaps.wf(),
        forall|j: int|
            0 <= j < old(cells)@.len() ==> mirrored_fits(#[trigger] old(cells)@[j].0, axis, mirror),
    ensures
        sorted_keys(final(cells)@),
        entries_map(final(cells)@) == mirror_map(entries_map(old(cells)@), axis, mirror, swaps.swaps()),
{
    let ghost m0 = entries_map(cells@);
    let ghost sw = swaps.swaps();
    let keys = copy_keys(cells);
    proof {
        assert forall|k: CanvasIndex| m0.contains_key(k) implies exists|j: int|
            0 <= j < keys@.len() && #[trigger] keys@[j].0 == k by {
            let j = choose|j: int| 0 <= j < old(cells)@.len() && #[trigger] old(cells)@[j].0 == k;
            assert(keys@[j].0 == k);
        }
        assert forall|j: int| 0 <= j < keys@.len() implies m0.contains_key(#[trigger] keys@[j].0) by {
            lemma_entries_map_at(old(cells)@, j);
        }
    }
    let mut done: Vec<(CanvasIndex, ())> = Vec::new();
    proof {
        assert(entries_map(done@).dom() =~= Set::<CanvasIndex>::empty());
    }
    let mut i: usize = 0;
    while i < keys.len()
        invariant
            sorted_keys(cells@),
            sorted_keys(done@),
            swaps.wf(),
            sw == swaps.swaps(),
            forall|j: int| 0 <= j < keys@.len() ==> m0.contains_key(#[trigger] keys@[j].0),
            forall|j: int| 0 <= j < keys@.len() ==> mirrored_fits(#[trigger] keys@[j].0, axis, mirror),
            forall|k: CanvasIndex| m0.contains_key(k) ==> exists|j: int|
                0 <= j < keys@.len() && #[trigger] keys@[j].0 == k,
            forall|a: int, b: int|
                0 <= a < b < keys@.len() ==> idx_lt(#[trigger] keys@[a].0, #[trigger] keys@[b].0),
            0 <= i <= keys@.len(),
            forall|j: int| 0 <= j < i ==> entries_map(done@).dom().contains(#[trigger] keys@[j].0),
            mirror_inv(entries_map(cells@), entries_map(done@).dom(), m0, axis, mirror, sw),
        decreases keys@.len() - i,
    {
        let index = keys[i].0;
        assert(mirrored_fits(keys@[i as int].0, axis, mirror));
        let q = mirrored_exec(index, axis, mirror);
        let handled = map_get(&done, index).is_some();
        if !handled {
            let ghost c = entries_map(cells@);
            let ghost d = entries_map(done@).dom();
            assert(m0.contains_key(index));
            assert(m0.contains_key(q) && q != index ==> idx_lt(index, q)) by {
                if m0.contains_key(q) && q != index && !idx_lt(index, q) {
                    let j = choose|j: int| 0 <= j < keys@.len() && #[trigger] keys@[j].0 == q;
                    assert(idx_lt(q, index));
                    if j > i {
                        assert(idx_lt(keys@[i as int].0, keys@[j].0));
                    }
                    assert(j < i);
                    assert(d.contains(keys@[j].0));
                    law_mirrored_twice(index, axis, mirror);
                    assert(d.contains(mirrored(q, axis, mirror)));
                }
            }
            proof {
                lemma_mirror_step(c, d, m0, axis, mirror, sw, index);
            }
            let a = map_get(cells, index);
            if index.0 == q.0 && index.1 == q.1 {
                let a_sw = swap_option(swaps, a);
                set_option(cells, index, a_sw);
                map_set(&mut done, index, ());
                proof {
                    assert(entries_map(cells@) =~= mirror_step(c, index, q, sw));
                    assert(entries_map(done@).dom() =~= d.insert(index).insert(q));
                }
            } else {
                let b = map_get(cells, q);
                let a_sw = swap_option(swaps, a);
                set_option(cells, q, a_sw);
                set_option(cells, index, b);
                map_set(&mut done, index, ());
                map_set(&mut done, q, ());
                proof {
                    assert(entries_map(cells@) =~= mirror_step(c, index, q, sw));
                    assert(entries_map(done@).dom() =~= d.insert(index).insert(q));
                }
            }
        }
        i += 1;
    }
    proof {
        let c = entries_map(cells@);
        let d = entries_map(done@).dom();
        let res = mirror_map(m0, axis, mirror, sw);
        assert forall|p: CanvasIndex| get_opt(c, p) == mirror_result(m0, axis, mirror, sw, p) by {
            if !d.contains(p) {
                if m0.contains_key(p) {
                    let j = choose|j: int| 0 <= j < keys@.len() && #[trigger] keys@[j].0 == p;
                    assert(d.contains(keys@[j].0));
                }
                let q = mirrored(p, axis, mirror);
                if partner_fits(p, axis, mirror) && p != q && m0.contains_key(q) {
                    let j = choose|j: int| 0 <= j < keys@.len() && #[trigger] keys@[j].0 == q;
                    assert(d.contains(keys@[j].0));
                    law_mirrored_twice(p, axis, mirror);
                    assert(d.contains(mirrored(q, axis, mirror)));
                }
            }
        }
        assert forall|p: CanvasIndex| #[trigger] c.contains_key(p) == res.contains_key(p) by {
            assert(get_opt(c, p) == mirror_result(m0, axis, mirror, sw, p));
        }
        assert forall|p: CanvasIndex| #[trigger] c.contains_key(p) implies c[p] == res[p] by {
            assert(get_opt(c, p) == mirror_result(m0, axis, mirror, sw, p));
        }
        assert(c =~= res);
    }
}

/// The indices of `cells`, in the same order.
fn copy_keys(cells: &Vec<(CanvasIndex, CanvasCell)>) -> (r: Vec<(CanvasIndex, ())>)
    requires
        sorted_keys(cells@),
    ensures
        r@.len() == cells@.len(),
        forall|j: int| 0 <= j < r@.len() ==> (#[trigger] r@[j]).0 == cells@[j].0,
{
    let mut r: Vec<(CanvasIndex, ())> = Vec::new();
    let mut i: usize = 0;
    while i < cells.len()
        invariant
            0 <= i <= cells@.len(),
            r@.len() == i,
            forall|j: int| 0 <= j < i ==> (#[trigger] r@[j]).0 == cells@[j].0,
        decreases cells@.len() - i,
    {
        r.push((cells[i].0, ()));
        i += 1;
    }
    r
}

/// `rotate_index` runs without overflow.
pub open spec fn rotate_fits(index: CanvasIndex, rotation_index: CanvasIndex, direction: RotationDirection) -> bool {
    if direction == RotationDirection::Clockwise {
        fits_i16(rotation_index.0 + index.1) && fits_i16(rotation_index.1 - index.0)
    } else {
        fits_i16(rotation_index.0 - index.1) && fits_i16(rotation_index.1 + index.0)
    }
}

pub open spec fn spec_rotate_index(index: CanvasIndex, rotation_index: CanvasIndex, direction: RotationDirection) -> CanvasIndex {
    if direction == RotationDirection::Clockwise {
        ((rotation_index.0 + index.1) as i16, (rotation_index.1 - index.0) as i16)
    } else {
        ((rotation_index.0 - index.1) as i16, (rotation_index.1 + index.0) as i16)
    }
}

/// A quarter turn of `index`, then a shift by `rotation_index`.
pub fn rotate_index(index: CanvasIndex, rotation_index: CanvasIndex, direction: RotationDirection) -> (r: CanvasIndex)
    requires
        rotate_fits(index, rotation_index, direction),
    ensures
        r == spec_rotate_index(index, rotation_index, direction),
{
    match direction {
        RotationDirection::Clockwise => (rotation_index.0 + index.1, rotation_index.1 - index.0),
        RotationDirection::Counterclockwise => (rotation_index.0 - index.1, rotation_index.1 + index.0),
    }
}


/// Rotating about `rotation_index` is rotating about the origin and then shifting by
/// `rotation_index`.
pub proof fn law_rotation_is_shifted_turn(index: CanvasIndex, rotation_index: CanvasIndex, direction: RotationDirection)
    requires
        index.0 != i16::MIN,
        index.1 != i16::MIN,
        fits_i16(rotation_index.0 + index.1),
        fits_i16(rotation_index.0 - index.1),
        fits_i16(rotation_index.1 + index.0),
        fits_i16(rotation_index.1 - index.0),
    ensures
        ({
            let q = spec_rotate_index(index, (0, 0), direction);
            let r = spec_rotate_index(index, rotation_index, direction);
            r.0 == rotation_index.0 + q.0 && r.1 == rotation_index.1 + q.1
        }),
{
}

/// A clockwise turn about the origin is a quarter turn: the result is as long as `index`, at a
/// right angle to it, and turned clockwise with rows counted downwards (to the right becomes
/// downwards); a counterclockwise turn undoes it.
pub proof fn law_clockwise_quarter_turn(index: CanvasIndex)
    requires
        index.0 != i16::MIN,
        index.1 != i16::MIN,
    ensures
        ({
            let q = spec_rotate_index(index, (0, 0), RotationDirection::Clockwise);
            let (a, b) = (index.0 as int, index.1 as int);
            let (c, d) = (q.0 as int, q.1 as int);
            &&& a * c + b * d == 0
            &&& c * c + d * d == a * a + b * b
            &&& a * d - b * c == -(a * a + b * b)
            &&& spec_rotate_index(q, (0, 0), RotationDirection::Counterclockwise) == index
        }),
{
    let q = spec_rotate_index(index, (0, 0), RotationDirection::Clockwise);
    let (a, b) = (index.0 as int, index.1 as int);
    assert(q.0 == b && q.1 == -a);
    assert(a * b + b * (-a) == 0) by (nonlinear_arith);
    assert(b * b + (-a) * (-a) == a * a + b * b) by (nonlinear_arith);
    assert(a * (-a) - b * b == -(a * a + b * b)) by (nonlinear_arith);
}

/// The three further places of the quarter turns that start at `index`.
pub open spec fn rotation_orbit(index: CanvasIndex, r: CanvasIndex, direction: RotationDirection) -> (
    CanvasIndex,
    CanvasIndex,
    CanvasIndex,
) {
    let b = spec_rotate_index(index, r, direction);
    let c = spec_rotate_index(b, r, direction);
    (b, c, spec_rotate_index(c, r, direction))
}

/// The three quarter turns from `index` run without overflow.
pub open spec fn orbit_fits(index: CanvasIndex, r: CanvasIndex, direction: RotationDirection) -> bool {
    let (b, c, _) = rotation_orbit(index, r, direction);
    rotate_fits(index, r, direction) && rotate_fits(b, r, direction) && rotate_fits(c, r, direction)
}

/// Moves what is at `a` to `b`, what was at `b` to `c`, what was at `c` to `d`, each with its
/// character swapped, and what was at `d` to `a` as it is.
pub open spec fn cycle4(
    m: Map<CanvasIndex, CanvasCell>,
    a: CanvasIndex,
    b: CanvasIndex,
    c: CanvasIndex,
    d: CanvasIndex,
    sw: Map<char, char>,
) -> Map<CanvasIndex, CanvasCell> {
    let pa = get_opt(m, a);
    let m1 = m.remove(a);
    let pb = get_opt(m1, b);
    let m2 = set_opt(m1, b, swap_opt(sw, pa));
    let pc = get_opt(m2, c);
    let m3 = set_opt(m2, c, swap_opt(sw, pb));
    let pd = get_opt(m3, d);
    let m4 = set_opt(m3, d, swap_opt(sw, pc));
    set_opt(m4, a, pd)
}

/// The cells after rotating from the `i`-th of `keys` on, where the places in `done` have been
/// rotated already: each place not yet rotated is cycled with the three places its quarter turns
/// reach, and all four count as rotated.
pub open spec fn rotate_from(
    m: Map<CanvasIndex, CanvasCell>,
    keys: Seq<CanvasIndex>,
    i: int,
    done: Set<CanvasIndex>,
    r: CanvasIndex,
    direction: RotationDirection,
    sw: Map<char, char>,
) -> Map<CanvasIndex, CanvasCell>
    decreases keys.len() - i,
{
    if i < 0 || i >= keys.len() {
        m
    } else if done.contains(keys[i]) {
        rotate_from(m, keys, i + 1, done, r, direction, sw)
    } else {
        let k = keys[i];
        let (b, c, d) = rotation_orbit(k, r, direction);
        rotate_from(
            cycle4(m, k, b, c, d, sw),
            keys,
            i + 1,
            done.insert(k).insert(b).insert(c).insert(d),
            r,
            direction,
            sw,
        )
    }
}

/// Rotates `cells` a quarter turn about `rotation_index`: each cell, in row-major order, that
/// has not been moved yet is cycled with the three places its quarter turns reach, turning
/// characters into their counterparts as `cycle4` says.
pub fn rotate_cells(
    cells: &mut Vec<(CanvasIndex, CanvasCell)>,
    rotation_index: CanvasIndex,
    direction: RotationDirection,
    swaps: &CharacterSwapMap,
)
    requires
        sorted_keys(old(cells)@),
        swaps.wf(),
        forall|j: int|
            0 <= j < old(cells)@.len() ==> orbit_fits(#[trigger] old(cells)@[j].0, rotation_index, direction),
    ensures
        sorted_keys(final(cells)@),
        entries_map(final(cells)@) == rotate_from(
            entries_map(old(cells)@),
            old(cells)@.map_values(|e: (CanvasIndex, CanvasCell)| e.0),
            0,
            Set::empty(),
            rotation_index,
            direction,
            swaps.swaps(),
        ),
{
    let ghost sw = swaps.swaps();
    let ghost ks = cells@.map_values(|e: (CanvasIndex, CanvasCell)| e.0);
    let ghost goal = rotate_from(entries_map(cells@), ks, 0, Set::empty(), rotation_index, direction, sw);
    let keys = copy_keys(cells);
    let mut done: Vec<(CanvasIndex, ())> = Vec::new();
    proof {
        assert(entries_map(done@).dom() =~= Set::<CanvasIndex>::empty());
    }
    let mut i: usize = 0;
    while i < keys.len()
        invariant
            sorted_keys(cells@),
            sorted_keys(done@),
            swaps.wf(),
            sw == swaps.swaps(),
            keys@.len() == ks.len(),
            forall|j: int| 0 <= j < keys@.len() ==> (#[trigger] keys@[j]).0 == ks[j],
            forall|j: int| 0 <= j < ks.len() ==> orbit_fits(#[trigger] ks[j], rotation_index, direction),
            0 <= i <= keys@.len(),
            rotate_from(entries_map(cells@), ks, i as int, entries_map(done@).dom(), rotation_index, direction, sw) == goal,
        decreases keys@.len() - i,
    {
        let index = keys[i].0;
        assert(index == ks[i as int]);
        let handled = map_get(&done, index).is_some();
        if !handled {
            assert(orbit_fits(ks[i as int], rotation_index, direction));
            let b = rotate_index(index, rotation_index, direction);
            let c = rotate_index(b, rotation_index, direction);
            let d = rotate_index(c, rotation_index, direction);
            let ghost m = entries_map(cells@);
            let pa = map_get(cells, index);
            set_option(cells, index, None);
            let pb = map_get(cells, b);
            let pa_sw = swap_option(swaps, pa);
            set_option(cells, b, pa_sw);
            let pc = map_get(cells, c);
            let pb_sw = swap_option(swaps, pb);
            set_option(cells, c, pb_sw);
            let pd = map_get(cells, d);
            let pc_sw = swap_option(swaps, pc);
            set_option(cells, d, pc_sw);
            set_option(cells, index, pd);
            let ghost d0 = entries_map(done@).dom();
            map_set(&mut done, index, ());
            map_set(&mut done, b, ());
            map_set(&mut done, c, ());
            map_set(&mut done, d, ());
            proof {
                assert(entries_map(cells@) =~= cycle4(m, index, b, c, d, sw));
                assert(entries_map(done@).dom() =~= d0.insert(index).insert(b).insert(c).insert(d));
            }
        }
        i += 1;
    }
    proof {
        assert(rotate_from(entries_map(cells@), ks, i as int, entries_map(done@).dom(), rotation_index, direction, sw) == entries_map(cells@));
    }
}

} // verus!
