use vstd::prelude::*;

use crate::rect::CanvasIndex;

verus! {

/// Row-major order of canvas indices.
pub open spec fn idx_lt(a: CanvasIndex, b: CanvasIndex) -> bool {
    a.0 < b.0 || (a.0 == b.0 && a.1 < b.1)
}

pub fn index_less(a: CanvasIndex, b: CanvasIndex) -> (r: bool)
    ensures
        r == idx_lt(a, b),
{
    a.0 < b.0 || (a.0 == b.0 && a.1 < b.1)
}

/// Entries in strictly increasing row-major order of their indices.
pub open spec fn sorted_keys<V>(s: Seq<(CanvasIndex, V)>) -> bool {
    forall|i: int, j: int| 0 <= i < j < s.len() ==> idx_lt(#[trigger] s[i].0, #[trigger] s[j].0)
}

pub open spec fn has_key<V>(s: Seq<(CanvasIndex, V)>, k: CanvasIndex) -> bool {
    exists|i: int| 0 <= i < s.len() && #[trigger] s[i].0 == k
}

/// The values stored in `s`, by index.
pub open spec fn entries_map<V>(s: Seq<(CanvasIndex, V)>) -> Map<CanvasIndex, V> {
    Map::new(
        |k: CanvasIndex| has_key(s, k),
        |k: CanvasIndex| s[choose|i: int| 0 <= i < s.len() && #[trigger] s[i].0 == k].1,
    )
}

pub proof fn lemma_sorted_unique<V>(s: Seq<(CanvasIndex, V)>, i: int, j: int)
    requires
        sorted_keys(s),
        0 <= i < s.len(),
        0 <= j < s.len(),
        s[i].0 == s[j].0,
    ensures
        i == j,
{
    if i < j {
        assert(idx_lt(s[i].0, s[j].0));
    } else if j < i {
        assert(idx_lt(s[j].0, s[i].0));
    }
}

pub proof fn lemma_entries_map_at<V>(s: Seq<(CanvasIndex, V)>, i: int)
    requires
        sorted_keys(s),
        0 <= i < s.len(),
    ensures
        entries_map(s).contains_key(s[i].0),
        entries_map(s)[s[i].0] == s[i].1,
{
    let k = s[i].0;
    assert(has_key(s, k));
    let j = choose|j: int| 0 <= j < s.len() && #[trigger] s[j].0 == k;
    lemma_sorted_unique(s, i, j);
}

pub proof fn lemma_entries_map_absent<V>(s: Seq<(CanvasIndex, V)>, k: CanvasIndex)
    requires
        forall|i: int| 0 <= i < s.len() ==> s[i].0 != k,
    ensures
        !entries_map(s).contains_key(k),
{
}

/// Inserting `(k, v)` at a position that keeps the order gives the map with `k` set to `v`.
pub proof fn lemma_entries_map_insert<V>(
    s: Seq<(CanvasIndex, V)>,
    pos: int,
    k: CanvasIndex,
    v: V,
)
    requires
        sorted_keys(s),
        0 <= pos <= s.len(),
        forall|j: int| 0 <= j < pos ==> idx_lt(#[trigger] s[j].0, k),
        forall|j: int| pos <= j < s.len() ==> idx_lt(k, #[trigger] s[j].0),
    ensures
        sorted_keys(s.insert(pos, (k, v))),
        entries_map(s.insert(pos, (k, v))) == entries_map(s).insert(k, v),
{
    let t = s.insert(pos, (k, v));
    assert forall|i: int, j: int| 0 <= i < j < t.len() implies idx_lt(
        #[trigger] t[i].0,
        #[trigger] t[j].0,
    ) by {
        if j < pos {
        } else if j == pos {
        } else if i < pos {
            assert(idx_lt(s[i].0, k));
            assert(idx_lt(k, s[j - 1].0));
        } else if i == pos {
        } else {
        }
    }
    let m1 = entries_map(t);
    let m2 = entries_map(s).insert(k, v);
    assert forall|x: CanvasIndex| m1.contains_key(x) <==> m2.contains_key(x) by {
        if m1.contains_key(x) {
            let i = choose|i: int| 0 <= i < t.len() && #[trigger] t[i].0 == x;
            if i < pos {
                assert(s[i].0 == x);
            } else if i > pos {
                assert(s[i - 1].0 == x);
            }
        }
        if m2.contains_key(x) && x != k {
            let i = choose|i: int| 0 <= i < s.len() && #[trigger] s[i].0 == x;
            if i < pos {
                assert(t[i].0 == x);
            } else {
                assert(t[i + 1].0 == x);
            }
        }
        if x == k {
            assert(t[pos].0 == k);
        }
    }
    assert forall|x: CanvasIndex| m1.contains_key(x) implies m1[x] == m2[x] by {
        let i = choose|i: int| 0 <= i < t.len() && #[trigger] t[i].0 == x;
        lemma_entries_map_at(t, i);
        if i < pos {
            lemma_entries_map_at(s, i);
        } else if i > pos {
            lemma_entries_map_at(s, i - 1);
        }
    }
    assert(m1 =~= m2);
}

/// Replacing the value at an existing key's position gives the map with that key updated.
pub proof fn lemma_entries_map_update<V>(
    s: Seq<(CanvasIndex, V)>,
    pos: int,
    v: V,
)
    requires
        sorted_keys(s),
        0 <= pos < s.len(),
    ensures
        sorted_keys(s.update(pos, (s[pos].0, v))),
        entries_map(s.update(pos, (s[pos].0, v))) == entries_map(s).insert(s[pos].0, v),
{
    let k = s[pos].0;
    let t = s.update(pos, (k, v));
    assert forall|i: int, j: int| 0 <= i < j < t.len() implies idx_lt(
        #[trigger] t[i].0,
        #[trigger] t[j].0,
    ) by {
        assert(t[i].0 == s[i].0);
        assert(t[j].0 == s[j].0);
    }
    let m1 = entries_map(t);
    let m2 = entries_map(s).insert(k, v);
    assert forall|x: CanvasIndex| m1.contains_key(x) <==> m2.contains_key(x) by {
        if m1.contains_key(x) {
            let i = choose|i: int| 0 <= i < t.len() && #[trigger] t[i].0 == x;
            assert(s[i].0 == x);
        }
        if m2.contains_key(x) && x != k {
            let i = choose|i: int| 0 <= i < s.len() && #[trigger] s[i].0 == x;
            assert(t[i].0 == x);
        }
        if x == k {
            assert(t[pos].0 == k);
        }
    }
    assert forall|x: CanvasIndex| m1.contains_key(x) implies m1[x] == m2[x] by {
        let i = choose|i: int| 0 <= i < t.len() && #[trigger] t[i].0 == x;
        lemma_entries_map_at(t, i);
        if i != pos {
            lemma_entries_map_at(s, i);
        }
    }
    assert(m1 =~= m2);
}

/// Where `k` is, or would be, in a sorted sequence of entries.
pub fn search<V>(cells: &Vec<(CanvasIndex, V)>, k: CanvasIndex) -> (r: (bool, usize))
    requires
        sorted_keys(cells@),
    ensures
        r.1 <= cells@.len(),
        r.0 ==> r.1 < cells@.len() && cells@[r.1 as int].0 == k,
        !r.0 ==> forall|j: int| 0 <= j < r.1 ==> idx_lt(#[trigger] cells@[j].0, k),
        !r.0 ==> forall|j: int| r.1 <= j < cells@.len() ==> idx_lt(k, #[trigger] cells@[j].0),
{
    let mut lo: usize = 0;
    let mut hi: usize = cells.len();
    while lo < hi
        invariant
            sorted_keys(cells@),
            0 <= lo <= hi <= cells@.len(),
            forall|j: int| 0 <= j < lo ==> idx_lt(#[trigger] cells@[j].0, k),
            forall|j: int| hi <= j < cells@.len() ==> idx_lt(k, #[trigger] cells@[j].0),
        decreases hi - lo,
    {
        let mid = lo + (hi - lo) / 2;
        let key = cells[mid].0;
        if key.0 == k.0 && key.1 == k.1 {
            return (true, mid);
        } else if index_less(key, k) {
            assert forall|j: int| 0 <= j < mid + 1 implies idx_lt(#[trigger] cells@[j].0, k) by {
                if j < mid {
                    assert(idx_lt(cells@[j].0, cells@[mid as int].0));
                }
            }
            lo = mid + 1;
        } else {
            assert forall|j: int| mid <= j < cells@.len() implies idx_lt(
                k,
                #[trigger] cells@[j].0,
            ) by {
                if j > mid {
                    assert(idx_lt(cells@[mid as int].0, cells@[j].0));
                }
            }
            hi = mid;
        }
    }
    (false, lo)
}

/// Removing the entry at `pos` gives the map without that entry's key.
pub proof fn lemma_entries_map_remove<V>(s: Seq<(CanvasIndex, V)>, pos: int)
    requires
        sorted_keys(s),
        0 <= pos < s.len(),
    ensures
        sorted_keys(s.remove(pos)),
        entries_map(s.remove(pos)) == entries_map(s).remove(s[pos].0),
{
    let k = s[pos].0;
    let t = s.remove(pos);
    assert forall|i: int, j: int| 0 <= i < j < t.len() implies idx_lt(
        #[trigger] t[i].0,
        #[trigger] t[j].0,
    ) by {
        let si = if i < pos { i } else { i + 1 };
        let sj = if j < pos { j } else { j + 1 };
        assert(t[i].0 == s[si].0);
        assert(t[j].0 == s[sj].0);
    }
    let m1 = entries_map(t);
    let m2 = entries_map(s).remove(k);
    assert forall|x: CanvasIndex| m1.contains_key(x) <==> m2.contains_key(x) by {
        if m1.contains_key(x) {
            let i = choose|i: int| 0 <= i < t.len() && #[trigger] t[i].0 == x;
            let si = if i < pos { i } else { i + 1 };
            assert(s[si].0 == x);
            if x == k {
                lemma_sorted_unique(s, si, pos);
            }
        }
        if m2.contains_key(x) {
            let i = choose|i: int| 0 <= i < s.len() && #[trigger] s[i].0 == x;
            if i < pos {
                assert(t[i].0 == x);
            } else {
                assert(i != pos);
                assert(t[i - 1].0 == x);
            }
        }
    }
    assert forall|x: CanvasIndex| m1.contains_key(x) implies m1[x] == m2[x] by {
        let i = choose|i: int| 0 <= i < t.len() && #[trigger] t[i].0 == x;
        lemma_entries_map_at(t, i);
        let si = if i < pos { i } else { i + 1 };
        assert(s[si] == t[i]);
        lemma_entries_map_at(s, si);
    }
    assert(m1 =~= m2);
}

/// The value stored at `k`, if any.
pub fn map_get<V: Copy>(entries: &Vec<(CanvasIndex, V)>, k: CanvasIndex) -> (r: Option<V>)
    requires
        sorted_keys(entries@),
    ensures
        r == (if entries_map(entries@).contains_key(k) {
            Some(entries_map(entries@)[k])
        } else {
            None::<V>
        }),
{
    let (found, pos) = search(entries, k);
    if found {
        proof {
            lemma_entries_map_at(entries@, pos as int);
        }
        Some(entries[pos].1)
    } else {
        proof {
            assert forall|i: int| 0 <= i < entries@.len() implies entries@[i].0 != k by {
                if i < pos {
                    assert(idx_lt(entries@[i].0, k));
                } else {
                    assert(idx_lt(k, entries@[i].0));
                }
            }
            lemma_entries_map_absent(entries@, k);
        }
        None
    }
}

/// Stores `v` at `k`, keeping the entries sorted.
pub fn map_set<V>(entries: &mut Vec<(CanvasIndex, V)>, k: CanvasIndex, v: V)
    requires
        sorted_keys(old(entries)@),
    ensures
        sorted_keys(final(entries)@),
        entries_map(final(entries)@) == entries_map(old(entries)@).insert(k, v),
{
    let (found, pos) = search(entries, k);
    if found {
        proof {
            lemma_entries_map_update(entries@, pos as int, v);
            lemma_entries_map_at(entries@, pos as int);
        }
        entries.set(pos, (k, v));
    } else {
        proof {
            lemma_entries_map_insert(entries@, pos as int, k, v);
            assert forall|i: int| 0 <= i < entries@.len() implies entries@[i].0 != k by {
                if i < pos {
                    assert(idx_lt(entries@[i].0, k));
                } else {
                    assert(idx_lt(k, entries@[i].0));
                }
            }
            lemma_entries_map_absent(entries@, k);
        }
        entries.insert(pos, (k, v));
    }
}

/// `map_set`, also saying how the number of entries changes.
pub fn map_insert<V>(entries: &mut Vec<(CanvasIndex, V)>, k: CanvasIndex, v: V)
    requires
        sorted_keys(old(entries)@),
    ensures
        sorted_keys(final(entries)@),
        entries_map(final(entries)@) == entries_map(old(entries)@).insert(k, v),
        final(entries)@.len() == old(entries)@.len() + (if entries_map(old(entries)@).contains_key(
            k,
        ) {
            0int
        } else {
            1int
        }),
{
    let (found, pos) = search(entries, k);
    if found {
        proof {
            lemma_entries_map_update(entries@, pos as int, v);
            lemma_entries_map_at(entries@, pos as int);
        }
        entries.set(pos, (k, v));
    } else {
        proof {
            lemma_entries_map_insert(entries@, pos as int, k, v);
            assert forall|i: int| 0 <= i < entries@.len() implies entries@[i].0 != k by {
                if i < pos {
                    assert(idx_lt(entries@[i].0, k));
                } else {
                    assert(idx_lt(k, entries@[i].0));
                }
            }
            lemma_entries_map_absent(entries@, k);
        }
        entries.insert(pos, (k, v));
    }
}

/// Removes the entry at `k`, handing back its value if there was one.
pub fn map_remove<V>(entries: &mut Vec<(CanvasIndex, V)>, k: CanvasIndex) -> (r: Option<V>)
    requires
        sorted_keys(old(entries)@),
    ensures
        sorted_keys(final(entries)@),
        entries_map(final(entries)@) == entries_map(old(entries)@).remove(k),
        r == (if entries_map(old(entries)@).contains_key(k) {
            Some(entries_map(old(entries)@)[k])
        } else {
            None::<V>
        }),
{
    let (found, pos) = search(entries, k);
    if found {
        proof {
            lemma_entries_map_remove(entries@, pos as int);
            lemma_entries_map_at(entries@, pos as int);
        }
        let (_, v) = entries.remove(pos);
        Some(v)
    } else {
        proof {
            assert forall|i: int| 0 <= i < entries@.len() implies entries@[i].0 != k by {
                if i < pos {
                    assert(idx_lt(entries@[i].0, k));
                } else {
                    assert(idx_lt(k, entries@[i].0));
                }
            }
            lemma_entries_map_absent(entries@, k);
            assert(entries_map(entries@).remove(k) =~= entries_map(entries@));
        }
        None
    }
}

/// The entries of `m` in row-major order of their indices.
pub open spec fn sorted_listing<V>(m: Map<CanvasIndex, V>) -> Seq<(CanvasIndex, V)> {
    choose|s: Seq<(CanvasIndex, V)>| sorted_keys(s) && entries_map(s) == m
}

/// The first entry of a sorted sequence has the smallest index of its map.
proof fn lemma_first_is_least<V>(s: Seq<(CanvasIndex, V)>, k: CanvasIndex)
    requires
        sorted_keys(s),
        s.len() > 0,
        entries_map(s).contains_key(k),
    ensures
        s[0].0 == k || idx_lt(s[0].0, k),
{
    let i = choose|i: int| 0 <= i < s.len() && #[trigger] s[i].0 == k;
    if i > 0 {
        assert(idx_lt(s[0].0, s[i].0));
    }
}

pub proof fn lemma_drop_first_map<V>(s: Seq<(CanvasIndex, V)>)
    requires
        sorted_keys(s),
        s.len() > 0,
    ensures
        sorted_keys(s.drop_first()),
        entries_map(s.drop_first()) == entries_map(s).remove(s[0].0),
{
    lemma_entries_map_remove(s, 0);
    assert(s.remove(0) =~= s.drop_first());
}

/// A map has one sorted listing.
pub proof fn lemma_sorted_listing_unique<V>(s: Seq<(CanvasIndex, V)>, t: Seq<(CanvasIndex, V)>)
    requires
        sorted_keys(s),
        sorted_keys(t),
        entries_map(s) == entries_map(t),
    ensures
        s == t,
    decreases s.len(),
{
    if s.len() == 0 {
        if t.len() > 0 {
            lemma_entries_map_at(t, 0);
        }
        assert(t =~= s);
    } else {
        lemma_entries_map_at(s, 0);
        assert(t.len() > 0);
        lemma_entries_map_at(t, 0);
        lemma_first_is_least(s, t[0].0);
        lemma_first_is_least(t, s[0].0);
        assert(s[0].0 == t[0].0);
        assert(s[0] == t[0]);
        lemma_drop_first_map(s);
        lemma_drop_first_map(t);
        lemma_sorted_listing_unique(s.drop_first(), t.drop_first());
        assert(s =~= seq![s[0]] + s.drop_first());
        assert(t =~= seq![t[0]] + t.drop_first());
    }
}

/// A sorted sequence is the sorted listing of its map.
pub proof fn lemma_sorted_listing<V>(s: Seq<(CanvasIndex, V)>)
    requires
        sorted_keys(s),
    ensures
        sorted_listing(entries_map(s)) == s,
{
    let t = sorted_listing(entries_map(s));
    assert(sorted_keys(s) && entries_map(s) == entries_map(s));
    lemma_sorted_listing_unique(s, t);
}


/// The positions of an index in a four-level tree of 16 by 16 arrays: the row and the column
/// taken as unsigned 16-bit numbers, divided down level by level. The upper two levels are
/// the quotient by 16 with its lowest bits flipped by `^ 3` and `^ 2`, taken modulo 16.
pub open spec fn spec_calculate_indices(index: CanvasIndex) -> ((int, int), (int, int), (int, int), (int, int)) {
    let row = index.0 as u16 as usize;
    let column = index.1 as u16 as usize;
    (
        ((((row / 16) ^ 3) % 16) as int, (((column / 16) ^ 3) % 16) as int),
        ((((row / 16) ^ 2) % 16) as int, (((column / 16) ^ 2) % 16) as int),
        (((row / 16) % 16) as int, ((column / 16) % 16) as int),
        ((row % 16) as int, (column % 16) as int),
    )
}

pub fn calculate_indices(index: CanvasIndex) -> (r: ((usize, usize), (usize, usize), (usize, usize), (usize, usize)))
    ensures
        (r.0.0 as int, r.0.1 as int) == spec_calculate_indices(index).0,
        (r.1.0 as int, r.1.1 as int) == spec_calculate_indices(index).1,
        (r.2.0 as int, r.2.1 as int) == spec_calculate_indices(index).2,
        (r.3.0 as int, r.3.1 as int) == spec_calculate_indices(index).3,
{
    let row = (index.0 as u16) as usize;
    let column = (index.1 as u16) as usize;
    (
        ((row / 16 ^ 3) % 16, (column / 16 ^ 3) % 16),
        ((row / 16 ^ 2) % 16, (column / 16 ^ 2) % 16),
        ((row / 16) % 16, (column / 16) % 16),
        (row % 16, column % 16),
    )
}

} // verus!
