use vstd::prelude::*;

use crate::keystroke::{Keystroke, KeystrokeSequence};
use crate::keystrokes::PresetSources;

verus! {

/// A tree of keystrokes: the presets that the keystrokes typed so far stand for, if any, and
/// where each next keystroke leads.
#[derive(Debug)]
pub struct Keymap<T> {
    pub current: Option<PresetSources<T>>,
    pub next: Vec<(Keystroke, Keymap<T>)>,
}

/// The position of the first entry for `key` from position `from` on.
pub open spec fn find_from<T>(next: Seq<(Keystroke, Keymap<T>)>, key: Keystroke, from: int) -> Option<int>
    decreases next.len() - from,
{
    if from < 0 || from >= next.len() {
        None
    } else if next[from].0 == key {
        Some(from)
    } else {
        find_from(next, key, from + 1)
    }
}

/// What the keystrokes `ks` lead to in `keymap`: the presets of the node they reach, following
/// the first entry for each keystroke; `None` where they lead nowhere or to a node without
/// presets.
pub open spec fn lookup<T>(keymap: Keymap<T>, ks: Seq<Keystroke>) -> Option<PresetSources<T>>
    decreases ks.len(),
{
    if ks.len() == 0 {
        keymap.current
    } else {
        match find_from(keymap.next@, ks[0], 0) {
            Some(i) => lookup(keymap.next@[i].1, ks.drop_first()),
            None => None,
        }
    }
}

pub(crate) proof fn lemma_find_from_bounds<T>(next: Seq<(Keystroke, Keymap<T>)>, key: Keystroke, from: int)
    ensures
        find_from(next, key, from) matches Some(i) ==> 0 <= from <= i < next.len() && next[i].0 == key,
    decreases next.len() - from,
{
    if 0 <= from < next.len() && next[from].0 != key {
        lemma_find_from_bounds(next, key, from + 1);
    }
}

/// Replacing the tree under an entry keeps where every keystroke is found.
proof fn lemma_find_from_update<T>(
    next: Seq<(Keystroke, Keymap<T>)>,
    i: int,
    child: Keymap<T>,
    key: Keystroke,
    from: int,
)
    requires
        0 <= i < next.len(),
    ensures
        find_from(next.update(i, (next[i].0, child)), key, from) == find_from(next, key, from),
    decreases next.len() - from,
{
    if 0 <= from < next.len() && next[from].0 != key {
        lemma_find_from_update(next, i, child, key, from + 1);
    }
}

/// An entry added at the end is found only where no earlier entry has its keystroke.
proof fn lemma_find_from_push<T>(
    next: Seq<(Keystroke, Keymap<T>)>,
    e: (Keystroke, Keymap<T>),
    key: Keystroke,
    from: int,
)
    requires
        0 <= from,
    ensures
        find_from(next.push(e), key, from) == (match find_from(next, key, from) {
            Some(j) => Some(j),
            None => if key == e.0 && from <= next.len() {
                Some(next.len() as int)
            } else {
                None
            },
        }),
    decreases next.len() - from,
{
    let pushed = next.push(e);
    if from < next.len() {
        assert(pushed[from] == next[from]);
        if next[from].0 != key {
            lemma_find_from_push(next, e, key, from + 1);
        }
    } else if from == next.len() {
        assert(pushed[from] == e);
        if e.0 != key {
            assert(find_from(pushed, key, from + 1) is None);
        }
    }
}

/// The keystrokes from `pos` on are one keystroke and the keystrokes after it.
proof fn lemma_skip_split(s: Seq<Keystroke>, pos: int, ks: Seq<Keystroke>)
    requires
        0 <= pos < s.len(),
    ensures
        (ks == s.skip(pos)) <==> (ks.len() > 0 && ks[0] == s[pos] && ks.drop_first() == s.skip(
            pos + 1,
        )),
{
    if ks.len() > 0 && ks[0] == s[pos] && ks.drop_first() == s.skip(pos + 1) {
        assert forall|j: int| 0 <= j < ks.len() implies ks[j] == s.skip(pos)[j] by {
            if j > 0 {
                assert(ks[j] == ks.drop_first()[j - 1]);
            }
        }
        assert(ks =~= s.skip(pos));
    }
    if ks == s.skip(pos) {
        assert(ks.drop_first() =~= s.skip(pos + 1));
    }
}

/// The first entry is found where no entry before it has its keystroke.
proof fn lemma_find_from_first<T>(next: Seq<(Keystroke, Keymap<T>)>, key: Keystroke, from: int, i: int)
    requires
        0 <= from <= i <= next.len(),
        forall|j: int| from <= j < i ==> next[j].0 != key,
        i < next.len() ==> next[i].0 == key,
    ensures
        find_from(next, key, from) == (if i < next.len() {
            Some(i)
        } else {
            None::<int>
        }),
    decreases i - from,
{
    if from < i {
        lemma_find_from_first(next, key, from + 1, i);
    }
}

impl<T> Keymap<T> {
    pub fn new() -> (k: Self)
        ensures
            k.current is None,
            k.next@.len() == 0,
            forall|ks: Seq<Keystroke>| #[trigger] lookup(k, ks) is None,
    {
        let k = Keymap { current: None, next: Vec::new() };
        assert forall|ks: Seq<Keystroke>| #[trigger] lookup(k, ks) is None by {
            if ks.len() > 0 {
                assert(find_from(k.next@, ks[0], 0) is None);
            }
        }
        k
    }
}

/// The position of the first entry for `key`.
pub(crate) fn find_child<T>(next: &Vec<(Keystroke, Keymap<T>)>, key: Keystroke) -> (r: Option<usize>)
    ensures
        r matches Some(i) ==> find_from(next@, key, 0) == Some(i as int),
        r is None ==> find_from(next@, key, 0) is None,
{
    let mut i: usize = 0;
    while i < next.len()
        invariant
            0 <= i <= next@.len(),
            forall|j: int| 0 <= j < i ==> next@[j].0 != key,
        decreases next@.len() - i,
    {
        if next[i].0 == key {
            proof {
                lemma_find_from_first(next@, key, 0, i as int);
            }
            return Some(i);
        }
        i += 1;
    }
    proof {
        lemma_find_from_first(next@, key, 0, next@.len() as int);
    }
    None
}

/// Enters `value` for the keystrokes from position `pos` on, unless they already have presets:
/// an existing entry is never overwritten.
pub fn keymap_insert_preserve<T>(
    entry: &mut Keymap<T>,
    keystrokes: &Vec<Keystroke>,
    pos: usize,
    value: PresetSources<T>,
)
    requires
        pos <= keystrokes@.len(),
    ensures
        forall|ks: Seq<Keystroke>| #[trigger]
            lookup(*final(entry), ks) == (if ks == keystrokes@.skip(pos as int) && lookup(
                *old(entry),
                ks,
            ) is None {
                Some(value)
            } else {
                lookup(*old(entry), ks)
            }),
    decreases keystrokes@.len() - pos,
{
    let ghost old_entry = *entry;
    if pos == keystrokes.len() {
        if entry.current.is_none() {
            entry.current = Some(value);
        }
        assert forall|ks: Seq<Keystroke>| #[trigger]
            lookup(*entry, ks) == (if ks == keystrokes@.skip(pos as int) && lookup(old_entry, ks)
                is None {
                Some(value)
            } else {
                lookup(old_entry, ks)
            }) by {
            assert(keystrokes@.skip(pos as int) =~= Seq::<Keystroke>::empty());
            if ks.len() > 0 {
                assert(entry.next@ == old_entry.next@);
                assert(lookup(*entry, ks) == lookup(old_entry, ks));
                assert(ks != keystrokes@.skip(pos as int));
            } else {
                assert(ks =~= Seq::<Keystroke>::empty());
            }
        }
    } else {
        let key = keystrokes[pos];
        let rest = Ghost(keystrokes@.skip(pos as int + 1));
        match find_child(&entry.next, key) {
            Some(i) => {
                let ghost next0 = entry.next@;
                proof {
                    lemma_find_from_bounds(next0, key, 0);
                }
                let (k, mut child) = entry.next.remove(i);
                let ghost child0 = child;
                keymap_insert_preserve(&mut child, keystrokes, pos + 1, value);
                entry.next.insert(i, (k, child));
                proof {
                    assert(entry.next@ =~= next0.update(i as int, (key, child)));
                    assert forall|ks: Seq<Keystroke>| #[trigger]
                        lookup(*entry, ks) == (if ks == keystrokes@.skip(pos as int) && lookup(
                            old_entry,
                            ks,
                        ) is None {
                            Some(value)
                        } else {
                            lookup(old_entry, ks)
                        }) by {
                        if ks.len() > 0 {
                            let d = ks.drop_first();
                            lemma_find_from_update(next0, i as int, child, ks[0], 0);
                            lemma_find_from_bounds(next0, ks[0], 0);
                            lemma_skip_split(keystrokes@, pos as int, ks);
                            assert(next0[i as int].1 == child0);
                            if ks[0] == key {
                                assert(find_from(entry.next@, ks[0], 0) == Some(i as int));
                                assert(lookup(*entry, ks) == lookup(child, d));
                                assert(lookup(old_entry, ks) == lookup(child0, d));
                            } else {
                                assert(ks != keystrokes@.skip(pos as int));
                                match find_from(next0, ks[0], 0) {
                                    Some(j) => {
                                        assert(j != i);
                                        assert(entry.next@[j] == next0[j]);
                                        assert(lookup(*entry, ks) == lookup(next0[j].1, d));
                                    },
                                    None => {},
                                }
                            }
                        } else {
                            assert(ks != keystrokes@.skip(pos as int));
                        }
                    }
                }
            },
            None => {
                let ghost next0 = entry.next@;
                let mut child = Keymap::new();
                let ghost child0 = child;
                keymap_insert_preserve(&mut child, keystrokes, pos + 1, value);
                entry.next.push((key, child));
                proof {
                    assert forall|ks: Seq<Keystroke>| #[trigger]
                        lookup(*entry, ks) == (if ks == keystrokes@.skip(pos as int) && lookup(
                            old_entry,
                            ks,
                        ) is None {
                            Some(value)
                        } else {
                            lookup(old_entry, ks)
                        }) by {
                        if ks.len() > 0 {
                            let d = ks.drop_first();
                            lemma_find_from_push(next0, (key, child), ks[0], 0);
                            lemma_find_from_bounds(next0, ks[0], 0);
                            lemma_skip_split(keystrokes@, pos as int, ks);
                            if ks[0] == key {
                                assert(lookup(child0, d) is None);
                                assert(find_from(entry.next@, ks[0], 0) == Some(next0.len() as int));
                                assert(entry.next@[next0.len() as int] == (key, child));
                                assert(lookup(*entry, ks) == lookup(child, d));
                                assert(lookup(old_entry, ks) is None);
                            } else {
                                assert(ks != keystrokes@.skip(pos as int));
                            }
                        } else {
                            assert(ks != keystrokes@.skip(pos as int));
                        }
                    }
                }
            },
        }
    }
}

/// The presets of the first entry whose keystrokes are `ks`, if any.
pub open spec fn first_entry<T>(entries: Seq<(KeystrokeSequence, PresetSources<T>)>, ks: Seq<Keystroke>) -> Option<
    PresetSources<T>,
>
    decreases entries.len(),
{
    if entries.len() == 0 {
        None
    } else {
        match first_entry(entries.drop_last(), ks) {
            Some(v) => Some(v),
            None => if entries.last().0.0@ == ks {
                Some(entries.last().1)
            } else {
                None
            },
        }
    }
}

impl<T> Keymap<T> {
    /// The keymap of the entries: the keystrokes of each entry lead to its presets; where two
    /// entries have the same keystrokes, the first one is kept.
    pub fn from_entries(entries: Vec<(KeystrokeSequence, PresetSources<T>)>) -> (k: Self)
        ensures
            forall|ks: Seq<Keystroke>| #[trigger] lookup(k, ks) == first_entry(entries@, ks),
    {
        let ghost all = entries@;
        let mut entries = entries;
        let n = entries.len();
        let mut keymap = Keymap::new();
        let mut i: usize = 0;
        while entries.len() > 0
            invariant
                all.len() == n,
                entries@ == all.skip(i as int),
                0 <= i <= all.len(),
                forall|ks: Seq<Keystroke>| #[trigger] lookup(keymap, ks) == first_entry(all.take(i as int), ks),
            decreases entries@.len(),
        {
            let (keystrokes, value) = entries.remove(0);
            proof {
                assert(all[i as int] == (keystrokes, value));
            }
            let ghost before = keymap;
            keymap_insert_preserve(&mut keymap, &keystrokes.0, 0, value);
            proof {
                assert(keystrokes.0@.skip(0) =~= keystrokes.0@);
                let t = all.take(i as int + 1);
                assert(t.drop_last() =~= all.take(i as int));
                assert(t.last() == (keystrokes, value));
                assert forall|ks: Seq<Keystroke>| #[trigger] lookup(keymap, ks) == first_entry(t, ks) by {
                    assert(lookup(before, ks) == first_entry(all.take(i as int), ks));
                }
                assert(entries@ =~= all.skip(i as int + 1));
            }
            i += 1;
        }
        proof {
            assert(all.take(i as int) =~= all);
        }
        keymap
    }
}

} // verus!
