use vstd::prelude::*;

verus! {

/// Values kept under single-character slot names (marks, yanks, color slots, selections).
#[derive(Debug)]
pub struct SlotMap<V> {
    pub entries: Vec<(char, V)>,
}

/// No slot name occurs twice.
pub open spec fn slots_unique<V>(s: Seq<(char, V)>) -> bool {
    forall|i: int, j: int| 0 <= i < j < s.len() ==> #[trigger] s[i].0 != #[trigger] s[j].0
}

pub open spec fn has_slot<V>(s: Seq<(char, V)>, c: char) -> bool {
    exists|i: int| 0 <= i < s.len() && #[trigger] s[i].0 == c
}

/// The values by slot name.
pub open spec fn slots_map<V>(s: Seq<(char, V)>) -> Map<char, V> {
    Map::new(
        |c: char| has_slot(s, c),
        |c: char| s[choose|i: int| 0 <= i < s.len() && #[trigger] s[i].0 == c].1,
    )
}

proof fn lemma_slot_at<V>(s: Seq<(char, V)>, i: int)
    requires
        slots_unique(s),
        0 <= i < s.len(),
    ensures
        slots_map(s).contains_key(s[i].0),
        slots_map(s)[s[i].0] == s[i].1,
{
    let c = s[i].0;
    assert(has_slot(s, c));
    let j = choose|j: int| 0 <= j < s.len() && #[trigger] s[j].0 == c;
    if j != i {
        if i < j {
            assert(s[i].0 != s[j].0);
        } else {
            assert(s[j].0 != s[i].0);
        }
    }
}

impl<V> SlotMap<V> {
    pub open spec fn wf(&self) -> bool {
        slots_unique(self.entries@)
    }

    pub open spec fn view_map(&self) -> Map<char, V> {
        slots_map(self.entries@)
    }

    pub fn new() -> (m: Self)
        ensures
            m.wf(),
            m.view_map() == Map::<char, V>::empty(),
    {
        let m = SlotMap { entries: Vec::new() };
        assert(m.view_map() =~= Map::<char, V>::empty());
        m
    }

    /// Where slot `c` is stored, if it is.
    fn position(&self, c: char) -> (r: Option<usize>)
        requires
            self.wf(),
        ensures
            match r {
                Some(i) => i < self.entries@.len() && self.entries@[i as int].0 == c,
                None => !has_slot(self.entries@, c),
            },
    {
        let mut i: usize = 0;
        while i < self.entries.len()
            invariant
                0 <= i <= self.entries@.len(),
                forall|j: int| 0 <= j < i ==> #[trigger] self.entries@[j].0 != c,
            decreases self.entries@.len() - i,
        {
            if self.entries[i].0 == c {
                return Some(i);
            }
            i += 1;
        }
        None
    }

    pub fn get(&self, c: char) -> (r: Option<&V>)
        requires
            self.wf(),
        ensures
            match r {
                Some(v) => self.view_map().contains_key(c) && *v == self.view_map()[c],
                None => !self.view_map().contains_key(c),
            },
    {
        match self.position(c) {
            Some(i) => {
                proof {
                    lemma_slot_at(self.entries@, i as int);
                }
                Some(&self.entries[i].1)
            },
            None => None,
        }
    }

    pub fn contains_key(&self, c: char) -> (b: bool)
        requires
            self.wf(),
        ensures
            b == self.view_map().contains_key(c),
    {
        self.position(c).is_some()
    }

    /// Stores `v` in slot `c`, replacing what was there.
    pub fn insert(&mut self, c: char, v: V)
        requires
            old(self).wf(),
        ensures
            final(self).wf(),
            final(self).view_map() == old(self).view_map().insert(c, v),
    {
        let ghost s0 = self.entries@;
        match self.position(c) {
            Some(i) => {
                self.entries.set(i, (c, v));
                proof {
                    let s = self.entries@;
                    assert forall|a: int, b: int| 0 <= a < b < s.len() implies #[trigger] s[a].0
                        != #[trigger] s[b].0 by {
                        assert(s[a].0 == s0[a].0);
                        assert(s[b].0 == s0[b].0);
                    }
                    assert forall|x: char| #[trigger] slots_map(s).contains_key(x)
                        == slots_map(s0).insert(c, v).contains_key(x) by {
                        if has_slot(s, x) {
                            let j = choose|j: int| 0 <= j < s.len() && #[trigger] s[j].0 == x;
                            assert(s0[j].0 == x);
                        }
                        if has_slot(s0, x) {
                            let j = choose|j: int| 0 <= j < s0.len() && #[trigger] s0[j].0 == x;
                            assert(s[j].0 == x);
                        }
                        if x == c {
                            assert(s[i as int].0 == c);
                        }
                    }
                    assert forall|x: char| #[trigger] slots_map(s).contains_key(x) implies slots_map(
                        s,
                    )[x] == slots_map(s0).insert(c, v)[x] by {
                        let j = choose|j: int| 0 <= j < s.len() && #[trigger] s[j].0 == x;
                        lemma_slot_at(s, j);
                        if j != i {
                            assert(s[j] == s0[j]);
                            lemma_slot_at(s0, j);
                        }
                    }
                    assert(slots_map(s) =~= slots_map(s0).insert(c, v));
                }
            },
            None => {
                self.entries.push((c, v));
                proof {
                    let s = self.entries@;
                    assert forall|a: int, b: int| 0 <= a < b < s.len() implies #[trigger] s[a].0
                        != #[trigger] s[b].0 by {
                        if b < s0.len() {
                            assert(s[a].0 == s0[a].0);
                            assert(s[b].0 == s0[b].0);
                        } else {
                            assert(s[a].0 == s0[a].0);
                        }
                    }
                    assert forall|x: char| #[trigger] slots_map(s).contains_key(x)
                        == slots_map(s0).insert(c, v).contains_key(x) by {
                        if has_slot(s, x) {
                            let j = choose|j: int| 0 <= j < s.len() && #[trigger] s[j].0 == x;
                            if j < s0.len() {
                                assert(s0[j].0 == x);
                            }
                        }
                        if has_slot(s0, x) {
                            let j = choose|j: int| 0 <= j < s0.len() && #[trigger] s0[j].0 == x;
                            assert(s[j].0 == x);
                        }
                        if x == c {
                            assert(s[s0.len() as int].0 == c);
                        }
                    }
                    assert forall|x: char| #[trigger] slots_map(s).contains_key(x) implies slots_map(
                        s,
                    )[x] == slots_map(s0).insert(c, v)[x] by {
                        let j = choose|j: int| 0 <= j < s.len() && #[trigger] s[j].0 == x;
                        lemma_slot_at(s, j);
                        if j < s0.len() {
                            assert(s[j] == s0[j]);
                            lemma_slot_at(s0, j);
                        }
                    }
                    assert(slots_map(s) =~= slots_map(s0).insert(c, v));
                }
            },
        }
    }
    /// Takes the value out of slot `c`, if there is one.
    pub fn remove(&mut self, c: char) -> (r: Option<V>)
        requires
            old(self).wf(),
        ensures
            final(self).wf(),
            final(self).view_map() == old(self).view_map().remove(c),
            match r {
                Some(v) => old(self).view_map().contains_key(c) && v == old(self).view_map()[c],
                None => !old(self).view_map().contains_key(c),
            },
    {
        let ghost s0 = self.entries@;
        match self.position(c) {
            Some(i) => {
                proof {
                    lemma_slot_at(s0, i as int);
                }
                let (_, v) = self.entries.remove(i);
                proof {
                    let s = self.entries@;
                    assert forall|a: int, b: int| 0 <= a < b < s.len() implies #[trigger] s[a].0
                        != #[trigger] s[b].0 by {
                        let sa = if a < i { a } else { a + 1 };
                        let sb = if b < i { b } else { b + 1 };
                        assert(s[a] == s0[sa]);
                        assert(s[b] == s0[sb]);
                    }
                    assert forall|x: char| #[trigger] slots_map(s).contains_key(x)
                        == slots_map(s0).remove(c).contains_key(x) by {
                        if has_slot(s, x) {
                            let j = choose|j: int| 0 <= j < s.len() && #[trigger] s[j].0 == x;
                            let sj = if j < i { j } else { j + 1 };
                            assert(s0[sj].0 == x);
                            assert(sj != i);
                        }
                        if has_slot(s0, x) && x != c {
                            let j = choose|j: int| 0 <= j < s0.len() && #[trigger] s0[j].0 == x;
                            assert(j != i);
                            if j < i {
                                assert(s[j].0 == x);
                            } else {
                                assert(s[j - 1].0 == x);
                            }
                        }
                    }
                    assert forall|x: char| #[trigger] slots_map(s).contains_key(x) implies slots_map(
                        s,
                    )[x] == slots_map(s0).remove(c)[x] by {
                        let j = choose|j: int| 0 <= j < s.len() && #[trigger] s[j].0 == x;
                        lemma_slot_at(s, j);
                        let sj = if j < i { j } else { j + 1 };
                        assert(s[j] == s0[sj]);
                        lemma_slot_at(s0, sj);
                    }
                    assert(slots_map(s) =~= slots_map(s0).remove(c));
                }
                Some(v)
            },
            None => {
                proof {
                    assert(slots_map(s0).remove(c) =~= slots_map(s0));
                }
                None
            },
        }
    }
}

} // verus!
