use vstd::prelude::*;

verus! {

/// What a list of entries holds once each string is read as its characters.
pub open spec fn pairs_of(s: Seq<(String, String)>) -> Seq<(Seq<char>, Seq<char>)> {
    s.map_values(|e: (String, String)| (e.0@, e.1@))
}

/// No key occurs twice among the pairs.
pub open spec fn unique_keys(p: Seq<(Seq<char>, Seq<char>)>) -> bool {
    forall|i: int, j: int| 0 <= i < j < p.len() ==> p[i].0 != p[j].0
}

/// Some pair has key `k`.
pub open spec fn has_key(p: Seq<(Seq<char>, Seq<char>)>, k: Seq<char>) -> bool {
    exists|i: int| 0 <= i < p.len() && p[i].0 == k
}

/// The mapping that a list of pairs with unique keys describes.
pub open spec fn to_map(p: Seq<(Seq<char>, Seq<char>)>) -> Map<Seq<char>, Seq<char>> {
    Map::new(
        |k: Seq<char>| has_key(p, k),
        |k: Seq<char>| p[choose|i: int| 0 <= i < p.len() && p[i].0 == k].1,
    )
}

/// Each pair of a list with unique keys is found in its mapping, and the
/// mapping holds no other key.
proof fn lemma_to_map(p: Seq<(Seq<char>, Seq<char>)>)
    requires
        unique_keys(p),
    ensures
        forall|i: int|
            0 <= i < p.len() ==> #[trigger] to_map(p).contains_key(p[i].0) && to_map(p)[p[i].0]
                == p[i].1,
        forall|k: Seq<char>| #[trigger] to_map(p).contains_key(k) <==> has_key(p, k),
{
    assert forall|i: int| 0 <= i < p.len() implies #[trigger] to_map(p).contains_key(p[i].0)
        && to_map(p)[p[i].0] == p[i].1 by {
        let k = p[i].0;
        assert(has_key(p, k));
        let j = choose|j: int| 0 <= j < p.len() && p[j].0 == k;
        if j < i {
            assert(p[j].0 != p[i].0);
        } else if i < j {
            assert(p[i].0 != p[j].0);
        }
    }
}

/// A mapping from string keys to string values, kept as a list of entries
/// whose keys are all distinct.
#[derive(Debug)]
pub struct Table {
    entries: Vec<(String, String)>,
}

impl View for Table {
    type V = Map<Seq<char>, Seq<char>>;

    closed spec fn view(&self) -> Map<Seq<char>, Seq<char>> {
        to_map(pairs_of(self.entries@))
    }
}

impl Table {
    /// The entries' keys are distinct.
    pub closed spec fn wf(&self) -> bool {
        unique_keys(pairs_of(self.entries@))
    }

    /// An empty table.
    pub fn new() -> (t: Table)
        ensures
            t.wf(),
            t@ == Map::<Seq<char>, Seq<char>>::empty(),
    {
        let t = Table { entries: Vec::new() };
        assert(t@ =~= Map::<Seq<char>, Seq<char>>::empty());
        t
    }

    /// The position of the entry with key `key`, if there is one.
    fn find(&self, key: &String) -> (r: Option<usize>)
        requires
            self.wf(),
        ensures
            match r {
                Some(i) => i < self.entries@.len() && self.entries@[i as int].0@ == key@,
                None => !has_key(pairs_of(self.entries@), key@),
            },
    {
        let n = self.entries.len();
        let mut i: usize = 0;
        while i < n
            invariant
                n == self.entries@.len(),
                i <= n,
                forall|j: int| 0 <= j < i ==> self.entries@[j].0@ != key@,
            decreases n - i,
        {
            if self.entries[i].0 == *key {
                return Some(i);
            }
            i = i + 1;
        }
        proof {
            let p = pairs_of(self.entries@);
            assert forall|j: int| 0 <= j < p.len() implies p[j].0 != key@ by {
                assert(p[j].0 == self.entries@[j].0@);
            }
        }
        None
    }

    /// The value stored under `key`, if any.
    pub fn get(&self, key: &String) -> (r: Option<&String>)
        requires
            self.wf(),
        ensures
            match r {
                Some(v) => self@.contains_key(key@) && v@ == self@[key@],
                None => !self@.contains_key(key@),
            },
    {
        proof {
            lemma_to_map(pairs_of(self.entries@));
        }
        match self.find(key) {
            Some(i) => {
                proof {
                    assert(pairs_of(self.entries@)[i as int].0 == key@);
                }
                Some(&self.entries[i].1)
            },
            None => None,
        }
    }

    /// Stores `value` under `key`, replacing any earlier value.
    pub fn insert(&mut self, key: String, value: String)
        requires
            old(self).wf(),
        ensures
            final(self).wf(),
            final(self)@ == old(self)@.insert(key@, value@),
    {
        let ghost p0 = pairs_of(self.entries@);
        proof {
            lemma_to_map(p0);
        }
        match self.find(&key) {
            Some(i) => {
                let ghost k = key@;
                let ghost v = value@;
                self.entries.set(i, (key, value));
                let ghost p1 = pairs_of(self.entries@);
                assert(p1 =~= p0.update(i as int, (k, v)));
                assert(unique_keys(p1)) by {
                    assert forall|a: int, b: int| 0 <= a < b < p1.len() implies p1[a].0
                        != p1[b].0 by {
                        assert(p0[a].0 != p0[b].0);
                        assert(p0[i as int].0 == k);
                    }
                }
                proof {
                    lemma_to_map(p1);
                    assert forall|q: Seq<char>| has_key(p1, q) <==> has_key(p0, q) by {
                        if has_key(p1, q) {
                            let j = choose|j: int| 0 <= j < p1.len() && p1[j].0 == q;
                            assert(p0[j].0 == q);
                        }
                        if has_key(p0, q) {
                            let j = choose|j: int| 0 <= j < p0.len() && p0[j].0 == q;
                            assert(p1[j].0 == q);
                        }
                    }
                    assert(to_map(p1) =~= to_map(p0).insert(k, v)) by {
                        assert(p1[i as int].0 == k);
                        assert forall|q: Seq<char>| #[trigger]
                            to_map(p1).contains_key(q) && q != k implies to_map(p1)[q] == to_map(
                            p0,
                        )[q] by {
                            let j = choose|j: int| 0 <= j < p1.len() && p1[j].0 == q;
                            assert(p1[j] == p0[j]);
                        }
                    }
                }
            },
            None => {
                let ghost k = key@;
                let ghost v = value@;
                self.entries.push((key, value));
                let ghost p1 = pairs_of(self.entries@);
                assert(p1 =~= p0.push((k, v)));
                assert(unique_keys(p1)) by {
                    assert forall|a: int, b: int| 0 <= a < b < p1.len() implies p1[a].0
                        != p1[b].0 by {
                        if b < p0.len() {
                            assert(p0[a].0 != p0[b].0);
                        } else {
                            assert(p1[a] == p0[a]);
                        }
                    }
                }
                proof {
                    lemma_to_map(p1);
                    assert(to_map(p1) =~= to_map(p0).insert(k, v)) by {
                        assert(p1[p0.len() as int].0 == k);
                        assert forall|q: Seq<char>|
                            #[trigger] to_map(p1).contains_key(q) <==> to_map(p0).insert(
                                k,
                                v,
                            ).contains_key(q) by {
                            if has_key(p0, q) {
                                let j = choose|j: int| 0 <= j < p0.len() && p0[j].0 == q;
                                assert(p1[j].0 == q);
                            }
                            if has_key(p1, q) && q != k {
                                let j = choose|j: int| 0 <= j < p1.len() && p1[j].0 == q;
                                assert(p0[j].0 == q);
                            }
                        }
                        assert forall|q: Seq<char>| #[trigger]
                            to_map(p1).contains_key(q) && q != k implies to_map(p1)[q] == to_map(
                            p0,
                        )[q] by {
                            let j = choose|j: int| 0 <= j < p1.len() && p1[j].0 == q;
                            assert(p1[j] == p0[j]);
                        }
                    }
                }
            },
        }
    }

    /// Drops the entry with key `key`; nothing changes when there is none.
    pub fn remove(&mut self, key: &String)
        requires
            old(self).wf(),
        ensures
            final(self).wf(),
            final(self)@ == old(self)@.remove(key@),
    {
        let ghost p0 = pairs_of(self.entries@);
        proof {
            lemma_to_map(p0);
        }
        match self.find(key) {
            Some(i) => {
                self.entries.remove(i);
                let ghost p1 = pairs_of(self.entries@);
                let ghost k = key@;
                assert(p1 =~= p0.remove(i as int));
                assert(p0[i as int].0 == k);
                assert(unique_keys(p1)) by {
                    assert forall|a: int, b: int| 0 <= a < b < p1.len() implies p1[a].0
                        != p1[b].0 by {
                        if b < i {
                            assert(p0[a].0 != p0[b].0);
                        } else if a < i {
                            assert(p0[a].0 != p0[b + 1].0);
                        } else {
                            assert(p0[a + 1].0 != p0[b + 1].0);
                        }
                    }
                }
                proof {
                    lemma_to_map(p1);
                    assert(to_map(p1) =~= to_map(p0).remove(k)) by {
                        assert forall|q: Seq<char>|
                            #[trigger] to_map(p1).contains_key(q) <==> to_map(p0).remove(
                                k,
                            ).contains_key(q) by {
                            if has_key(p0, q) && q != k {
                                let j = choose|j: int| 0 <= j < p0.len() && p0[j].0 == q;
                                if j < i {
                                    assert(p1[j].0 == q);
                                } else {
                                    assert(j != i);
                                    assert(p1[j - 1].0 == q);
                                }
                            }
                            if has_key(p1, q) {
                                let j = choose|j: int| 0 <= j < p1.len() && p1[j].0 == q;
                                if j < i {
                                    assert(p0[j].0 == q);
                                    assert(p0[i as int].0 != p0[j].0);
                                } else {
                                    assert(p0[j + 1].0 == q);
                                    assert(p0[i as int].0 != p0[j + 1].0);
                                }
                            }
                        }
                        assert forall|q: Seq<char>| #[trigger]
                            to_map(p1).contains_key(q) implies to_map(p1)[q] == to_map(p0)[q] by {
                            let j = choose|j: int| 0 <= j < p1.len() && p1[j].0 == q;
                            if j < i {
                                assert(p1[j] == p0[j]);
                            } else {
                                assert(p1[j] == p0[j + 1]);
                            }
                        }
                    }
                }
            },
            None => {
                assert(to_map(p0) =~= to_map(p0).remove(key@));
            },
        }
    }

    /// The number of keys held.
    pub fn len(&self) -> (r: usize)
        requires
            self.wf(),
        ensures
            r == self@.len(),
    {
        proof {
            let p = pairs_of(self.entries@);
            let ks = p.map_values(|e: (Seq<char>, Seq<char>)| e.0);
            assert(ks.no_duplicates()) by {
                assert forall|a: int, b: int| 0 <= a < ks.len() && 0 <= b < ks.len() && a != b
                    implies ks[a] != ks[b] by {
                    if a < b {
                        assert(p[a].0 != p[b].0);
                    } else {
                        assert(p[b].0 != p[a].0);
                    }
                }
            }
            ks.unique_seq_to_set();
            assert(self@.dom() =~= ks.to_set()) by {
                assert forall|q: Seq<char>| has_key(p, q) implies ks.contains(q) by {
                    let j = choose|j: int| 0 <= j < p.len() && p[j].0 == q;
                    assert(ks[j] == q);
                }
                assert forall|q: Seq<char>| ks.contains(q) implies has_key(p, q) by {
                    let j = choose|j: int| 0 <= j < ks.len() && ks[j] == q;
                    assert(p[j].0 == q);
                }
            }
        }
        self.entries.len()
    }

    /// An independent copy holding the same mapping.
    pub fn copy(&self) -> (r: Table)
        requires
            self.wf(),
        ensures
            r.wf(),
            r@ == self@,
    {
        let n = self.entries.len();
        let mut out: Vec<(String, String)> = Vec::new();
        let mut i: usize = 0;
        while i < n
            invariant
                n == self.entries@.len(),
                i <= n,
                out@.len() == i,
                forall|j: int|
                    0 <= j < i ==> out@[j].0@ == self.entries@[j].0@ && out@[j].1@
                        == self.entries@[j].1@,
            decreases n - i,
        {
            let k = self.entries[i].0.clone();
            let v = self.entries[i].1.clone();
            out.push((k, v));
            i = i + 1;
        }
        let r = Table { entries: out };
        assert(pairs_of(r.entries@) =~= pairs_of(self.entries@));
        r
    }
}

} // verus!
