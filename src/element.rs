use vstd::prelude::*;

use crate::table::Table;

verus! {

/// The value stored under `k` in `m`, or `None` when `k` is absent.
pub open spec fn lookup(m: Map<Seq<char>, Seq<char>>, k: Seq<char>) -> Option<Seq<char>> {
    if m.contains_key(k) {
        Some(m[k])
    } else {
        None
    }
}

/// The characters of a value handed out by `get`.
pub open spec fn value_of(r: Option<&String>) -> Option<Seq<char>> {
    match r {
        Some(v) => Some(v@),
        None => None,
    }
}

/// The current mapping after a rollback to the 1-based `version`: that
/// snapshot when it exists, else the current mapping unchanged.
pub open spec fn rolled_back(
    current: Map<Seq<char>, Seq<char>>,
    history: Seq<Map<Seq<char>, Seq<char>>>,
    version: int,
) -> Map<Seq<char>, Seq<char>> {
    if 1 <= version <= history.len() {
        history[version - 1]
    } else {
        current
    }
}

/// The history after a prune: the newest snapshot alone, or nothing when
/// there was none.
pub open spec fn pruned(history: Seq<Map<Seq<char>, Seq<char>>>) -> Seq<
    Map<Seq<char>, Seq<char>>,
> {
    if history.len() == 0 {
        history
    } else {
        seq![history.last()]
    }
}

/// A key-value store over strings with a history of checkpoints: each
/// checkpoint is an independent copy of the mapping at the time it was taken.
#[derive(Debug)]
pub struct Element {
    elem: Table,
    vec: Vec<Table>,
}

impl Element {
    /// The current mapping and every snapshot have distinct keys.
    pub closed spec fn wf(&self) -> bool {
        &&& self.elem.wf()
        &&& forall|i: int| 0 <= i < self.vec@.len() ==> (#[trigger] self.vec@[i]).wf()
    }

    /// The mapping that reads and writes act on.
    pub closed spec fn current(&self) -> Map<Seq<char>, Seq<char>> {
        self.elem@
    }

    /// The snapshots taken so far, oldest first.
    pub closed spec fn history(&self) -> Seq<Map<Seq<char>, Seq<char>>> {
        self.vec@.map_values(|t: Table| t@)
    }

    /// An empty store with no snapshots.
    pub fn new() -> (e: Element)
        ensures
            e.wf(),
            e.current() == Map::<Seq<char>, Seq<char>>::empty(),
            e.history() == Seq::<Map<Seq<char>, Seq<char>>>::empty(),
    {
        let e = Element { elem: Table::new(), vec: Vec::new() };
        assert(e.history() =~= Seq::<Map<Seq<char>, Seq<char>>>::empty());
        e
    }

    /// Stores `value` under `key` in the current mapping, replacing any
    /// earlier value.
    pub fn insert(&mut self, key: String, value: String)
        requires
            old(self).wf(),
        ensures
            final(self).wf(),
            final(self).current() == old(self).current().insert(key@, value@),
            final(self).history() == old(self).history(),
    {
        self.elem.insert(key, value);
    }

    /// Drops `key` from the current mapping; nothing changes when it is absent.
    pub fn remove(&mut self, key: String)
        requires
            old(self).wf(),
        ensures
            final(self).wf(),
            final(self).current() == old(self).current().remove(key@),
            final(self).history() == old(self).history(),
    {
        self.elem.remove(&key);
    }

    /// The value stored under `key` in the current mapping, if any.
    pub fn get(&self, key: String) -> (r: Option<&String>)
        requires
            self.wf(),
        ensures
            value_of(r) == lookup(self.current(), key@),
    {
        self.elem.get(&key)
    }

    /// The number of keys in the current mapping.
    pub fn len(&self) -> (r: usize)
        requires
            self.wf(),
        ensures
            r == self.current().len(),
    {
        self.elem.len()
    }

    /// The number of snapshots kept.
    pub fn vec_len(&self) -> (r: usize)
        ensures
            r == self.history().len(),
    {
        self.vec.len()
    }

    /// Appends a copy of the current mapping to the history.
    pub fn checkpoint(&mut self)
        requires
            old(self).wf(),
        ensures
            final(self).wf(),
            final(self).current() == old(self).current(),
            final(self).history() == old(self).history().push(old(self).current()),
    {
        let snapshot = self.elem.copy();
        self.vec.push(snapshot);
        assert(self.history() =~= old(self).history().push(old(self).current()));
    }

    /// Replaces the current mapping by a copy of the snapshot at the 1-based
    /// position `version`; nothing changes when there is no such snapshot.
    pub fn rollback(&mut self, version: usize)
        requires
            old(self).wf(),
        ensures
            final(self).wf(),
            final(self).current() == rolled_back(
                old(self).current(),
                old(self).history(),
                version as int,
            ),
            final(self).history() == old(self).history(),
    {
        if version >= 1 && version <= self.vec.len() {
            let restored = self.vec[version - 1].copy();
            self.elem = restored;
        }
    }

    /// Keeps only the newest snapshot; nothing changes when there is none.
    pub fn prune(&mut self)
        requires
            old(self).wf(),
        ensures
            final(self).wf(),
            final(self).current() == old(self).current(),
            final(self).history() == pruned(old(self).history()),
    {
        match self.vec.pop() {
            Some(newest) => {
                self.vec.clear();
                self.vec.push(newest);
                assert(self.history() =~= pruned(old(self).history()));
            },
            None => {},
        }
    }
}

} // verus!
