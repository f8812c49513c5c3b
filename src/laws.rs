//! Laws that relate the store's operations, stated over the mappings and
//! histories that the operations' contracts speak of.

use vstd::prelude::*;

use crate::element::{lookup, pruned, rolled_back};

verus! {

/// After `insert(k, v)` turns the current mapping `m` into `m.insert(k, v)`,
/// `get(k)` returns `v`.
pub proof fn law_get_after_insert(m: Map<Seq<char>, Seq<char>>, k: Seq<char>, v: Seq<char>)
    ensures
        lookup(m.insert(k, v), k) == Some(v),
{
}

/// After `remove(k)` turns the current mapping `m` into `m.remove(k)`,
/// `get(k)` returns nothing, whether or not `k` was present before.
pub proof fn law_get_after_remove(m: Map<Seq<char>, Seq<char>>, k: Seq<char>)
    ensures
        lookup(m.remove(k), k) == None::<Seq<char>>,
{
}

/// A checkpoint followed at once by a rollback to the newest snapshot leaves
/// the current mapping as it was before the checkpoint.
pub proof fn law_rollback_after_checkpoint(
    current: Map<Seq<char>, Seq<char>>,
    history: Seq<Map<Seq<char>, Seq<char>>>,
)
    ensures
        rolled_back(current, history.push(current), history.push(current).len() as int)
            == current,
{
}

/// A checkpoint adds one snapshot to the history and keeps the earlier ones
/// where they were.
pub proof fn law_checkpoint_appends(
    current: Map<Seq<char>, Seq<char>>,
    history: Seq<Map<Seq<char>, Seq<char>>>,
)
    ensures
        history.push(current).len() == history.len() + 1,
        history.push(current).subrange(0, history.len() as int) == history,
{
    assert(history.push(current).subrange(0, history.len() as int) =~= history);
}

/// A prune leaves `min(1, n)` snapshots out of `n`; when there was one, a
/// rollback to the single remaining snapshot restores the newest snapshot
/// taken before the prune.
pub proof fn law_prune_keeps_newest(
    current: Map<Seq<char>, Seq<char>>,
    history: Seq<Map<Seq<char>, Seq<char>>>,
)
    ensures
        pruned(history).len() == if history.len() == 0 {
            0
        } else {
            1int
        },
        history.len() > 0 ==> rolled_back(current, pruned(history), 1) == history.last(),
{
}

/// A rollback to version 0, to a negative version or to one past the newest
/// snapshot leaves the current mapping unchanged.
pub proof fn law_rollback_out_of_range(
    current: Map<Seq<char>, Seq<char>>,
    history: Seq<Map<Seq<char>, Seq<char>>>,
    version: int,
)
    requires
        version < 1 || version > history.len(),
    ensures
        rolled_back(current, history, version) == current,
{
}

} // verus!
