//! The ordered task table, kept in an `indexmap::IndexMap` so that tasks are
//! listed in the order they were first defined.
use vstd::prelude::*;
use indexmap::IndexMap;
use crate::taskdef::{TaskDef, TaskDefView};

verus! {

#[verifier::external_type_specification]
#[verifier::external_body]
#[verifier::reject_recursive_types(K)]
#[verifier::reject_recursive_types(V)]
#[verifier::reject_recursive_types(S)]
pub struct ExIndexMap<K, V, S>(IndexMap<K, V, S>);

/// The entries of a task table, in the table's order: each task's name
/// and definition.
pub uninterp spec fn task_entries(m: IndexMap<String, TaskDef>) -> Seq<(Seq<char>, TaskDefView)>;

/// Whether some entry of `m` has the name `k`.
pub open spec fn has_key(m: Seq<(Seq<char>, TaskDefView)>, k: Seq<char>) -> bool {
    exists|i: int| 0 <= i < m.len() && m[i].0 == k
}

/// A position of an entry named `k` (meaningful when `has_key(m, k)`).
pub open spec fn key_position(m: Seq<(Seq<char>, TaskDefView)>, k: Seq<char>) -> int {
    choose|i: int| 0 <= i < m.len() && m[i].0 == k
}

/// The table after `insert(k, v)`: an existing entry named `k` keeps its
/// place and gets the new definition; otherwise the entry goes last.
pub open spec fn map_insert(m: Seq<(Seq<char>, TaskDefView)>, k: Seq<char>, v: TaskDefView) -> Seq<
    (Seq<char>, TaskDefView),
> {
    if has_key(m, k) {
        m.update(key_position(m, k), (k, v))
    } else {
        m.push((k, v))
    }
}

/// No two entries share a name.
pub open spec fn unique_keys(m: Seq<(Seq<char>, TaskDefView)>) -> bool {
    forall|i: int, j: int| 0 <= i < m.len() && 0 <= j < m.len() && i != j ==> m[i].0 != m[j].0
}

/// Calls `IndexMap::new`: an empty table.
#[verifier::external_body]
pub(crate) fn new_task_table() -> (m: IndexMap<String, TaskDef>)
    ensures
        task_entries(m) == Seq::<(Seq<char>, TaskDefView)>::empty(),
{
    IndexMap::new()
}

/// Calls `IndexMap::insert`. As its documentation says, an entry with an
/// equal key keeps its position and takes the new value; otherwise the
/// pair is appended last.
#[verifier::external_body]
pub(crate) fn insert_task(m: &mut IndexMap<String, TaskDef>, key: String, def: TaskDef)
    ensures
        task_entries(*final(m)) == map_insert(task_entries(*old(m)), key@, def@),
{
    m.insert(key, def);
}

/// Calls `IntoIterator::into_iter` on the table and collects the pairs,
/// which come out in the table's order.
#[verifier::external_body]
pub(crate) fn into_task_pairs(m: IndexMap<String, TaskDef>) -> (r: Vec<(String, TaskDef)>)
    ensures
        r@.len() == task_entries(m).len(),
        forall|i: int|
            0 <= i < r@.len() ==> (#[trigger] r@[i]).0@ == task_entries(m)[i].0 && r@[i].1@
                == task_entries(m)[i].1,
{
    m.into_iter().collect()
}

/// Inserting keeps names distinct and the name is then present.
pub proof fn lemma_insert_unique(m: Seq<(Seq<char>, TaskDefView)>, k: Seq<char>, v: TaskDefView)
    requires
        unique_keys(m),
    ensures
        unique_keys(map_insert(m, k, v)),
        has_key(map_insert(m, k, v), k),
        forall|j: int|
            0 <= j < m.len() ==> has_key(map_insert(m, k, v), #[trigger] m[j].0),
{
    let r = map_insert(m, k, v);
    if has_key(m, k) {
        let i = key_position(m, k);
        assert(r[i].0 == k);
        assert forall|j: int| 0 <= j < m.len() implies has_key(r, #[trigger] m[j].0) by {
            assert(r[j].0 == m[j].0);
        }
    } else {
        assert(r[m.len() as int].0 == k);
        assert forall|j: int| 0 <= j < m.len() implies has_key(r, #[trigger] m[j].0) by {
            assert(r[j].0 == m[j].0);
        }
    }
}

/// Where `insert` puts a name that is already present.
pub proof fn lemma_insert_existing(m: Seq<(Seq<char>, TaskDefView)>, k: Seq<char>, v: TaskDefView) -> (i: int)
    requires
        has_key(m, k),
    ensures
        0 <= i < m.len(),
        m[i].0 == k,
        map_insert(m, k, v) == m.update(i, (k, v)),
{
    key_position(m, k)
}

} // verus!
