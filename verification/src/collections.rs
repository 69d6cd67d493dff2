//! The hash maps and sets the scheduler keeps, from the `ahash` crate. Verus sees
//! each through a name for its contents; the wrappers state what each operation
//! does to the contents. Iteration order is the map's own (it depends on a seed
//! chosen at run time), so the key listings promise only which keys come out.
use vstd::prelude::*;
use ahash::{AHashMap, AHashSet};
use crate::scheduler::{PendingCallData, Task};
use crate::value::{HeapId, Value};

verus! {

/// `ahash::RandomState`, the default hasher of ahash's maps, opaque to Verus.
#[verifier::external_type_specification]
#[verifier::external_body]
pub struct ExAHashRandomState(ahash::RandomState);

/// `ahash::AHashMap`, opaque to Verus.
#[verifier::external_type_specification]
#[verifier::external_body]
#[verifier::reject_recursive_types(K)]
#[verifier::reject_recursive_types(V)]
#[verifier::reject_recursive_types(S)]
pub struct ExAHashMap<K, V, S>(AHashMap<K, V, S>);

/// `ahash::AHashSet`, opaque to Verus.
#[verifier::external_type_specification]
#[verifier::external_body]
#[verifier::reject_recursive_types(T)]
#[verifier::reject_recursive_types(S)]
pub struct ExAHashSet<T, S>(AHashSet<T, S>);

/// Tasks by id.
pub type TaskMap = AHashMap<u32, Task>;

/// The entries of a map of tasks by id.
pub uninterp spec fn task_map_contents(m: TaskMap) -> Map<u32, Task>;

/// `AHashMap::new()` for a map of tasks by id: an empty map.
#[verifier::external_body]
pub fn task_map_new() -> (r: TaskMap)
    ensures
        task_map_contents(r).is_empty(),
        task_map_contents(r).dom().finite(),
{
    AHashMap::new()
}

/// `AHashMap::insert` on a map of tasks by id: sets the entry for `k`, dropping the value it
/// replaced.
#[verifier::external_body]
pub fn task_map_insert(m: &mut TaskMap, k: u32, v: Task)
    ensures
        task_map_contents(*final(m)) == task_map_contents(*old(m)).insert(k, v),
{
    m.insert(k, v);
}

/// `AHashMap::remove` on a map of tasks by id: removes the entry for `k`, returning its value.
#[verifier::external_body]
pub fn task_map_remove(m: &mut TaskMap, k: u32) -> (r: Option<Task>)
    ensures
        task_map_contents(*final(m)) == task_map_contents(*old(m)).remove(k),
        r == if task_map_contents(*old(m)).contains_key(k) { Some(task_map_contents(*old(m))[k]) } else { None::<Task> },
{
    m.remove(&k)
}

/// `AHashMap::get` on a map of tasks by id: the value for `k`, if any.
#[verifier::external_body]
pub fn task_map_get(m: &TaskMap, k: u32) -> (r: Option<&Task>)
    ensures
        r == if task_map_contents(*m).contains_key(k) { Some(&task_map_contents(*m)[k]) } else { None::<&Task> },
{
    m.get(&k)
}

/// The keys of a map of tasks by id (`keys().copied().collect()`), in the map's own order.
#[verifier::external_body]
pub fn task_map_keys(m: &TaskMap) -> (r: Vec<u32>)
    ensures
        r@.no_duplicates(),
        r@.to_set() == task_map_contents(*m).dom(),
{
    m.keys().copied().collect()
}

/// Unresolved external calls by call id.
pub type PendingMap = AHashMap<u32, PendingCallData>;

/// The entries of a map of unresolved external calls.
pub uninterp spec fn pending_map_contents(m: PendingMap) -> Map<u32, PendingCallData>;

/// `AHashMap::new()` for a map of unresolved external calls: an empty map.
#[verifier::external_body]
pub fn pending_map_new() -> (r: PendingMap)
    ensures
        pending_map_contents(r).is_empty(),
{
    AHashMap::new()
}

/// `AHashMap::insert` on a map of unresolved external calls: sets the entry for `k`, dropping the value it
/// replaced.
#[verifier::external_body]
pub fn pending_map_insert(m: &mut PendingMap, k: u32, v: PendingCallData)
    ensures
        pending_map_contents(*final(m)) == pending_map_contents(*old(m)).insert(k, v),
{
    m.insert(k, v);
}

/// `AHashMap::remove` on a map of unresolved external calls: removes the entry for `k`, returning its value.
#[verifier::external_body]
pub fn pending_map_remove(m: &mut PendingMap, k: u32) -> (r: Option<PendingCallData>)
    ensures
        pending_map_contents(*final(m)) == pending_map_contents(*old(m)).remove(k),
        r == if pending_map_contents(*old(m)).contains_key(k) { Some(pending_map_contents(*old(m))[k]) } else { None::<PendingCallData> },
{
    m.remove(&k)
}

/// `AHashMap::get` on a map of unresolved external calls: the value for `k`, if any.
#[verifier::external_body]
pub fn pending_map_get(m: &PendingMap, k: u32) -> (r: Option<&PendingCallData>)
    ensures
        r == if pending_map_contents(*m).contains_key(k) { Some(&pending_map_contents(*m)[k]) } else { None::<&PendingCallData> },
{
    m.get(&k)
}

/// The keys of a map of unresolved external calls (`keys().copied().collect()`), in the map's own order.
#[verifier::external_body]
pub fn pending_map_keys(m: &PendingMap) -> (r: Vec<u32>)
    ensures
        r@.no_duplicates(),
        r@.to_set() == pending_map_contents(*m).dom(),
{
    m.keys().copied().collect()
}

/// Results of resolved calls by call id, until awaited.
pub type ResolvedMap = AHashMap<u32, Value>;

/// The entries of a map of resolved call results.
pub uninterp spec fn resolved_map_contents(m: ResolvedMap) -> Map<u32, Value>;

/// `AHashMap::new()` for a map of resolved call results: an empty map.
#[verifier::external_body]
pub fn resolved_map_new() -> (r: ResolvedMap)
    ensures
        resolved_map_contents(r).is_empty(),
{
    AHashMap::new()
}

/// `AHashMap::insert` on a map of resolved call results: sets the entry for `k`, dropping the value it
/// replaced.
#[verifier::external_body]
pub fn resolved_map_insert(m: &mut ResolvedMap, k: u32, v: Value)
    ensures
        resolved_map_contents(*final(m)) == resolved_map_contents(*old(m)).insert(k, v),
{
    m.insert(k, v);
}

/// `AHashMap::remove` on a map of resolved call results: removes the entry for `k`, returning its value.
#[verifier::external_body]
pub fn resolved_map_remove(m: &mut ResolvedMap, k: u32) -> (r: Option<Value>)
    ensures
        resolved_map_contents(*final(m)) == resolved_map_contents(*old(m)).remove(k),
        r == if resolved_map_contents(*old(m)).contains_key(k) { Some(resolved_map_contents(*old(m))[k]) } else { None::<Value> },
{
    m.remove(&k)
}

/// `AHashMap::get` on a map of resolved call results: the value for `k`, if any.
#[verifier::external_body]
pub fn resolved_map_get(m: &ResolvedMap, k: u32) -> (r: Option<&Value>)
    ensures
        r == if resolved_map_contents(*m).contains_key(k) { Some(&resolved_map_contents(*m)[k]) } else { None::<&Value> },
{
    m.get(&k)
}

/// The keys of a map of resolved call results (`keys().copied().collect()`), in the map's own order.
#[verifier::external_body]
pub fn resolved_map_keys(m: &ResolvedMap) -> (r: Vec<u32>)
    ensures
        r@.no_duplicates(),
        r@.to_set() == resolved_map_contents(*m).dom(),
{
    m.keys().copied().collect()
}

/// Gathers waiting on external calls: the gather and its result slots, by call id.
pub type WaiterMap = AHashMap<u32, (HeapId, Vec<usize>)>;

/// The entries of a map of gathers waiting on calls.
pub uninterp spec fn waiter_map_contents(m: WaiterMap) -> Map<u32, (HeapId, Vec<usize>)>;

/// `AHashMap::new()` for a map of gathers waiting on calls: an empty map.
#[verifier::external_body]
pub fn waiter_map_new() -> (r: WaiterMap)
    ensures
        waiter_map_contents(r).is_empty(),
{
    AHashMap::new()
}

/// `AHashMap::insert` on a map of gathers waiting on calls: sets the entry for `k`, dropping the value it
/// replaced.
#[verifier::external_body]
pub fn waiter_map_insert(m: &mut WaiterMap, k: u32, v: (HeapId, Vec<usize>))
    ensures
        waiter_map_contents(*final(m)) == waiter_map_contents(*old(m)).insert(k, v),
{
    m.insert(k, v);
}

/// `AHashMap::remove` on a map of gathers waiting on calls: removes the entry for `k`, returning its value.
#[verifier::external_body]
pub fn waiter_map_remove(m: &mut WaiterMap, k: u32) -> (r: Option<(HeapId, Vec<usize>)>)
    ensures
        waiter_map_contents(*final(m)) == waiter_map_contents(*old(m)).remove(k),
        r == if waiter_map_contents(*old(m)).contains_key(k) { Some(waiter_map_contents(*old(m))[k]) } else { None::<(HeapId, Vec<usize>)> },
{
    m.remove(&k)
}

/// `AHashMap::get` on a map of gathers waiting on calls: the value for `k`, if any.
#[verifier::external_body]
pub fn waiter_map_get(m: &WaiterMap, k: u32) -> (r: Option<&(HeapId, Vec<usize>)>)
    ensures
        r == if waiter_map_contents(*m).contains_key(k) { Some(&waiter_map_contents(*m)[k]) } else { None::<&(HeapId, Vec<usize>)> },
{
    m.get(&k)
}

/// The keys of a map of gathers waiting on calls (`keys().copied().collect()`), in the map's own order.
#[verifier::external_body]
pub fn waiter_map_keys(m: &WaiterMap) -> (r: Vec<u32>)
    ensures
        r@.no_duplicates(),
        r@.to_set() == waiter_map_contents(*m).dom(),
{
    m.keys().copied().collect()
}

/// Call ids already awaited.
pub type CallIdSet = AHashSet<u32>;

/// The members of a set of call ids.
pub uninterp spec fn call_set_contents(s: CallIdSet) -> Set<u32>;

/// `AHashSet::new()`: an empty set.
#[verifier::external_body]
pub fn call_set_new() -> (r: CallIdSet)
    ensures
        call_set_contents(r).is_empty(),
{
    AHashSet::new()
}

/// `AHashSet::insert`: adds `k`.
#[verifier::external_body]
pub fn call_set_insert(s: &mut CallIdSet, k: u32)
    ensures
        call_set_contents(*final(s)) == call_set_contents(*old(s)).insert(k),
{
    s.insert(k);
}

/// `AHashSet::contains`: whether `k` is a member.
#[verifier::external_body]
pub fn call_set_contains(s: &CallIdSet, k: u32) -> (r: bool)
    ensures
        r == call_set_contents(*s).contains(k),
{
    s.contains(&k)
}

/// Global variable names and their namespace slots.
pub type NameMap = AHashMap<String, usize>;

/// The entries of a name map, keyed by the names' characters.
pub uninterp spec fn name_map_contents(m: NameMap) -> Map<Seq<char>, usize>;

/// `AHashMap::new()` for a name map: an empty map.
#[verifier::external_body]
pub fn name_map_new() -> (r: NameMap)
    ensures
        name_map_contents(r).is_empty(),
        name_map_contents(r).dom().finite(),
{
    AHashMap::new()
}

/// `AHashMap::insert` on a name map: sets the slot of a name.
#[verifier::external_body]
pub fn name_map_insert(m: &mut NameMap, k: String, v: usize)
    ensures
        name_map_contents(*final(m)) == name_map_contents(*old(m)).insert(k@, v),
{
    m.insert(k, v);
}

/// `AHashMap::get` on a name map: the slot of a name, if any.
#[verifier::external_body]
pub fn name_map_get(m: &NameMap, k: &str) -> (r: Option<usize>)
    ensures
        r == if name_map_contents(*m).contains_key(k@) { Some(name_map_contents(*m)[k@]) } else { None::<usize> },
{
    m.get(k).copied()
}

/// Names with their slots.
pub type NameEntries = Vec<(String, usize)>;

/// The entries of a name map (`iter()` with the names cloned), in the map's own
/// order.
#[verifier::external_body]
pub fn name_map_entries(m: &NameMap) -> (r: NameEntries)
    ensures
        r@.len() == name_map_contents(*m).len(),
        forall|i: int| 0 <= i < r@.len() ==> #[trigger] name_map_contents(*m).contains_key(r@[i].0@)
            && name_map_contents(*m)[r@[i].0@] == r@[i].1,
        forall|i: int| #![trigger r@[i]] 0 <= i < r@.len() ==> (forall|j: int| #![trigger r@[j]] i < j < r@.len() ==> r@[j].0@ != r@[i].0@),
{
    m.iter().map(|(k, v)| (k.clone(), *v)).collect()
}

/// Positions in a plan, by heap id or call id: which awaitables of a gather were
/// already seen.
pub type SeenMap = AHashMap<usize, usize>;

/// The entries of a map of plan positions.
pub uninterp spec fn seen_map_contents(m: SeenMap) -> Map<usize, usize>;

/// `AHashMap::new()` for a map of plan positions: an empty map.
#[verifier::external_body]
pub fn seen_map_new() -> (r: SeenMap)
    ensures
        seen_map_contents(r).is_empty(),
{
    AHashMap::new()
}

/// `AHashMap::insert` on a map of plan positions: sets the entry for `k`.
#[verifier::external_body]
pub fn seen_map_insert(m: &mut SeenMap, k: usize, v: usize)
    ensures
        seen_map_contents(*final(m)) == seen_map_contents(*old(m)).insert(k, v),
{
    m.insert(k, v);
}

/// `AHashMap::get` on a map of plan positions: the entry for `k`, if any.
#[verifier::external_body]
pub fn seen_map_get(m: &SeenMap, k: usize) -> (r: Option<usize>)
    ensures
        r == if seen_map_contents(*m).contains_key(k) { Some(seen_map_contents(*m)[k]) } else { None::<usize> },
{
    m.get(&k).copied()
}

} // verus!
