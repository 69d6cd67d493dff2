//! The object heap: reference-counted heap objects stored in [`HeapEntries`].
use vstd::prelude::*;
use crate::async_state::{Coroutine, GatherFuture, GatherItem};
use crate::date::Date;
use crate::exception::{ExcType, RunError};
use crate::heap_entries::HeapEntries;
use crate::iter::MontyIter;
use crate::range::Range;
use crate::timezone::TimeZone;
use crate::value::{HeapId, Value};

verus! {

/// The payload of a heap object.
#[derive(Debug)]
pub enum HeapData {
    List(Vec<Value>),
    Tuple(Vec<Value>),
    /// Dict entries in insertion order.
    Dict(Vec<(Value, Value)>),
    /// Set members in insertion order.
    PySet(Vec<Value>),
    FrozenSet(Vec<Value>),
    Bytes(Vec<u8>),
    Range(Range),
    Iter(MontyIter),
    Date(Date),
    TimeDelta(crate::timedelta::TimeDelta),
    TimeZone(TimeZone),
    Coroutine(Coroutine),
    GatherFuture(GatherFuture),
    Module(crate::modules::StandardLib),
}

/// A heap object and the number of references to it.
#[derive(Debug)]
pub struct HeapValue {
    pub refcount: usize,
    pub data: HeapData,
}

/// The contents of the heap: one optional object per slot id.
pub struct HeapView {
    pub slots: Seq<Option<HeapValue>>,
    pub free: Seq<HeapId>,
}

impl HeapView {
    /// Whether `id` names an allocated object.
    pub open spec fn live(self, id: HeapId) -> bool {
        id < self.slots.len() && self.slots[id as int] is Some
    }

    /// The payload of object `id`.
    pub open spec fn data(self, id: HeapId) -> HeapData {
        self.slots[id as int]->0.data
    }

    /// The reference count of object `id`.
    pub open spec fn refcount(self, id: HeapId) -> usize {
        self.slots[id as int]->0.refcount
    }
}

/// The object heap.
pub struct Heap {
    entries: HeapEntries<HeapValue>,
    utc: Option<HeapId>,
}

impl View for Heap {
    type V = HeapView;

    closed spec fn view(&self) -> HeapView {
        HeapView { slots: self.entries.slots(), free: self.entries.free_ids() }
    }
}

/// Whether `slots` has room for one more allocation.
pub open spec fn has_room(h: HeapView) -> bool {
    h.free.len() > 0 || h.slots.len() < usize::MAX
}

/// The heap after allocating `value` in the slot that [`Heap::allocate`] picks.
pub open spec fn allocated(h: HeapView, value: HeapValue, id: HeapId) -> bool {
    id == if h.free.len() > 0 { h.free.last() } else { h.slots.len() as usize }
}

impl Heap {
    /// Heap invariant: the free list names distinct empty slots.
    pub closed spec fn wf(&self) -> bool {
        self.entries.wf()
    }

    /// An empty heap with room reserved for `capacity` objects.
    pub fn new(capacity: usize) -> (r: Heap)
        ensures
            r.wf(),
            r@.slots.len() == 0,
            r@.free.len() == 0,
    {
        Heap { entries: HeapEntries::with_capacity(capacity), utc: None }
    }

    /// The object that was last made the shared UTC timezone, if any.
    pub closed spec fn utc_object(&self) -> Option<HeapId> {
        self.utc
    }

    /// Whether the shared UTC timezone is still on the heap as it was made.
    pub open spec fn shares_utc(&self) -> bool {
        &&& self.utc_object() is Some
        &&& self@.live(self.utc_object()->0)
        &&& self@.data(self.utc_object()->0) == HeapData::TimeZone(TimeZone { offset_seconds: 0, name: None })
    }

    /// The shared UTC timezone (offset zero, no name): the one made before while it
    /// is still there, with one more reference and nothing allocated; otherwise a new
    /// one, which becomes the shared one. MemoryError when there is no room for it.
    pub fn get_timezone_utc(&mut self) -> (r: Result<Value, RunError>)
        requires
            old(self).wf(),
        ensures
            final(self).wf(),
            match r {
                Ok(v) => {
                    &&& v matches Value::Ref(id)
                    &&& final(self).utc_object() == Some(id)
                    &&& final(self).shares_utc()
                },
                Err(e) => e.exc_type == ExcType::MemoryError && !has_room(old(self)@) && final(self)@ == old(self)@,
            },
            old(self).shares_utc() ==> {
                &&& r == Ok::<Value, RunError>(Value::Ref(old(self).utc_object()->0))
                &&& same_objects(old(self)@, final(self)@)
                &&& final(self)@.free == old(self)@.free
                &&& final(self)@.slots.len() == old(self)@.slots.len()
            },
    {
        if let Some(id) = self.utc {
            if self.is_live(id) {
                let same = match self.get(id) {
                    HeapData::TimeZone(tz) => tz.offset_seconds == 0 && tz.name.is_none(),
                    _ => false,
                };
                if same {
                    proof {
                        assert(self@.data(id) == HeapData::TimeZone(TimeZone { offset_seconds: 0, name: None }));
                    }
                    let ghost h0 = self@;
                    self.inc_ref(id);
                    proof {
                        assert forall|j: HeapId| #[trigger] h0.live(j) == self@.live(j) by {
                            if j != id && (j as int) < h0.slots.len() {
                                assert(self@.slots[j as int] == h0.slots[j as int]);
                            }
                        }
                        assert forall|j: HeapId| h0.live(j) implies #[trigger] h0.data(j) == self@.data(j) by {
                            if j != id {
                                assert(self@.slots[j as int] == h0.slots[j as int]);
                            }
                        }
                    }
                    return Ok(Value::Ref(id));
                }
            }
        }
        let id = self.allocate(HeapData::TimeZone(TimeZone::utc()))?;
        self.utc = Some(id);
        Ok(Value::Ref(id))
    }

    /// Whether `id` names an allocated object.
    pub fn is_live(&self, id: HeapId) -> (r: bool)
        ensures
            r == self@.live(id),
    {
        id < self.entries.len() && self.entries.is_allocated(id)
    }

    /// The payload of object `id`.
    pub fn get(&self, id: HeapId) -> (r: &HeapData)
        requires
            self@.live(id),
        ensures
            *r == self@.data(id),
    {
        &self.entries.get(id).data
    }

    /// Stores a new object with one reference, reusing a freed slot if possible.
    /// Fails with MemoryError when no slot id is left.
    pub fn allocate(&mut self, data: HeapData) -> (r: Result<HeapId, RunError>)
        requires
            old(self).wf(),
        ensures
            final(self).wf(),
            match r {
                Ok(id) => {
                    &&& has_room(old(self)@)
                    &&& id == if old(self)@.free.len() > 0 { old(self)@.free.last() } else { old(self)@.slots.len() as usize }
                    &&& final(self)@.slots == if old(self)@.free.len() > 0 {
                        old(self)@.slots.update(id as int, Some(HeapValue { refcount: 1, data }))
                    } else {
                        old(self)@.slots.push(Some(HeapValue { refcount: 1, data }))
                    }
                    &&& final(self)@.live(id)
                    &&& final(self)@.data(id) == data
                    &&& !old(self)@.live(id)
                    &&& forall|j: HeapId| #[trigger] old(self)@.live(j) ==> final(self)@.live(j) && final(self)@.data(j) == old(self)@.data(j)
                    &&& forall|j: HeapId| j != id && #[trigger] final(self)@.live(j) ==> old(self)@.live(j)
                },
                Err(e) => !has_room(old(self)@) && e.exc_type == ExcType::MemoryError && final(self)@ == old(self)@,
            },
    {
        if self.entries.len() == usize::MAX && self.free_count() == 0 {
            return Err(RunError::from_str(ExcType::MemoryError, "heap is full"));
        }
        let id = self.entries.allocate(HeapValue { refcount: 1, data });
        Ok(id)
    }

    /// The number of reusable slot ids.
    fn free_count(&self) -> (r: usize)
        ensures
            r == self@.free.len(),
    {
        self.entries.free_len()
    }

    /// The number of slots (live or free) of the heap.
    pub fn slot_count(&self) -> (r: usize)
        ensures
            r == self@.slots.len(),
    {
        self.entries.len()
    }

    /// The reference count of object `id`.
    pub fn refcount(&self, id: HeapId) -> (r: usize)
        requires
            self@.live(id),
        ensures
            r == self@.refcount(id),
    {
        self.entries.get(id).refcount
    }

    /// Mutable access to the payload of object `id`.
    pub fn data_mut(&mut self, id: HeapId) -> (r: &mut HeapData)
        requires
            old(self).wf(),
            old(self)@.live(id),
        ensures
            *r == old(self)@.data(id),
            final(self)@.slots == old(self)@.slots.update(
                id as int,
                Some(HeapValue { refcount: old(self)@.refcount(id), data: *final(r) }),
            ),
            final(self)@.free == old(self)@.free,
            final(self).wf(),
    {
        let slot = self.entries.get_mut(id);
        match slot {
            Some(v) => &mut v.data,
            None => vstd::pervasive::unreached(),
        }
    }

    /// Replaces the payload of object `id`, keeping its reference count.
    pub fn set_data(&mut self, id: HeapId, data: HeapData)
        requires
            old(self).wf(),
            old(self)@.live(id),
        ensures
            final(self).wf(),
            final(self)@.slots == old(self)@.slots.update(
                id as int,
                Some(HeapValue { refcount: old(self)@.refcount(id), data }),
            ),
            final(self)@.free == old(self)@.free,
    {
        let slot = self.entries.get_mut(id);
        let rc = slot.as_ref().unwrap().refcount;
        *slot = Some(HeapValue { refcount: rc, data });
    }

    /// Adds a reference to object `id` (saturating at `usize::MAX`).
    pub fn inc_ref(&mut self, id: HeapId)
        requires
            old(self).wf(),
            old(self)@.live(id),
        ensures
            final(self).wf(),
            final(self)@.free == old(self)@.free,
            final(self)@.slots.len() == old(self)@.slots.len(),
            forall|j: int| 0 <= j < old(self)@.slots.len() && j != id ==> #[trigger] final(self)@.slots[j] == old(self)@.slots[j],
            final(self)@.live(id),
            final(self)@.data(id) == old(self)@.data(id),
            final(self)@.refcount(id) == if old(self)@.refcount(id) == usize::MAX { usize::MAX } else { (old(self)@.refcount(id) + 1) as usize },
            final(self).utc_object() == old(self).utc_object(),
    {
        let slot = self.entries.get_mut(id);
        let v = slot.take().unwrap();
        let rc = if v.refcount == usize::MAX { usize::MAX } else { v.refcount + 1 };
        *slot = Some(HeapValue { refcount: rc, data: v.data });
    }

    /// Removes a reference to object `id`; the last reference frees the object's slot.
    ///
    /// Objects the freed object referred to are not released here: their ids are
    /// appended to `released` for the caller to drop in turn.
    pub fn dec_ref(&mut self, id: HeapId, released: &mut Vec<HeapId>)
        requires
            old(self).wf(),
            old(self)@.live(id),
        ensures
            final(self).wf(),
            final(self)@.slots.len() == old(self)@.slots.len(),
            forall|j: int| 0 <= j < old(self)@.slots.len() && j != id ==> #[trigger] final(self)@.slots[j] == old(self)@.slots[j],
            old(self)@.refcount(id) > 1 ==> {
                &&& final(self)@.live(id)
                &&& final(self)@.data(id) == old(self)@.data(id)
                &&& final(self)@.refcount(id) == old(self)@.refcount(id) - 1
                &&& final(self)@.free == old(self)@.free
                &&& final(released)@ == old(released)@
            },
            old(self)@.refcount(id) <= 1 ==> {
                &&& !final(self)@.live(id)
                &&& final(self)@.free == old(self)@.free.push(id)
                &&& final(released)@ == old(released)@ + data_ref_ids(old(self)@.data(id))
            },
            final(self).utc_object() == old(self).utc_object(),
    {
        let slot = self.entries.get_mut(id);
        let v = slot.take().unwrap();
        if v.refcount > 1 {
            *slot = Some(HeapValue { refcount: v.refcount - 1, data: v.data });
        } else {
            collect_data_ref_ids(&v.data, released);
            proof {
                assert(!self.entries.free_ids().contains(id)) by {
                    if self.entries.free_ids().contains(id) {
                        let k = choose|k: int| 0 <= k < self.entries.free_ids().len() && self.entries.free_ids()[k] == id;
                        assert(old(self).entries.free_ids()[k] == id);
                    }
                }
            }
            self.entries.free(id);
        }
    }
}

/// The number of allocated objects among `s`.
pub open spec fn count_live(s: Seq<Option<HeapValue>>) -> nat
    decreases s.len(),
{
    if s.len() == 0 {
        0
    } else {
        count_live(s.drop_last()) + if s.last() is Some { 1nat } else { 0nat }
    }
}

/// Emptying an allocated slot lowers the number of allocated objects by one.
proof fn lemma_count_live_free(s: Seq<Option<HeapValue>>, i: int)
    requires
        0 <= i < s.len(),
        s[i] is Some,
    ensures
        count_live(s.update(i, None)) + 1 == count_live(s),
    decreases s.len(),
{
    let t = s.update(i, None);
    if i == s.len() - 1 {
        assert(t.drop_last() == s.drop_last());
    } else {
        assert(t.drop_last() == s.drop_last().update(i, None));
        lemma_count_live_free(s.drop_last(), i);
    }
}

/// Replacing an allocated slot by another allocated value keeps the count.
proof fn lemma_count_live_replace(s: Seq<Option<HeapValue>>, i: int, v: HeapValue)
    requires
        0 <= i < s.len(),
        s[i] is Some,
    ensures
        count_live(s.update(i, Some(v))) == count_live(s),
    decreases s.len(),
{
    let t = s.update(i, Some(v));
    if i == s.len() - 1 {
        assert(t.drop_last() == s.drop_last());
    } else {
        assert(t.drop_last() == s.drop_last().update(i, Some(v)));
        lemma_count_live_replace(s.drop_last(), i, v);
    }
}

/// Two heaps hold the same objects with the same payloads; only reference counts
/// may differ.
pub open spec fn same_objects(a: HeapView, b: HeapView) -> bool {
    &&& a.slots.len() == b.slots.len()
    &&& a.free == b.free
    &&& forall|j: HeapId| #[trigger] a.live(j) == b.live(j)
    &&& forall|j: HeapId| a.live(j) ==> #[trigger] a.data(j) == b.data(j)
}

/// Heap `b` differs from `a` only by freed objects and reference counts: every
/// object live in `b` was live in `a` with the same payload.
pub open spec fn only_frees(a: HeapView, b: HeapView) -> bool {
    forall|j: HeapId| #[trigger] b.live(j) ==> a.live(j) && b.data(j) == a.data(j)
}

/// Heap `b` has as many slots as heap `a` and at least as many free ones, so it has
/// room for a new object whenever `a` has.
pub open spec fn room_kept(a: HeapView, b: HeapView) -> bool {
    &&& b.slots.len() == a.slots.len()
    &&& b.free.len() >= a.free.len()
}

/// Heap `b` is heap `a` after one reference to object `id` is dropped: a shared
/// object loses that reference and nothing else changes; the last reference frees
/// the object (and, in turn, what only it held; an object that holds no references
/// frees nothing else); a dead id changes nothing.
pub open spec fn released_once(a: HeapView, b: HeapView, id: HeapId) -> bool {
    &&& b.slots.len() == a.slots.len()
    &&& only_frees(a, b)
    &&& if !a.live(id) {
        b == a
    } else if a.refcount(id) > 1 {
        &&& same_objects(a, b)
        &&& b.refcount(id) == a.refcount(id) - 1
        &&& forall|j: HeapId| j != id && #[trigger] a.live(j) ==> b.refcount(j) == a.refcount(j)
    } else {
        &&& !b.live(id)
        &&& data_ref_ids(a.data(id)).len() == 0 ==> forall|j: HeapId| j != id ==> #[trigger] b.live(j) == a.live(j)
    }
}

/// Heap `b` is heap `a` after value `v` is dropped: a heap reference is released,
/// any other value changes nothing.
pub open spec fn value_released(a: HeapView, b: HeapView, v: Value) -> bool {
    match v {
        Value::Ref(id) => released_once(a, b, id),
        _ => b == a,
    }
}

/// Heaps `hs` are the successive states while the values `vs[k..]` are dropped one
/// by one, the last first.
pub open spec fn drop_chain(hs: Seq<HeapView>, vs: Seq<Value>, k: int) -> bool {
    &&& 0 <= k <= vs.len()
    &&& hs.len() == vs.len() - k + 1
    &&& forall|i: int| #![trigger hs[i]] 0 <= i < vs.len() - k ==> value_released(hs[i], hs[i + 1], vs[vs.len() - 1 - i])
}

/// Heap `b` is heap `a` after the values `vs[k..]` are dropped one by one, the last
/// first.
pub open spec fn dropped_from(a: HeapView, b: HeapView, vs: Seq<Value>, k: int) -> bool {
    exists|hs: Seq<HeapView>| #[trigger] drop_chain(hs, vs, k) && hs[0] == a && hs.last() == b
}

/// Dropping nothing leaves the heap as it is.
pub proof fn lemma_dropped_none(a: HeapView, vs: Seq<Value>)
    ensures
        dropped_from(a, a, vs, vs.len() as int),
{
    assert(drop_chain(seq![a], vs, vs.len() as int));
}

/// Dropping one more value extends a run of drops.
pub proof fn lemma_dropped_step(a: HeapView, m: HeapView, b: HeapView, vs: Seq<Value>, k: int)
    requires
        0 <= k < vs.len(),
        dropped_from(a, m, vs, k + 1),
        value_released(m, b, vs[k]),
    ensures
        dropped_from(a, b, vs, k),
{
    let hs = choose|hs: Seq<HeapView>| #[trigger] drop_chain(hs, vs, k + 1) && hs[0] == a && hs.last() == m;
    let hs2 = hs.push(b);
    assert forall|i: int| #![trigger hs2[i]] 0 <= i < vs.len() - k implies value_released(hs2[i], hs2[i + 1], vs[vs.len() - 1 - i]) by {
        if i < vs.len() - k - 1 {
            assert(hs2[i] == hs[i]);
            assert(hs2[i + 1] == hs[i + 1]);
        } else {
            assert(hs2[i] == m);
        }
    }
    assert(drop_chain(hs2, vs, k));
    assert(hs2[0] == a);
}

/// Every heap reference among `vs` is to an object other than `u` that, while live on
/// `heap`, refers to no other object.
pub open spec fn leaves_alone(heap: HeapView, vs: Seq<Value>, u: HeapId) -> bool {
    forall|i: int| 0 <= i < vs.len() && #[trigger] vs[i] is Ref ==> vs[i]->Ref_0 != u
        && (heap.live(vs[i]->Ref_0) ==> data_ref_ids(heap.data(vs[i]->Ref_0)).len() == 0)
}

/// The first `i` steps of a run of drops only free objects, and leave object `u`
/// where every value dropped leaves it alone.
proof fn lemma_chain_leaves(hs: Seq<HeapView>, vs: Seq<Value>, k: int, u: HeapId, i: int)
    requires
        drop_chain(hs, vs, k),
        leaves_alone(hs[0], vs, u),
        0 <= i <= vs.len() - k,
    ensures
        only_frees(hs[0], hs[i]),
        hs[i].live(u) == hs[0].live(u),
    decreases i,
{
    if i > 0 {
        lemma_chain_leaves(hs, vs, k, u, i - 1);
        let a = hs[0];
        let p = hs[i - 1];
        let n = hs[i];
        let v = vs[vs.len() - 1 - (i - 1)];
        assert(value_released(p, n, v));
        if v is Ref {
            let id = v->Ref_0;
            assert(id != u && (a.live(id) ==> data_ref_ids(a.data(id)).len() == 0));
            if p.live(id) && p.refcount(id) <= 1 {
                assert(a.live(id) && p.data(id) == a.data(id));
            }
        }
        assert forall|j: HeapId| #[trigger] n.live(j) implies a.live(j) && n.data(j) == a.data(j) by {
            assert(p.live(j));
        }
    }
}

/// Dropping values that leave object `u` alone only frees objects, and keeps `u`.
pub proof fn lemma_drop_leaves(a: HeapView, b: HeapView, vs: Seq<Value>, k: int, u: HeapId)
    requires
        dropped_from(a, b, vs, k),
        leaves_alone(a, vs, u),
    ensures
        only_frees(a, b),
        b.live(u) == a.live(u),
        a.live(u) ==> b.data(u) == a.data(u),
{
    let hs = choose|hs: Seq<HeapView>| #[trigger] drop_chain(hs, vs, k) && hs[0] == a && hs.last() == b;
    lemma_chain_leaves(hs, vs, k, u, vs.len() - k);
    assert(hs[vs.len() - k] == b);
}

/// Heap `b` is heap `a` after every positional and every keyword argument of a call
/// is released, the positional ones first or the keyword ones first.
pub open spec fn args_released(a: HeapView, b: HeapView, pos: Seq<Value>, kw: Seq<(Value, Value)>) -> bool {
    ||| exists|m: HeapView| #[trigger] dropped_from(a, m, pos, 0) && pairs_dropped_from(m, b, kw, 0)
    ||| exists|m: HeapView| #[trigger] pairs_dropped_from(a, m, kw, 0) && dropped_from(m, b, pos, 0)
}

/// Releasing one value is dropping the list that holds just that value.
pub proof fn lemma_released_one(a: HeapView, b: HeapView, v: Value)
    requires
        value_released(a, b, v),
    ensures
        dropped_from(a, b, seq![v], 0),
{
    lemma_dropped_none(a, seq![v]);
    lemma_dropped_step(a, a, b, seq![v], 0);
}

/// Whether no value of a list refers to a heap object.
pub open spec fn holds_no_refs(vs: Seq<Value>) -> bool {
    forall|i: int| 0 <= i < vs.len() ==> !(#[trigger] vs[i] is Ref)
}

/// Whether no key or value of a list of pairs refers to a heap object.
pub open spec fn pairs_hold_no_refs(kw: Seq<(Value, Value)>) -> bool {
    forall|i: int| 0 <= i < kw.len() ==> !(#[trigger] kw[i].0 is Ref) && !(kw[i].1 is Ref)
}

/// Along a run of drops of values that refer to no heap object, every state is the
/// first.
proof fn lemma_chain_plain(hs: Seq<HeapView>, vs: Seq<Value>, k: int, i: int)
    requires
        holds_no_refs(vs),
        drop_chain(hs, vs, k),
        0 <= i < hs.len(),
    ensures
        hs[i] == hs[0],
    decreases i,
{
    if i > 0 {
        lemma_chain_plain(hs, vs, k, i - 1);
        assert(hs[i - 1] == hs[i - 1]);
        assert(!(vs[vs.len() - 1 - (i - 1)] is Ref));
    }
}

/// Dropping values that refer to no heap object leaves the heap as it is.
pub proof fn lemma_dropped_plain(a: HeapView, b: HeapView, vs: Seq<Value>, k: int)
    requires
        holds_no_refs(vs),
        dropped_from(a, b, vs, k),
    ensures
        b == a,
{
    let hs = choose|hs: Seq<HeapView>| #[trigger] drop_chain(hs, vs, k) && hs[0] == a && hs.last() == b;
    lemma_chain_plain(hs, vs, k, hs.len() - 1);
}

/// The keys and values of pairs that refer to no heap object refer to none when laid
/// out for dropping.
pub proof fn lemma_pair_values_plain(kw: Seq<(Value, Value)>)
    requires
        pairs_hold_no_refs(kw),
    ensures
        holds_no_refs(pair_values(kw)),
{
    assert forall|i: int| 0 <= i < pair_values(kw).len() implies !(#[trigger] pair_values(kw)[i] is Ref) by {
        assert(!(kw[i / 2].0 is Ref) && !(kw[i / 2].1 is Ref));
    }
}

/// The values of keyword pairs laid out so that dropping them from the last drops
/// the pairs from the last, each key before its value.
pub open spec fn pair_values(kw: Seq<(Value, Value)>) -> Seq<Value> {
    Seq::new(2 * kw.len(), |i: int| if i % 2 == 0 { kw[i / 2].1 } else { kw[i / 2].0 })
}

/// Heap `b` is heap `a` after the pairs `kw[k..]` are dropped one by one, the last
/// first, each key before its value.
pub open spec fn pairs_dropped_from(a: HeapView, b: HeapView, kw: Seq<(Value, Value)>, k: int) -> bool {
    dropped_from(a, b, pair_values(kw), 2 * k)
}

/// Heap `b` is heap `a` after one more reference to what `v` refers to is taken: a
/// live object's count goes up by one (saturating), nothing else changes.
pub open spec fn retained(a: HeapView, b: HeapView, v: Value) -> bool {
    match v {
        Value::Ref(id) => if a.live(id) {
            &&& b.free == a.free
            &&& b.slots == a.slots.update(id as int, Some(HeapValue {
                refcount: if a.refcount(id) == usize::MAX { usize::MAX } else { (a.refcount(id) + 1) as usize },
                data: a.data(id),
            }))
        } else {
            b == a
        },
        _ => b == a,
    }
}

/// Whether two heaps agree on what a value refers to: the same liveness and, when
/// live, the same payload.
pub open spec fn agrees(v: Value, a: HeapView, b: HeapView) -> bool {
    match v {
        Value::Ref(id) => a.live(id) == b.live(id) && (a.live(id) ==> a.data(id) == b.data(id)),
        _ => true,
    }
}

/// Whether two heaps agree on every value of a sequence.
pub open spec fn all_agree(vs: Seq<Value>, a: HeapView, b: HeapView) -> bool {
    forall|i: int| 0 <= i < vs.len() ==> agrees(#[trigger] vs[i], a, b)
}

/// Agreement between heaps is symmetric.
pub proof fn lemma_all_agree_sym(vs: Seq<Value>, a: HeapView, b: HeapView)
    requires
        all_agree(vs, a, b),
    ensures
        all_agree(vs, b, a),
{
    assert forall|i: int| 0 <= i < vs.len() implies agrees(#[trigger] vs[i], b, a) by {
        assert(agrees(vs[i], a, b));
    }
}

/// Holding the same objects is transitive.
pub proof fn lemma_same_objects_trans(a: HeapView, b: HeapView, c: HeapView)
    requires
        same_objects(a, b),
        same_objects(b, c),
    ensures
        same_objects(a, c),
{
    assert forall|j: HeapId| a.live(j) implies #[trigger] a.data(j) == c.data(j) by {
        assert(b.live(j));
    }
}

impl Heap {
    /// Drops one reference to object `id`, releasing in turn every object that loses
    /// its last reference. Objects that survive keep their payloads.
    pub fn release(&mut self, id: HeapId)
        requires
            old(self).wf(),
        ensures
            final(self).wf(),
            final(self)@.slots.len() == old(self)@.slots.len(),
            forall|j: HeapId| #[trigger] final(self)@.live(j) ==> old(self)@.live(j) && final(self)@.data(j) == old(self)@.data(j),
            old(self)@.live(id) && old(self)@.refcount(id) > 1 ==> {
                &&& same_objects(old(self)@, final(self)@)
                &&& final(self)@.refcount(id) == old(self)@.refcount(id) - 1
                &&& forall|j: HeapId| j != id && #[trigger] old(self)@.live(j) ==> final(self)@.refcount(j) == old(self)@.refcount(j)
            },
            !old(self)@.live(id) ==> final(self)@ == old(self)@,
            released_once(old(self)@, final(self)@, id),
            final(self)@.free.len() >= old(self)@.free.len(),
            final(self).utc_object() == old(self).utc_object(),
    {
        if !self.is_live(id) {
            return;
        }
        let mut released: Vec<HeapId> = Vec::new();
        let ghost s0 = self@;
        proof {
            if s0.refcount(id) > 1 {
                lemma_count_live_replace(s0.slots, id as int, HeapValue { refcount: (s0.refcount(id) - 1) as usize, data: s0.data(id) });
            } else {
                lemma_count_live_free(s0.slots, id as int);
            }
        }
        let rc = self.refcount(id);
        self.dec_ref(id, &mut released);
        if rc > 1 {
            assert(released@.len() == 0);
            return;
        }
        if released.len() == 0 {
            proof {
                assert forall|j: HeapId| j != id implies #[trigger] self@.live(j) == s0.live(j) by {
                    if (j as int) < s0.slots.len() {
                        assert(self@.slots[j as int] == s0.slots[j as int]);
                    }
                }
                assert forall|j: HeapId| #[trigger] self@.live(j) implies s0.live(j) && self@.data(j) == s0.data(j) by {
                    assert(self@.slots[j as int] == s0.slots[j as int]);
                }
            }
            return;
        }
        while released.len() > 0
            invariant
                self.utc_object() == old(self).utc_object(),
                self.wf(),
                self@.slots.len() == s0.slots.len(),
                forall|j: HeapId| #[trigger] self@.live(j) ==> s0.live(j) && self@.data(j) == s0.data(j),
                !self@.live(id),
                self@.free.len() >= s0.free.len(),
            decreases count_live(self@.slots), released@.len(),
        {
            let j = released.pop().unwrap();
            if self.is_live(j) {
                let ghost before = self@;
                proof {
                    if before.refcount(j) > 1 {
                        lemma_count_live_replace(before.slots, j as int, HeapValue { refcount: (before.refcount(j) - 1) as usize, data: before.data(j) });
                    } else {
                        lemma_count_live_free(before.slots, j as int);
                    }
                }
                self.dec_ref(j, &mut released);
                proof {
                    if before.refcount(j) > 1 {
                        assert(self@.slots == before.slots.update(j as int, Some(HeapValue { refcount: (before.refcount(j) - 1) as usize, data: before.data(j) })));
                    } else {
                        assert(self@.slots == before.slots.update(j as int, None));
                    }
                    assert forall|k: HeapId| #[trigger] self@.live(k) implies s0.live(k) && self@.data(k) == s0.data(k) by {
                        if k != j {
                            assert(self@.slots[k as int] == before.slots[k as int]);
                            assert(before.live(k));
                        }
                    }
                    assert(j != id);
                    if (id as int) < before.slots.len() {
                        assert(self@.slots[id as int] == before.slots[id as int]);
                    }
                }
            }
        }
    }
}

/// The heap id held by a value, if any.
pub open spec fn value_ref_id(v: Value) -> Seq<HeapId> {
    match v {
        Value::Ref(i) => seq![i],
        _ => Seq::empty(),
    }
}

/// The heap ids held by a sequence of values, in order.
pub open spec fn values_ref_ids(vs: Seq<Value>) -> Seq<HeapId>
    decreases vs.len(),
{
    if vs.len() == 0 {
        Seq::empty()
    } else {
        values_ref_ids(vs.drop_last()) + value_ref_id(vs.last())
    }
}

/// The heap ids held by a list of key/value pairs, in order.
pub open spec fn pairs_ref_ids(ps: Seq<(Value, Value)>) -> Seq<HeapId>
    decreases ps.len(),
{
    if ps.len() == 0 {
        Seq::empty()
    } else {
        pairs_ref_ids(ps.drop_last()) + value_ref_id(ps.last().0) + value_ref_id(ps.last().1)
    }
}

/// The heap ids an object refers to.
pub open spec fn data_ref_ids(d: HeapData) -> Seq<HeapId> {
    match d {
        HeapData::List(vs) | HeapData::Tuple(vs) | HeapData::PySet(vs) | HeapData::FrozenSet(vs) => values_ref_ids(vs@),
        HeapData::Dict(ps) => pairs_ref_ids(ps@),
        HeapData::Iter(it) => value_ref_id(it.value_spec()),
        HeapData::Coroutine(c) => values_ref_ids(c.namespace@),
        HeapData::GatherFuture(g) => items_ref_ids(g.items@) + results_ref_ids(g.results@),
        _ => Seq::empty(),
    }
}

/// The heap ids of the coroutines among gathered items, in order.
pub open spec fn items_ref_ids(items: Seq<GatherItem>) -> Seq<HeapId>
    decreases items.len(),
{
    if items.len() == 0 {
        Seq::empty()
    } else {
        items_ref_ids(items.drop_last()) + match items.last() {
            GatherItem::Coroutine(id) => seq![id],
            GatherItem::ExternalFuture(_) => Seq::empty(),
        }
    }
}

/// The heap ids held by the filled result slots of a gather, in order.
pub open spec fn results_ref_ids(rs: Seq<Option<Value>>) -> Seq<HeapId>
    decreases rs.len(),
{
    if rs.len() == 0 {
        Seq::empty()
    } else {
        results_ref_ids(rs.drop_last()) + match rs.last() {
            Some(v) => value_ref_id(v),
            None => Seq::empty(),
        }
    }
}

/// Appends the heap ids of the coroutines among `items`, in order, to `out`.
pub fn collect_items_ref_ids(items: &Vec<GatherItem>, out: &mut Vec<HeapId>)
    ensures
        final(out)@ == old(out)@ + items_ref_ids(items@),
{
    let mut i: usize = 0;
    while i < items.len()
        invariant
            i <= items.len(),
            out@ == old(out)@ + items_ref_ids(items@.subrange(0, i as int)),
        decreases items.len() - i,
    {
        let ghost before = out@;
        match items[i] {
            GatherItem::Coroutine(id) => out.push(id),
            GatherItem::ExternalFuture(_) => {},
        }
        i = i + 1;
        proof {
            let s = items@.subrange(0, i as int);
            assert(s.drop_last() == items@.subrange(0, i - 1));
            assert(s.last() == items@[i - 1]);
            if items@[i - 1] is ExternalFuture {
                assert(before + Seq::<HeapId>::empty() == before);
            }
        }
    }
    assert(items@.subrange(0, items.len() as int) == items@);
}

/// Appends the heap ids held by the filled result slots `rs`, in order, to `out`.
pub fn collect_results_ref_ids(rs: &Vec<Option<Value>>, out: &mut Vec<HeapId>)
    ensures
        final(out)@ == old(out)@ + results_ref_ids(rs@),
{
    let mut i: usize = 0;
    while i < rs.len()
        invariant
            i <= rs.len(),
            out@ == old(out)@ + results_ref_ids(rs@.subrange(0, i as int)),
        decreases rs.len() - i,
    {
        let ghost before = out@;
        match &rs[i] {
            Some(v) => collect_value_ref_id(v, out),
            None => {},
        }
        i = i + 1;
        proof {
            let s = rs@.subrange(0, i as int);
            assert(s.drop_last() == rs@.subrange(0, i - 1));
            assert(s.last() == rs@[i - 1]);
            if rs@[i - 1] is None {
                assert(before + Seq::<HeapId>::empty() == before);
            }
        }
    }
    assert(rs@.subrange(0, rs.len() as int) == rs@);
}

/// Appends the heap id held by `v`, if any, to `out`.
pub fn collect_value_ref_id(v: &Value, out: &mut Vec<HeapId>)
    ensures
        final(out)@ == old(out)@ + value_ref_id(*v),
{
    if let Value::Ref(i) = v {
        out.push(*i);
    } else {
        assert(old(out)@ + Seq::<HeapId>::empty() == old(out)@);
    }
}

/// Appends the heap ids held by `vs`, in order, to `out`.
pub fn collect_values_ref_ids(vs: &Vec<Value>, out: &mut Vec<HeapId>)
    ensures
        final(out)@ == old(out)@ + values_ref_ids(vs@),
{
    let mut i: usize = 0;
    while i < vs.len()
        invariant
            i <= vs.len(),
            out@ == old(out)@ + values_ref_ids(vs@.subrange(0, i as int)),
        decreases vs.len() - i,
    {
        let ghost before = out@;
        collect_value_ref_id(&vs[i], out);
        i = i + 1;
        proof {
            let s = vs@.subrange(0, i as int);
            assert(s.drop_last() == vs@.subrange(0, i - 1));
        }
    }
    assert(vs@.subrange(0, vs.len() as int) == vs@);
}

/// Appends the heap ids held by the pairs `ps`, in order, to `out`.
pub fn collect_pairs_ref_ids(ps: &Vec<(Value, Value)>, out: &mut Vec<HeapId>)
    ensures
        final(out)@ == old(out)@ + pairs_ref_ids(ps@),
{
    let mut i: usize = 0;
    while i < ps.len()
        invariant
            i <= ps.len(),
            out@ == old(out)@ + pairs_ref_ids(ps@.subrange(0, i as int)),
        decreases ps.len() - i,
    {
        let ghost before = out@;
        collect_value_ref_id(&ps[i].0, out);
        collect_value_ref_id(&ps[i].1, out);
        i = i + 1;
        proof {
            let s = ps@.subrange(0, i as int);
            assert(s.drop_last() == ps@.subrange(0, i - 1));
        }
    }
    assert(ps@.subrange(0, ps.len() as int) == ps@);
}

/// Appends the heap ids an object refers to, in order, to `out`.
pub fn collect_data_ref_ids(d: &HeapData, out: &mut Vec<HeapId>)
    ensures
        final(out)@ == old(out)@ + data_ref_ids(*d),
{
    match d {
        HeapData::List(vs) | HeapData::Tuple(vs) | HeapData::PySet(vs) | HeapData::FrozenSet(vs) => collect_values_ref_ids(vs, out),
        HeapData::Dict(ps) => collect_pairs_ref_ids(ps, out),
        HeapData::Iter(it) => collect_value_ref_id(it.value(), out),
        HeapData::Coroutine(c) => collect_values_ref_ids(&c.namespace, out),
        HeapData::GatherFuture(g) => {
            collect_items_ref_ids(&g.items, out);
            collect_results_ref_ids(&g.results, out);
            assert(old(out)@ + items_ref_ids(g.items@) + results_ref_ids(g.results@) == old(out)@ + (items_ref_ids(g.items@) + results_ref_ids(g.results@)));
        },
        _ => {
            assert(old(out)@ + Seq::<HeapId>::empty() == old(out)@);
        },
    }
}

} // verus!
