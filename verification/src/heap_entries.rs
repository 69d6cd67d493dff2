//! Slot storage for heap entries with a free list of reusable slot ids.
//!
//! Slot `i` holds `Some(value)` while allocated and `None` once freed. Freed ids
//! are kept on a free list and handed out again (most recently freed first) by
//! [`HeapEntries::allocate`], so long-running loops that allocate and free keep
//! memory use roughly constant. Ids are never invalidated by later allocations.
use vstd::prelude::*;

verus! {

/// Number of entries per page; `with_capacity` reserves whole pages.
pub const PAGE_SIZE: usize = 256;

/// Storage for heap entries addressed by slot id.
pub struct HeapEntries<T> {
    /// One slot per id ever handed out; `None` once freed.
    slots: Vec<Option<T>>,
    /// Ids of freed slots available for reuse, most recently freed last.
    free_list: Vec<usize>,
}

impl<T> HeapEntries<T> {
    /// The contents of every slot, indexed by id.
    pub closed spec fn slots(&self) -> Seq<Option<T>> {
        self.slots@
    }

    /// The free list, most recently freed id last.
    pub closed spec fn free_ids(&self) -> Seq<usize> {
        self.free_list@
    }

    /// Every id on the free list names an existing, empty slot, and no id appears twice.
    pub open spec fn wf(&self) -> bool {
        &&& forall|k: int|
            0 <= k < self.free_ids().len() ==> #[trigger] self.free_ids()[k] < self.slots().len()
                && self.slots()[self.free_ids()[k] as int] is None
        &&& forall|a: int, b: int|
            0 <= a < b < self.free_ids().len() ==> #[trigger] self.free_ids()[a]
                != #[trigger] self.free_ids()[b]
    }

    /// Creates empty storage with room reserved for `capacity` entries, rounded up
    /// to whole pages.
    pub fn with_capacity(capacity: usize) -> (r: Self)
        ensures
            r.slots() == Seq::<Option<T>>::empty(),
            r.free_ids() == Seq::<usize>::empty(),
            r.wf(),
    {
        let num_pages = capacity / PAGE_SIZE + if capacity % PAGE_SIZE == 0 { 0 } else { 1 };
        let reserve = if num_pages <= usize::MAX / PAGE_SIZE { num_pages * PAGE_SIZE } else { capacity };
        HeapEntries { slots: Vec::with_capacity(reserve), free_list: Vec::new() }
    }

    /// Rebuilds storage from a flat list of slots: every empty slot becomes a
    /// reusable id, listed in increasing order.
    pub fn from_entries(entries: Vec<Option<T>>) -> (r: Self)
        ensures
            r.slots() == entries@,
            r.wf(),
            forall|i: int| 0 <= i < entries@.len() ==> (entries@[i] is None <==> r.free_ids().contains(i as usize)),
            forall|a: int, b: int|
                0 <= a < b < r.free_ids().len() ==> r.free_ids()[a] < r.free_ids()[b],
    {
        let mut free_list: Vec<usize> = Vec::new();
        let mut i: usize = 0;
        while i < entries.len()
            invariant
                i <= entries.len(),
                forall|k: int|
                    0 <= k < free_list@.len() ==> #[trigger] free_list@[k] < i && entries@[free_list@[k] as int] is None,
                forall|a: int, b: int| 0 <= a < b < free_list@.len() ==> free_list@[a] < free_list@[b],
                forall|j: int| 0 <= j < i ==> (entries@[j] is None <==> free_list@.contains(j as usize)),
            decreases entries.len() - i,
        {
            let ghost before = free_list@;
            if entries[i].is_none() {
                free_list.push(i);
                assert(free_list@[free_list@.len() - 1] == i);
            }
            proof {
                assert forall|j: int| 0 <= j <= i implies (entries@[j] is None <==> free_list@.contains(j as usize)) by {
                    if j < i {
                        if before.contains(j as usize) {
                            let k = choose|k: int| 0 <= k < before.len() && before[k] == j as usize;
                            assert(free_list@[k] == j as usize);
                        }
                        if free_list@.contains(j as usize) {
                            let k = choose|k: int| 0 <= k < free_list@.len() && free_list@[k] == j as usize;
                            if k < before.len() {
                                assert(before[k] == j as usize);
                            }
                        }
                    } else {
                        if free_list@.contains(j as usize) {
                            let k = choose|k: int| 0 <= k < free_list@.len() && free_list@[k] == j as usize;
                            if k < before.len() {
                                assert(before[k] < i);
                            }
                        }
                    }
                }
            }
            i = i + 1;
        }
        let r = HeapEntries { slots: entries, free_list };
        assert forall|a: int, b: int| 0 <= a < b < r.free_ids().len() implies r.free_ids()[a] != r.free_ids()[b] by {}
        r
    }

    /// The number of slots ever handed out, freed ones included.
    pub fn len(&self) -> (r: usize)
        ensures
            r == self.slots().len(),
    {
        self.slots.len()
    }

    /// The number of ids on the free list.
    pub fn free_len(&self) -> (r: usize)
        ensures
            r == self.free_ids().len(),
    {
        self.free_list.len()
    }

    /// Whether slot `index` currently holds a value.
    pub fn is_allocated(&self, index: usize) -> (r: bool)
        requires
            index < self.slots().len(),
        ensures
            r == self.slots()[index as int] is Some,
    {
        self.slots[index].is_some()
    }

    /// The value held in slot `index`.
    pub fn get(&self, index: usize) -> (r: &T)
        requires
            index < self.slots().len(),
            self.slots()[index as int] is Some,
        ensures
            Some(*r) == self.slots()[index as int],
    {
        self.slots[index].as_ref().unwrap()
    }

    /// Mutable access to slot `index`; writing `None` frees the value but not the id,
    /// which is returned to the free list by [`HeapEntries::free`].
    pub fn get_mut(&mut self, index: usize) -> (r: &mut Option<T>)
        requires
            index < old(self).slots().len(),
        ensures
            *r == old(self).slots()[index as int],
            final(self).slots() == old(self).slots().update(index as int, *final(r)),
            final(self).free_ids() == old(self).free_ids(),
    {
        &mut self.slots[index]
    }

    /// Stores `value`, reusing the most recently freed slot if there is one and
    /// appending a new slot otherwise, and returns its id.
    pub fn allocate(&mut self, value: T) -> (id: usize)
        requires
            old(self).wf(),
            old(self).free_ids().len() > 0 || old(self).slots().len() < usize::MAX,
        ensures
            final(self).wf(),
            old(self).free_ids().len() > 0 ==> {
                &&& id == old(self).free_ids().last()
                &&& final(self).free_ids() == old(self).free_ids().drop_last()
                &&& final(self).slots() == old(self).slots().update(id as int, Some(value))
            },
            old(self).free_ids().len() == 0 ==> {
                &&& id == old(self).slots().len()
                &&& final(self).free_ids() == old(self).free_ids()
                &&& final(self).slots() == old(self).slots().push(Some(value))
            },
    {
        match self.free_list.pop() {
            Some(id) => {
                proof {
                    assert(old(self).free_ids()[old(self).free_ids().len() - 1] == id);
                }
                self.slots.set(id, Some(value));
                proof {
                    let f = self.free_list@;
                    assert forall|k: int| 0 <= k < f.len() implies #[trigger] f[k] < self.slots@.len()
                        && self.slots@[f[k] as int] is None by {
                        assert(old(self).free_ids()[k] != old(self).free_ids()[old(self).free_ids().len() - 1]);
                    }
                }
                id
            },
            None => {
                let id = self.slots.len();
                self.slots.push(Some(value));
                id
            },
        }
    }

    /// Returns a freed slot id to the free list for reuse.
    pub fn free(&mut self, id: usize)
        requires
            old(self).wf(),
            id < old(self).slots().len(),
            old(self).slots()[id as int] is None,
            !old(self).free_ids().contains(id),
        ensures
            final(self).wf(),
            final(self).slots() == old(self).slots(),
            final(self).free_ids() == old(self).free_ids().push(id),
    {
        self.free_list.push(id);
        proof {
            let f = self.free_list@;
            assert forall|a: int, b: int| 0 <= a < b < f.len() implies #[trigger] f[a] != #[trigger] f[b] by {
                if b == f.len() - 1 {
                    assert(old(self).free_ids()[a] == f[a]);
                }
            }
        }
    }

    /// Frees every allocated slot whose value fails `keep`, pushing its id onto the
    /// free list in increasing id order.
    pub fn retain<F: Fn(usize, &T) -> bool>(&mut self, keep: F)
        requires
            old(self).wf(),
            forall|i: usize, v: &T| #[trigger] keep.requires((i, v)),
        ensures
            final(self).wf(),
            final(self).slots().len() == old(self).slots().len(),
            forall|i: int|
                0 <= i < old(self).slots().len() ==> {
                    let before = old(self).slots()[i];
                    let after = #[trigger] final(self).slots()[i];
                    (before is None ==> after is None) && (before is Some ==> (after == before
                        || (after is None && final(self).free_ids().contains(i as usize))))
                },
            forall|i: int|
                0 <= i < old(self).slots().len() && old(self).slots()[i] is Some
                    && #[trigger] final(self).slots()[i] is None ==> keep.ensures((i as usize, &old(self).slots()[i]->0), false),
            forall|i: int|
                0 <= i < old(self).slots().len() && old(self).slots()[i] is Some
                    && #[trigger] final(self).slots()[i] is Some ==> keep.ensures((i as usize, &old(self).slots()[i]->0), true),
            old(self).free_ids().is_prefix_of(final(self).free_ids()),
    {
        let len = self.slots.len();
        let mut i: usize = 0;
        while i < len
            invariant
                len == old(self).slots().len(),
                len == self.slots@.len(),
                i <= len,
                self.wf(),
                forall|k: usize, v: &T| #[trigger] keep.requires((k, v)),
                forall|j: int| i <= j < len ==> #[trigger] self.slots@[j] == old(self).slots()[j],
                forall|k: int| 0 <= k < self.free_list@.len() && #[trigger] self.free_list@[k] >= i ==> k < old(self).free_ids().len(),
                forall|j: int|
                    0 <= j < i ==> {
                        let before = old(self).slots()[j];
                        let after = #[trigger] self.slots@[j];
                        (before is None ==> after is None) && (before is Some ==> (after == before
                            || (after is None && self.free_list@.contains(j as usize))))
                    },
                forall|j: int|
                    0 <= j < i && old(self).slots()[j] is Some && #[trigger] self.slots@[j] is None
                        ==> keep.ensures((j as usize, &old(self).slots()[j]->0), false),
                forall|j: int|
                    0 <= j < i && old(self).slots()[j] is Some && #[trigger] self.slots@[j] is Some
                        ==> keep.ensures((j as usize, &old(self).slots()[j]->0), true),
                old(self).free_ids().is_prefix_of(self.free_list@),
            decreases len - i,
        {
            let is_some = self.slots[i].is_some();
            if is_some {
                let keep_it = keep(i, self.slots[i].as_ref().unwrap());
                if !keep_it {
                    proof {
                        assert(!self.free_list@.contains(i)) by {
                            if self.free_list@.contains(i) {
                                let k = choose|k: int| 0 <= k < self.free_list@.len() && self.free_list@[k] == i;
                                assert(k < old(self).free_ids().len());
                                assert(old(self).free_ids()[k] == self.free_list@[k]);
                            }
                        }
                    }
                    self.slots.set(i, None);
                    let ghost before_free = self.free_list@;
                    self.free_list.push(i);
                    proof {
                        let f = self.free_list@;
                        assert forall|a: int, b: int| 0 <= a < b < f.len() implies #[trigger] f[a] != #[trigger] f[b] by {
                            if b == f.len() - 1 {
                                assert(before_free[a] == f[a]);
                            }
                        }
                        assert forall|j: int| 0 <= j < i && before_free.contains(j as usize) implies #[trigger] self.free_list@.contains(j as usize) by {
                            {
                                let k = choose|k: int| 0 <= k < before_free.len() && before_free[k] == j as usize;
                                assert(self.free_list@[k] == j as usize);
                            }
                        }
                        assert(self.free_list@[self.free_list@.len() - 1] == i);
                        assert(old(self).free_ids().is_prefix_of(self.free_list@)) by {
                            assert forall|k: int| 0 <= k < old(self).free_ids().len() implies old(self).free_ids()[k] == self.free_list@[k] by {
                                assert(before_free[k] == self.free_list@[k]);
                            }
                        }
                    }
                }
            }
            i = i + 1;
        }
    }
}

} // verus!
