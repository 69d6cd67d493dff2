//! The bounded pool of reusable type-checking databases: a released database is kept
//! only while fewer than eight are pooled, and a checkout takes the most recently
//! released one.
use vstd::prelude::*;

verus! {

/// The most databases the pool keeps.
pub const MAX_POOLED_DBS: usize = 8;

/// A pool of reusable values, most recently released last.
pub struct DbPool<T> {
    dbs: Vec<T>,
}

impl<T> DbPool<T> {
    /// The pooled values, most recently released last.
    pub closed spec fn items(&self) -> Seq<T> {
        self.dbs@
    }

    /// An empty pool.
    pub fn new() -> (r: DbPool<T>)
        ensures
            r.items().len() == 0,
    {
        DbPool { dbs: Vec::new() }
    }

    /// The number of pooled values.
    pub fn len(&self) -> (r: usize)
        ensures
            r == self.items().len(),
    {
        self.dbs.len()
    }

    /// Takes the most recently released value, if any.
    pub fn checkout(&mut self) -> (r: Option<T>)
        ensures
            old(self).items().len() == 0 ==> r is None && final(self).items() == old(self).items(),
            old(self).items().len() > 0 ==> r == Some(old(self).items().last()) && final(self).items() == old(self).items().drop_last(),
    {
        self.dbs.pop()
    }

    /// Returns a value to the pool, which keeps it only while it holds fewer than
    /// [`MAX_POOLED_DBS`]; the value is dropped otherwise.
    pub fn release(&mut self, db: T)
        ensures
            old(self).items().len() < MAX_POOLED_DBS ==> final(self).items() == old(self).items().push(db),
            old(self).items().len() >= MAX_POOLED_DBS ==> final(self).items() == old(self).items(),
    {
        if self.dbs.len() < MAX_POOLED_DBS {
            self.dbs.push(db);
        }
    }
}

/// The pool never holds more than [`MAX_POOLED_DBS`] values, and a value released to
/// a pool with room is the next one checked out.
pub proof fn law_pool_bounded_and_lifo<T>(before: Seq<T>, after_release: Seq<T>, db: T)
    requires
        before.len() <= MAX_POOLED_DBS,
        before.len() < MAX_POOLED_DBS ==> after_release == before.push(db),
        before.len() >= MAX_POOLED_DBS ==> after_release == before,
    ensures
        after_release.len() <= MAX_POOLED_DBS,
        before.len() < MAX_POOLED_DBS ==> after_release.last() == db && after_release.drop_last() == before,
{
    if before.len() < MAX_POOLED_DBS {
        assert(before.push(db).drop_last() == before);
    }
}

} // verus!
