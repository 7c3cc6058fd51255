//! The decrypted-record cache: at most one record set, with the time it was
//! last used, dropped after a period of idleness.
use std::sync::Arc;
use vstd::prelude::*;
use crate::codec::DbError;
use crate::record::Record;

verus! {

/// A shared, read-only record set.
pub type Records = Arc<Vec<Record>>;

/// The cached record set and when it was last handed out (in seconds).
pub struct CacheRecord {
    pub data: Records,
    time: u64,
}

/// The cache slot in front of the database file.
pub struct CredentialStore {
    slot: Option<CacheRecord>,
}

/// Whether an entry last used at `last` has been idle longer than `max_idle` at `now`.
pub open spec fn idle_too_long(last: u64, now: u64, max_idle: u64) -> bool {
    now > last && now - last > max_idle
}

/// The cache as a value: the record set and when it was last handed out,
/// or nothing.
pub type CacheView = Option<(Records, u64)>;

/// What the warm path of a load does at `now`: a warm cache hands out its
/// record set and is marked used; a cold one gives nothing.
pub open spec fn cached_step(c: CacheView, now: u64) -> (CacheView, Option<Records>) {
    match c {
        Some((d, _)) => (Some((d, now)), Some(d)),
        None => (None, None),
    }
}

/// What a run of loads at the times `times` hands out, one after another,
/// through the warm path.
pub open spec fn cached_run(c: CacheView, times: Seq<u64>) -> Seq<Option<Records>>
    decreases times.len(),
{
    if times.len() == 0 {
        Seq::empty()
    } else {
        let (next, r) = cached_step(c, times[0]);
        seq![r] + cached_run(next, times.drop_first())
    }
}

/// Once a load has filled the cache, any number of later loads are served
/// from it: each hands out that same record set, and none reads the file.
pub proof fn lemma_warm_loads_share(data: Records, last: u64, times: Seq<u64>)
    ensures
        cached_run(Some((data, last)), times).len() == times.len(),
        forall|k: int|
            0 <= k < times.len() ==> #[trigger] cached_run(Some((data, last)), times)[k] == Some(
                data,
            ),
    decreases times.len(),
{
    if times.len() > 0 {
        lemma_warm_loads_share(data, times[0], times.drop_first());
        let rest = cached_run(Some((data, times[0])), times.drop_first());
        assert forall|k: int| 0 <= k < times.len() implies #[trigger] cached_run(
            Some((data, last)),
            times,
        )[k] == Some(data) by {
            if k > 0 {
                assert(cached_run(Some((data, last)), times)[k] == rest[k - 1]);
            }
        }
    }
}

impl CredentialStore {
    /// The cache's content.
    pub closed spec fn slot(&self) -> CacheView {
        match &self.slot {
            Some(c) => Some((c.data, c.time)),
            None => None,
        }
    }

    /// Whether a record set is cached.
    pub open spec fn is_warm(&self) -> bool {
        self.slot() is Some
    }

    /// The cached record set; meaningful only while warm.
    pub open spec fn cached_data(&self) -> Records {
        self.slot()->Some_0.0
    }

    /// When the cached record set was last handed out; meaningful only while warm.
    pub open spec fn last_access(&self) -> u64 {
        self.slot()->Some_0.1
    }

    /// An empty cache.
    pub fn new() -> (r: CredentialStore)
        ensures
            !r.is_warm(),
    {
        CredentialStore { slot: None }
    }

    /// The warm path of a load: when a record set is cached, marks it used at
    /// `now` and hands out a shared handle to it; the password is not checked
    /// again and the file is not read. A cold cache gives `None` and is left
    /// as it was.
    pub fn cached(&mut self, now: u64) -> (r: Option<Records>)
        ensures
            old(self).is_warm() ==> {
                &&& r == Some(old(self).cached_data())
                &&& final(self).is_warm()
                &&& final(self).cached_data() == old(self).cached_data()
                &&& final(self).last_access() == now
            },
            !old(self).is_warm() ==> r is None && *final(self) == *old(self),
            (final(self).slot(), r) == cached_step(old(self).slot(), now),
    {
        match &mut self.slot {
            Some(c) => {
                c.time = now;
                Some(Arc::clone(&c.data))
            },
            None => None,
        }
    }

    /// The cold path of a load, given the outcome of reading, decoding and
    /// parsing the file: a success fills the cache, used at `now`, and hands
    /// out the new record set; a failure leaves the cache as it was and is
    /// passed on.
    pub fn fill(&mut self, loaded: Result<Vec<Record>, DbError>, now: u64) -> (r: Result<Records, DbError>)
        ensures
            match loaded {
                Ok(v) => {
                    &&& r is Ok
                    &&& *r->Ok_0 == v
                    &&& final(self).is_warm()
                    &&& final(self).cached_data() == r->Ok_0
                    &&& final(self).last_access() == now
                },
                Err(e) => r == Err::<Records, DbError>(e) && *final(self) == *old(self),
            },
    {
        match loaded {
            Ok(v) => {
                let data = Arc::new(v);
                let handle = Arc::clone(&data);
                self.slot = Some(CacheRecord { data, time: now });
                Ok(handle)
            },
            Err(e) => Err(e),
        }
    }
}

/// Drops the cached record set when it has been idle longer than `expire`
/// seconds at `now`; otherwise leaves the cache as it is.
pub fn recycle_cache(store: &mut CredentialStore, expire: u64, now: u64)
    ensures
        old(store).is_warm() && idle_too_long(old(store).last_access(), now, expire)
            ==> !final(store).is_warm(),
        !(old(store).is_warm() && idle_too_long(old(store).last_access(), now, expire))
            ==> *final(store) == *old(store),
{
    let idle = match &store.slot {
        Some(c) => now > c.time && now - c.time > expire,
        None => false,
    };
    if idle {
        store.slot = None;
    }
}

} // verus!
