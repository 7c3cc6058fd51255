//! The session table: opaque tokens issued at login, renewed on each use,
//! removed at logout or once expired.
use vstd::prelude::*;
use crate::token::{format_token, lemma_token_round_trip, parse_hex, parse_hex_u64, token_of};

verus! {

/// Relies on rand's `random`: a value drawn from the thread-local generator.
/// Nothing is promised of which value comes back.
pub assume_specification<T>[ rand::random::<T> ]() -> (r: T)
    where
        rand::distributions::Standard: rand::distributions::Distribution<T>,
;

/// How many fresh ids are drawn after a collision before giving up.
pub const MAX_TRY: u16 = 10000;

/// Why a session could not be created.
#[derive(Debug, Clone, Copy, PartialEq, Eq, Structural)]
pub enum SessionError {
    /// Every id drawn was already in use.
    SessionIdExhausted,
}

/// Whether the id `id` appears in the entry list.
pub open spec fn has_id(s: Seq<(u64, u64)>, id: u64) -> bool {
    exists|i: int| 0 <= i < s.len() && (#[trigger] s[i]).0 == id
}

/// Whether no id appears twice in the entry list.
pub open spec fn ids_unique(s: Seq<(u64, u64)>) -> bool {
    forall|i: int, j: int| 0 <= i < s.len() && 0 <= j < s.len() && i != j ==> (#[trigger] s[i]).0 != (#[trigger] s[j]).0
}

/// The entry list as a map from session id to expiry time.
pub open spec fn table_map(s: Seq<(u64, u64)>) -> Map<u64, u64> {
    Map::new(
        |id: u64| has_id(s, id),
        |id: u64| s[choose|i: int| 0 <= i < s.len() && (#[trigger] s[i]).0 == id].1,
    )
}

/// `now + ttl`, or the largest time when that does not fit.
pub open spec fn expiry_at(now: u64, ttl: u64) -> u64 {
    if now + ttl > u64::MAX { u64::MAX } else { (now + ttl) as u64 }
}

/// Whether the session `id` is live at `now` in the table `m`.
pub open spec fn is_live(m: Map<u64, u64>, id: u64, now: u64) -> bool {
    m.contains_key(id) && m[id] > now
}

/// Whether the token `t` names a session live at `now` in the table `m`.
pub open spec fn token_valid(m: Map<u64, u64>, t: Seq<char>, now: u64) -> bool {
    match parse_hex_u64(t) {
        Some(id) => is_live(m, id, now),
        None => false,
    }
}

/// The table `m` with the sessions expired at `now` taken out.
pub open spec fn live_part(m: Map<u64, u64>, now: u64) -> Map<u64, u64> {
    Map::new(|id: u64| m.contains_key(id) && m[id] > now, |id: u64| m[id])
}

proof fn lemma_value_at(s: Seq<(u64, u64)>, i: int)
    requires
        ids_unique(s),
        0 <= i < s.len(),
    ensures
        table_map(s).contains_key(s[i].0),
        table_map(s)[s[i].0] == s[i].1,
{
    assert(has_id(s, s[i].0));
    let j = choose|j: int| 0 <= j < s.len() && (#[trigger] s[j]).0 == s[i].0;
    assert(j == i);
}

/// The table of issued sessions, each with its expiry time.
pub struct SessionManager {
    entries: Vec<(u64, u64)>,
    ttl: u64,
}

impl SessionManager {
    /// Session ids mapped to their expiry times.
    pub closed spec fn sessions(&self) -> Map<u64, u64> {
        table_map(self.entries@)
    }

    /// How long a session lives after its last use, in seconds.
    pub closed spec fn spec_ttl(&self) -> u64 {
        self.ttl
    }

    /// The table's invariant: no id is held twice.
    pub closed spec fn wf(&self) -> bool {
        ids_unique(self.entries@)
    }

    /// An empty table whose sessions live `ttl` seconds after their last use.
    pub fn new(ttl: u64) -> (r: SessionManager)
        ensures
            r.wf(),
            r.sessions() == Map::<u64, u64>::empty(),
            r.spec_ttl() == ttl,
    {
        let r = SessionManager { entries: Vec::new(), ttl };
        assert(r.sessions() =~= Map::<u64, u64>::empty());
        r
    }

    /// How long a session lives after its last use, in seconds.
    pub fn ttl(&self) -> (r: u64)
        ensures
            r == self.spec_ttl(),
    {
        self.ttl
    }

    fn find(&self, id: u64) -> (r: Option<usize>)
        ensures
            match r {
                Some(i) => i < self.entries@.len() && self.entries@[i as int].0 == id,
                None => !has_id(self.entries@, id),
            },
    {
        let mut i: usize = 0;
        while i < self.entries.len()
            invariant
                i <= self.entries@.len(),
                forall|k: int| 0 <= k < i ==> (#[trigger] self.entries@[k]).0 != id,
            decreases self.entries@.len() - i,
        {
            if self.entries[i].0 == id {
                return Some(i);
            }
            i = i + 1;
        }
        None
    }

    /// Registers the candidate id `id` at `now`, unless it is already in the
    /// table; gives the new session's token.
    pub fn try_create(&mut self, id: u64, now: u64) -> (r: Option<String>)
        requires
            old(self).wf(),
        ensures
            final(self).wf(),
            final(self).spec_ttl() == old(self).spec_ttl(),
            old(self).sessions().contains_key(id) ==> r is None && final(self).sessions() == old(
                self,
            ).sessions(),
            !old(self).sessions().contains_key(id) ==> {
                &&& r is Some
                &&& r->Some_0@ == token_of(id)
                &&& final(self).sessions() == old(self).sessions().insert(
                    id,
                    expiry_at(now, old(self).spec_ttl()),
                )
            },
    {
        match self.find(id) {
            Some(_) => None,
            None => {
                let exp = now.saturating_add(self.ttl);
                let ghost s = self.entries@;
                self.entries.push((id, exp));
                proof {
                    let t = self.entries@;
                    assert(t.len() == s.len() + 1);
                    assert(forall|k: int| 0 <= k < s.len() ==> t[k] == s[k]);
                    assert(ids_unique(t)) by {
                        assert forall|a: int, b: int|
                            0 <= a < t.len() && 0 <= b < t.len() && a != b implies (#[trigger] t[a]).0
                            != (#[trigger] t[b]).0 by {
                            if a == s.len() {
                                assert(t[b] == s[b]);
                            } else if b == s.len() {
                                assert(t[a] == s[a]);
                            } else {
                                assert(t[a] == s[a] && t[b] == s[b]);
                            }
                        }
                    }
                    let m = table_map(s).insert(id, exp);
                    assert forall|k: u64| #[trigger] table_map(t).contains_key(k) == m.contains_key(k) by {
                        if has_id(t, k) && k != id {
                            let j = choose|j: int| 0 <= j < t.len() && (#[trigger] t[j]).0 == k;
                            assert(j < s.len());
                            assert(s[j].0 == k);
                        }
                        if has_id(s, k) {
                            let j = choose|j: int| 0 <= j < s.len() && (#[trigger] s[j]).0 == k;
                            assert(t[j].0 == k);
                        }
                        if k == id {
                            assert(t[s.len() as int].0 == k);
                        }
                    }
                    assert forall|k: u64| #[trigger] m.contains_key(k) implies table_map(t)[k] == m[k] by {
                        if k == id {
                            lemma_value_at(t, s.len() as int);
                        } else {
                            let j = choose|j: int| 0 <= j < s.len() && (#[trigger] s[j]).0 == k;
                            lemma_value_at(s, j);
                            lemma_value_at(t, j);
                        }
                    }
                    assert(table_map(t) =~= m);
                }
                Some(format_token(id))
            },
        }
    }

    /// Creates a session at `now` under a freshly drawn random id, drawing
    /// again while the id is already in the table, at most `MAX_TRY` times
    /// more; gives its token.
    pub fn create(&mut self, now: u64) -> (r: Result<String, SessionError>)
        requires
            old(self).wf(),
        ensures
            final(self).wf(),
            final(self).spec_ttl() == old(self).spec_ttl(),
            match r {
                Ok(t) => exists|id: u64|
                    {
                        &&& !old(self).sessions().contains_key(id)
                        &&& t@ == #[trigger] token_of(id)
                        &&& final(self).sessions() == old(self).sessions().insert(
                            id,
                            expiry_at(now, old(self).spec_ttl()),
                        )
                    },
                Err(e) => e == SessionError::SessionIdExhausted && final(self).sessions() == old(
                    self,
                ).sessions(),
            },
            r is Err ==> exists|k: u64| old(self).sessions().contains_key(k),
    {
        let mut count: u16 = 0;
        loop
            invariant
                self.wf(),
                self.sessions() == old(self).sessions(),
                self.spec_ttl() == old(self).spec_ttl(),
                count <= MAX_TRY,
                count > 0 ==> exists|k: u64| old(self).sessions().contains_key(k),
            decreases MAX_TRY - count,
        {
            let id: u64 = rand::random::<u64>();
            match self.try_create(id, now) {
                Some(t) => {
                    return Ok(t);
                },
                None => {
                    assert(old(self).sessions().contains_key(id));
                    if count >= MAX_TRY {
                        return Err(SessionError::SessionIdExhausted);
                    }
                    count = count + 1;
                },
            }
        }
    }

    /// Whether the session `id` is live at `now`; a live session has its
    /// expiry slid forward to `now` plus the time to live.
    pub fn check_session(&mut self, id: u64, now: u64) -> (r: bool)
        requires
            old(self).wf(),
        ensures
            final(self).wf(),
            final(self).spec_ttl() == old(self).spec_ttl(),
            r == is_live(old(self).sessions(), id, now),
            r ==> final(self).sessions() == old(self).sessions().insert(
                id,
                expiry_at(now, old(self).spec_ttl()),
            ),
            !r ==> final(self).sessions() == old(self).sessions(),
    {
        match self.find(id) {
            None => {
                false
            },
            Some(i) => {
                proof {
                    lemma_value_at(self.entries@, i as int);
                }
                if self.entries[i].1 > now {
                    let exp = now.saturating_add(self.ttl);
                    let ghost s = self.entries@;
                    self.entries.set(i, (id, exp));
                    proof {
                        let t = self.entries@;
                        assert(forall|k: int| 0 <= k < s.len() && k != i ==> t[k] == s[k]);
                        assert(ids_unique(t)) by {
                            assert forall|a: int, b: int|
                                0 <= a < t.len() && 0 <= b < t.len() && a != b implies (#[trigger] t[a]).0
                                != (#[trigger] t[b]).0 by {
                                assert(t[a].0 == s[a].0 && t[b].0 == s[b].0);
                            }
                        }
                        let m = table_map(s).insert(id, exp);
                        assert forall|k: u64| #[trigger] table_map(t).contains_key(k) == m.contains_key(k) by {
                            if has_id(t, k) {
                                let j = choose|j: int| 0 <= j < t.len() && (#[trigger] t[j]).0 == k;
                                assert(s[j].0 == k);
                            }
                            if has_id(s, k) {
                                let j = choose|j: int| 0 <= j < s.len() && (#[trigger] s[j]).0 == k;
                                assert(t[j].0 == k);
                            }
                        }
                        assert forall|k: u64| #[trigger] m.contains_key(k) implies table_map(t)[k] == m[k] by {
                            assert(table_map(t).contains_key(k));
                            assert(has_id(t, k));
                            let j = choose|j: int| 0 <= j < t.len() && (#[trigger] t[j]).0 == k;
                            lemma_value_at(t, j);
                            if k != id {
                                assert(s[j].0 == k);
                                lemma_value_at(s, j);
                            }
                        }
                        assert(table_map(t) =~= m);
                    }
                    true
                } else {
                    false
                }
            },
        }
    }

    /// Whether the token names a session live at `now`; a live session is
    /// renewed. Text that is no token is simply not valid.
    pub fn validate(&mut self, token: &str, now: u64) -> (r: bool)
        requires
            old(self).wf(),
        ensures
            final(self).wf(),
            final(self).spec_ttl() == old(self).spec_ttl(),
            r == token_valid(old(self).sessions(), token@, now),
            r ==> final(self).sessions() == old(self).sessions().insert(
                parse_hex_u64(token@)->Some_0,
                expiry_at(now, old(self).spec_ttl()),
            ),
            !r ==> final(self).sessions() == old(self).sessions(),
    {
        match parse_hex(token) {
            Some(id) => self.check_session(id, now),
            None => false,
        }
    }

    /// Ends the session `id`; ending one that is not there changes nothing.
    pub fn remove(&mut self, id: u64)
        requires
            old(self).wf(),
        ensures
            final(self).wf(),
            final(self).spec_ttl() == old(self).spec_ttl(),
            final(self).sessions() == old(self).sessions().remove(id),
    {
        match self.find(id) {
            None => {
                assert(table_map(self.entries@) =~= table_map(self.entries@).remove(id));
            },
            Some(i) => {
                let ghost s = self.entries@;
                proof {
                    lemma_value_at(s, i as int);
                }
                self.entries.remove(i);
                proof {
                    let t = self.entries@;
                    assert(t =~= s.remove(i as int));
                    assert(forall|k: int| 0 <= k < i ==> t[k] == s[k]);
                    assert(forall|k: int| i <= k < t.len() ==> t[k] == s[k + 1]);
                    assert(ids_unique(t)) by {
                        assert forall|a: int, b: int|
                            0 <= a < t.len() && 0 <= b < t.len() && a != b implies (#[trigger] t[a]).0
                            != (#[trigger] t[b]).0 by {
                            let a2 = if a < i { a } else { a + 1 };
                            let b2 = if b < i { b } else { b + 1 };
                            assert(t[a] == s[a2] && t[b] == s[b2]);
                        }
                    }
                    let m = table_map(s).remove(id);
                    assert forall|k: u64| #[trigger] table_map(t).contains_key(k) == m.contains_key(k) by {
                        if has_id(t, k) {
                            let j = choose|j: int| 0 <= j < t.len() && (#[trigger] t[j]).0 == k;
                            let j2 = if j < i { j } else { j + 1 };
                            assert(s[j2].0 == k);
                            assert(j2 != i);
                        }
                        if has_id(s, k) && k != id {
                            let j = choose|j: int| 0 <= j < s.len() && (#[trigger] s[j]).0 == k;
                            assert(j != i);
                            let j2 = if j < i { j } else { j - 1 };
                            assert(t[j2].0 == k);
                        }
                    }
                    assert forall|k: u64| #[trigger] m.contains_key(k) implies table_map(t)[k] == m[k] by {
                        assert(table_map(t).contains_key(k));
                        assert(has_id(t, k));
                        let j = choose|j: int| 0 <= j < t.len() && (#[trigger] t[j]).0 == k;
                        let j2 = if j < i { j } else { j + 1 };
                        lemma_value_at(t, j);
                        lemma_value_at(s, j2);
                    }
                    assert(table_map(t) =~= m);
                }
            },
        }
    }

    /// Takes out every session whose expiry is at or before `now`.
    pub fn recycle(&mut self, now: u64)
        requires
            old(self).wf(),
        ensures
            final(self).wf(),
            final(self).spec_ttl() == old(self).spec_ttl(),
            final(self).sessions() == live_part(old(self).sessions(), now),
    {
        let ghost s = self.entries@;
        let ghost mut src: Seq<int> = Seq::empty();
        let mut kept: Vec<(u64, u64)> = Vec::new();
        let mut i: usize = 0;
        while i < self.entries.len()
            invariant
                s == self.entries@,
                ids_unique(s),
                i <= s.len(),
                ids_unique(kept@),
                src.len() == kept@.len(),
                forall|m: int|
                    0 <= m < kept@.len() ==> 0 <= #[trigger] src[m] < i && kept@[m] == s[src[m]]
                        && s[src[m]].1 > now,
                forall|j: int|
                    0 <= j < i && #[trigger] s[j].1 > now ==> exists|m: int|
                        0 <= m < kept@.len() && src[m] == j,
            decreases s.len() - i,
        {
            let e = self.entries[i];
            if e.1 > now {
                let ghost before = kept@;
                let ghost src0 = src;
                kept.push(e);
                proof {
                    src = src.push(i as int);
                    let t = kept@;
                    assert(forall|m: int| 0 <= m < before.len() ==> t[m] == before[m]);
                    assert(forall|m: int| 0 <= m < before.len() ==> src[m] == src0[m]);
                    assert(ids_unique(t)) by {
                        assert forall|a: int, b: int|
                            0 <= a < t.len() && 0 <= b < t.len() && a != b implies (#[trigger] t[a]).0
                            != (#[trigger] t[b]).0 by {
                            if a == before.len() {
                                assert(t[b] == before[b]);
                                assert(src0[b] < i);
                            } else if b == before.len() {
                                assert(t[a] == before[a]);
                                assert(src0[a] < i);
                            } else {
                                assert(t[a] == before[a] && t[b] == before[b]);
                            }
                        }
                    }
                    assert forall|j: int| 0 <= j < i + 1 && #[trigger] s[j].1 > now implies exists|m: int|
                        0 <= m < t.len() && src[m] == j by {
                        if j < i {
                            let m = choose|m: int| 0 <= m < before.len() && src0[m] == j;
                            assert(src[m] == j);
                        } else {
                            assert(src[before.len() as int] == j);
                        }
                    }
                }
            }
            i = i + 1;
        }
        proof {
            let t = kept@;
            let m = live_part(table_map(s), now);
            assert forall|k: u64| #[trigger] table_map(t).contains_key(k) == m.contains_key(k) by {
                if has_id(t, k) {
                    let a = choose|a: int| 0 <= a < t.len() && (#[trigger] t[a]).0 == k;
                    let j = src[a];
                    lemma_value_at(s, j);
                }
                if m.contains_key(k) {
                    let j = choose|j: int| 0 <= j < s.len() && (#[trigger] s[j]).0 == k;
                    lemma_value_at(s, j);
                    assert(s[j].1 > now);
                    let a = choose|a: int| 0 <= a < t.len() && src[a] == j;
                    assert(t[a].0 == k);
                }
            }
            assert forall|k: u64| #[trigger] m.contains_key(k) implies table_map(t)[k] == m[k] by {
                assert(table_map(t).contains_key(k));
                assert(has_id(t, k));
                let a = choose|a: int| 0 <= a < t.len() && (#[trigger] t[a]).0 == k;
                let j = src[a];
                lemma_value_at(s, j);
                lemma_value_at(t, a);
            }
            assert(table_map(t) =~= m);
        }
        self.entries = kept;
    }
}

/// A session created at `now` under an id not in the table `m`: its token
/// differs from the token of every session already there and reads back as
/// its id; it is valid at once and at any time `mid` before its time to live
/// has passed, a use at `mid` moving its expiry to `mid` plus the time to
/// live where that fits; it is no longer valid once its time to live has passed without use,
/// and it is not valid after the session is removed.
pub proof fn lemma_session_lifecycle(
    m: Map<u64, u64>,
    id: u64,
    now: u64,
    ttl: u64,
    mid: u64,
    later: u64,
)
    requires
        !m.contains_key(id),
        ttl > 0,
        now + ttl <= u64::MAX,
        now <= mid < now + ttl,
        later >= now + ttl,
    ensures
        forall|k: u64| m.contains_key(k) ==> #[trigger] token_of(k) != token_of(id),
        token_valid(m.insert(id, expiry_at(now, ttl)), token_of(id), now),
        parse_hex_u64(token_of(id)) == Some(id),
        token_valid(m.insert(id, expiry_at(now, ttl)), token_of(id), mid),
        is_live(m.insert(id, expiry_at(now, ttl)), id, mid),
        mid + ttl <= u64::MAX ==> m.insert(id, expiry_at(now, ttl)).insert(id, expiry_at(mid, ttl))[id]
            == mid + ttl,
        !token_valid(m.insert(id, expiry_at(now, ttl)), token_of(id), later),
        !token_valid(m.insert(id, expiry_at(now, ttl)).remove(id), token_of(id), now),
{
    lemma_token_round_trip(id);
    assert forall|k: u64| m.contains_key(k) implies #[trigger] token_of(k) != token_of(id) by {
        lemma_token_round_trip(k);
    }
}

} // verus!
