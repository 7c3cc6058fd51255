//! The admission decision for a request: public paths pass; every other
//! path needs a session token, a request count within the limit, and a live
//! session.
use vstd::prelude::*;
use crate::limiter::{limit_step, RateLimiter};
use crate::session::{expiry_at, is_live, live_part, SessionError, SessionManager};
use crate::token::{parse_hex, parse_hex_u64, token_of};

verus! {

/// What is done with a request.
#[derive(Debug, Clone, Copy, PartialEq, Eq, Structural)]
pub enum Decision {
    /// The request goes on to its handler.
    Allow,
    /// The request is refused as unauthorized.
    Deny,
}

/// The admission rules; the tables they consult are passed in.
pub struct Authentication;

/// Whether `s` begins with `prefix`.
pub open spec fn has_prefix(s: Seq<char>, prefix: Seq<char>) -> bool {
    prefix.len() <= s.len() && s.subrange(0, prefix.len() as int) == prefix
}

/// Whether requests for `path` must carry a live session: the API paths
/// other than ping, login and logout.
pub open spec fn needs_session(path: Seq<char>) -> bool {
    has_prefix(path, "/api/"@) && path != "/api/ping"@ && path != "/api/login"@ && path
        != "/api/logout"@
}

/// The session id that an `Authorization` header value carries:
/// `session ` followed by the id in hexadecimal.
pub open spec fn header_session_id(h: Seq<char>) -> Option<u64> {
    if has_prefix(h, "session "@) {
        parse_hex_u64(h.subrange("session "@.len() as int, h.len() as int))
    } else {
        None
    }
}

/// The session id of a request, if its header carries one.
pub open spec fn request_session_id(header: Option<Seq<char>>) -> Option<u64> {
    match header {
        Some(h) => header_session_id(h),
        None => None,
    }
}

/// Whether `s` begins with `prefix`.
pub fn starts_with(s: &str, prefix: &str) -> (r: bool)
    ensures
        r == has_prefix(s@, prefix@),
{
    let n = s.unicode_len();
    let p = prefix.unicode_len();
    if p > n {
        return false;
    }
    let mut i: usize = 0;
    while i < p
        invariant
            p == prefix@.len(),
            n == s@.len(),
            p <= n,
            i <= p,
            forall|k: int| 0 <= k < i ==> s@[k] == prefix@[k],
        decreases p - i,
    {
        if s.get_char(i) != prefix.get_char(i) {
            assert(s@.subrange(0, p as int)[i as int] != prefix@[i as int]);
            return false;
        }
        i = i + 1;
    }
    assert(s@.subrange(0, p as int) =~= prefix@);
    true
}

/// Whether `a` and `b` are the same text.
pub fn same_text(a: &str, b: &str) -> (r: bool)
    ensures
        r == (a@ == b@),
{
    if a.unicode_len() != b.unicode_len() {
        return false;
    }
    let r = starts_with(a, b);
    assert(a@.subrange(0, b@.len() as int) =~= a@);
    r
}

impl Authentication {
    /// Whether requests for `path` must carry a live session.
    pub fn require_authentication(path: &str) -> (r: bool)
        ensures
            r == needs_session(path@),
    {
        starts_with(path, "/api/") && !same_text(path, "/api/ping") && !same_text(
            path,
            "/api/login",
        ) && !same_text(path, "/api/logout")
    }

    /// The session id that an `Authorization` header value carries.
    pub fn get_session_id(header: Option<&str>) -> (r: Option<u64>)
        ensures
            r == request_session_id(
                match header {
                    Some(h) => Some(h@),
                    None => None,
                },
            ),
    {
        match header {
            None => None,
            Some(h) => {
                let prefix = "session ";
                if !starts_with(h, prefix) {
                    return None;
                }
                let p = prefix.unicode_len();
                let n = h.unicode_len();
                let rest = h.substring_char(p, n);
                parse_hex(rest)
            },
        }
    }

    /// Ends the session that the header names, if it names one.
    pub fn remove_session_id(header: Option<&str>, sessions: &mut SessionManager)
        requires
            old(sessions).wf(),
        ensures
            final(sessions).wf(),
            final(sessions).spec_ttl() == old(sessions).spec_ttl(),
            ({
                let id = request_session_id(
                    match header {
                        Some(h) => Some(h@),
                        None => None,
                    },
                );
                match id {
                    Some(i) => final(sessions).sessions() == old(sessions).sessions().remove(i),
                    None => final(sessions).sessions() == old(sessions).sessions(),
                }
            }),
    {
        if let Some(id) = Self::get_session_id(header) {
            sessions.remove(id);
        }
    }

    /// Opens a session at `now` under a fresh random id and gives its token.
    pub fn session_id(sessions: &mut SessionManager, now: u64) -> (r: Result<String, SessionError>)
        requires
            old(sessions).wf(),
        ensures
            final(sessions).wf(),
            final(sessions).spec_ttl() == old(sessions).spec_ttl(),
            match r {
                Ok(t) => exists|id: u64|
                    {
                        &&& !old(sessions).sessions().contains_key(id)
                        &&& t@ == #[trigger] token_of(id)
                        &&& final(sessions).sessions() == old(sessions).sessions().insert(
                            id,
                            expiry_at(now, old(sessions).spec_ttl()),
                        )
                    },
                Err(e) => e == SessionError::SessionIdExhausted && final(sessions).sessions()
                    == old(sessions).sessions(),
            },
            r is Err ==> exists|k: u64| old(sessions).sessions().contains_key(k),
    {
        sessions.create(now)
    }

    /// Takes out every session that has expired at `now`.
    pub fn recycle(sessions: &mut SessionManager, now: u64)
        requires
            old(sessions).wf(),
        ensures
            final(sessions).wf(),
            final(sessions).spec_ttl() == old(sessions).spec_ttl(),
            final(sessions).sessions() == live_part(old(sessions).sessions(), now),
    {
        sessions.recycle(now);
    }

    /// Decides on a request for `path` from the address `ip` at `now`,
    /// carrying the `Authorization` header value `header`. Public paths are
    /// let through with no table touched. Otherwise a request without a
    /// session id is refused; one that goes over the rate limit is refused
    /// with its request counted; and one within the limit is let through
    /// exactly when its session is live, which renews the session.
    pub fn handle(
        path: &str,
        header: Option<&str>,
        ip: u32,
        now: u64,
        sessions: &mut SessionManager,
        limiter: &mut RateLimiter,
    ) -> (r: Decision)
        requires
            old(sessions).wf(),
        ensures
            final(sessions).wf(),
            final(sessions).spec_ttl() == old(sessions).spec_ttl(),
            ({
                let id = request_session_id(
                    match header {
                        Some(h) => Some(h@),
                        None => None,
                    },
                );
                let step = limit_step(old(limiter).window(), old(limiter).counts(), ip, now);
                if !needs_session(path@) {
                    &&& r == Decision::Allow
                    &&& final(sessions).sessions() == old(sessions).sessions()
                    &&& final(limiter).window() == old(limiter).window()
                    &&& final(limiter).counts() == old(limiter).counts()
                } else if id is None {
                    &&& r == Decision::Deny
                    &&& final(sessions).sessions() == old(sessions).sessions()
                    &&& final(limiter).window() == old(limiter).window()
                    &&& final(limiter).counts() == old(limiter).counts()
                } else {
                    &&& final(limiter).window() == step.0
                    &&& final(limiter).counts() == step.1
                    &&& if !step.2 {
                        &&& r == Decision::Deny
                        &&& final(sessions).sessions() == old(sessions).sessions()
                    } else if is_live(old(sessions).sessions(), id->Some_0, now) {
                        &&& r == Decision::Allow
                        &&& final(sessions).sessions() == old(sessions).sessions().insert(
                            id->Some_0,
                            expiry_at(now, old(sessions).spec_ttl()),
                        )
                    } else {
                        &&& r == Decision::Deny
                        &&& final(sessions).sessions() == old(sessions).sessions()
                    }
                }
            }),
    {
        if !Self::require_authentication(path) {
            return Decision::Allow;
        }
        match Self::get_session_id(header) {
            None => Decision::Deny,
            Some(id) => {
                if !limiter.check_limit(ip, now) {
                    return Decision::Deny;
                }
                if sessions.check_session(id, now) {
                    Decision::Allow
                } else {
                    Decision::Deny
                }
            },
        }
    }
}

} // verus!
