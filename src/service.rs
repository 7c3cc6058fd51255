//! The login decision: who may open a session.
use vstd::prelude::*;
use crate::auth::same_text;
use crate::codec::DbError;
use crate::limiter::{limit_step, RateLimiter};
use crate::session::{expiry_at, SessionError, SessionManager};
use crate::token::token_of;

verus! {

/// Why a login was refused.
#[derive(Debug, Clone, Copy, PartialEq, Eq, Structural)]
pub enum LoginError {
    /// Too many requests from the address within the current minute.
    RateLimited,
    /// The user name or the password is wrong; which of the two is not told.
    InvalidCredentials,
    /// The database could not be checked.
    Database(DbError),
    /// No free session id could be drawn.
    SessionIdExhausted,
}

/// A granted login: the session token, when the session expires if unused,
/// and when the client should renew it (times in seconds).
pub struct LoginGrant {
    pub token: String,
    pub expire: u64,
    pub refresh_time: u64,
}

/// When a client should renew a session created at `now`: halfway through
/// its time to live.
pub open spec fn refresh_at(now: u64, ttl: u64) -> u64 {
    if now + ttl / 2 > u64::MAX { u64::MAX } else { (now + ttl / 2) as u64 }
}

/// Logs `user` in from the address `ip` at `now`. `db_user` is the one user
/// name the database accepts, and `password_check` the outcome of checking
/// the password against the database. The attempt is counted against the
/// rate limit first; then the name and the password must both be right,
/// and a new session is created.
pub fn login(
    user: &str,
    db_user: &str,
    password_check: Result<bool, DbError>,
    ip: u32,
    now: u64,
    sessions: &mut SessionManager,
    limiter: &mut RateLimiter,
) -> (r: Result<LoginGrant, LoginError>)
    requires
        old(sessions).wf(),
    ensures
        final(sessions).wf(),
        final(sessions).spec_ttl() == old(sessions).spec_ttl(),
        ({
            let step = limit_step(old(limiter).window(), old(limiter).counts(), ip, now);
            let ttl = old(sessions).spec_ttl();
            &&& final(limiter).window() == step.0
            &&& final(limiter).counts() == step.1
            &&& if !step.2 {
                r == Err::<LoginGrant, LoginError>(LoginError::RateLimited)
                    && final(sessions).sessions() == old(sessions).sessions()
            } else if user@ != db_user@ {
                r == Err::<LoginGrant, LoginError>(LoginError::InvalidCredentials)
                    && final(sessions).sessions() == old(sessions).sessions()
            } else {
                match password_check {
                    Err(e) => r == Err::<LoginGrant, LoginError>(LoginError::Database(e))
                        && final(sessions).sessions() == old(sessions).sessions(),
                    Ok(false) => r == Err::<LoginGrant, LoginError>(
                        LoginError::InvalidCredentials,
                    ) && final(sessions).sessions() == old(sessions).sessions(),
                    Ok(true) => match r {
                        Ok(g) => {
                            &&& g.expire == expiry_at(now, ttl)
                            &&& g.refresh_time == refresh_at(now, ttl)
                            &&& exists|id: u64|
                                {
                                    &&& !old(sessions).sessions().contains_key(id)
                                    &&& g.token@ == #[trigger] token_of(id)
                                    &&& final(sessions).sessions() == old(
                                        sessions,
                                    ).sessions().insert(id, expiry_at(now, ttl))
                                }
                        },
                        Err(e) => e == LoginError::SessionIdExhausted
                            && final(sessions).sessions() == old(sessions).sessions()
                            && exists|k: u64| old(sessions).sessions().contains_key(k),
                    },
                }
            }
        }),
{
    if !limiter.check_limit(ip, now) {
        return Err(LoginError::RateLimited);
    }
    if !same_text(user, db_user) {
        return Err(LoginError::InvalidCredentials);
    }
    match password_check {
        Err(e) => Err(LoginError::Database(e)),
        Ok(false) => Err(LoginError::InvalidCredentials),
        Ok(true) => {
            let ttl = sessions.ttl();
            match sessions.create(now) {
                Ok(token) => Ok(
                    LoginGrant {
                        token,
                        expire: now.saturating_add(ttl),
                        refresh_time: now.saturating_add(ttl / 2),
                    },
                ),
                Err(SessionError::SessionIdExhausted) => Err(LoginError::SessionIdExhausted),
            }
        },
    }
}

} // verus!
