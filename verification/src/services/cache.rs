//! When a cached value is used and when it is loaded again.

use vstd::prelude::*;

verus! {

/// A value that was loaded less than `ttl` ago. A clock that ran backwards makes it new.
pub open spec fn fresh(loaded_at: Option<u64>, now: u64, ttl: u64) -> bool {
    match loaded_at {
        Some(t) => if now >= t {
            now - t < ttl
        } else {
            ttl > 0
        },
        None => false,
    }
}

/// Whether a cached value is still used; the times are counted in one unit.
pub fn is_fresh(loaded_at: Option<u64>, now: u64, ttl: u64) -> (r: bool)
    ensures
        r == fresh(loaded_at, now, ttl),
{
    match loaded_at {
        Some(t) => if now >= t {
            now - t < ttl
        } else {
            ttl > 0
        },
        None => false,
    }
}

/// What a cache answers after it tried to load a value.
pub enum Refreshed<T, E> {
    /// The new value, which is kept.
    Loaded(T),
    /// The value that was kept before, though it is old.
    Stale(T),
    /// The error: nothing was ever loaded.
    Failed(E),
}

/// A value that could not be loaded again is replaced by the old one, if there is one.
pub fn after_refresh<T, E>(loaded: Result<T, E>, stale: Option<T>) -> (r: Refreshed<T, E>)
    ensures
        r == (match (loaded, stale) {
            (Ok(v), _) => Refreshed::Loaded(v),
            (Err(_), Some(s)) => Refreshed::Stale(s),
            (Err(e), None) => Refreshed::Failed(e),
        }),
{
    match loaded {
        Ok(v) => Refreshed::Loaded(v),
        Err(e) => match stale {
            Some(s) => Refreshed::Stale(s),
            None => Refreshed::Failed(e),
        },
    }
}

/// A value is not used once its time is up, and with no time at all never.
pub proof fn law_old_values_are_loaded_again(t: u64, now: u64, ttl: u64)
    requires
        now >= t,
        now - t >= ttl,
    ensures
        !fresh(Some(t), now, ttl),
{
}

} // verus!
