//! The engine's settings.

use crate::error::{EngineError, ValidationReason};
use crate::queue::RetryPolicy;
use vstd::prelude::*;

verus! {

/// The number of seconds in a day.
pub const SECONDS_PER_DAY: u64 = 86400;

/// The hours of the day in which emails are handed out for sending, as
/// seconds since midnight: from `start`, included, to `end`, excluded. A
/// window whose start lies after its end runs over midnight.
#[derive(Clone, Copy, Debug, PartialEq, Eq)]
pub struct SendWindow {
    pub start: u32,
    pub end: u32,
}

/// The engine's settings. Instants and durations are in seconds.
#[derive(Clone, Copy, Debug, PartialEq, Eq)]
pub struct Config {
    /// The time between two scheduler runs.
    pub scheduler_interval: u64,
    /// The number of counted attempts after which an email is abandoned.
    pub max_attempts: u32,
    /// The base of the retry delay.
    pub backoff_base: u64,
    /// The largest retry delay before jitter.
    pub backoff_cap: u64,
    /// The number of delivery workers.
    pub worker_pool_size: u32,
    /// How long an email may stay in `Sending` before the recovery sweep
    /// requeues it.
    pub recovery_timeout: u64,
    /// When emails are handed out; `None` for always.
    pub send_window: Option<SendWindow>,
}

/// Whether a window is well formed: both ends within the day, and not
/// empty.
pub open spec fn window_valid(w: SendWindow) -> bool {
    w.start < SECONDS_PER_DAY && w.end <= SECONDS_PER_DAY && w.start != w.end
}

/// Whether the settings are acceptable: at least one attempt, at least one
/// worker, a base delay no larger than the cap, and a well-formed window.
pub open spec fn config_valid(c: Config) -> bool {
    &&& c.max_attempts >= 1
    &&& c.worker_pool_size >= 1
    &&& c.backoff_base <= c.backoff_cap
    &&& c.send_window matches Some(w) ==> window_valid(w)
}

/// Whether the instant `now` lies in the window.
pub open spec fn in_window(w: SendWindow, now: u64) -> bool {
    let t = now % SECONDS_PER_DAY;
    if w.start < w.end {
        w.start <= t < w.end
    } else {
        t >= w.start || t < w.end
    }
}

/// Whether emails are handed out at `now`.
pub open spec fn sending_allowed(c: Config, now: u64) -> bool {
    c.send_window matches Some(w) ==> in_window(w, now)
}

/// Whether a scheduler run is due at `now`, given the instant of the last
/// run.
pub open spec fn run_due(c: Config, last_run: Option<u64>, now: u64) -> bool {
    last_run matches Some(last) ==> last + c.scheduler_interval <= now
}

/// The retry settings among the settings.
pub open spec fn policy_of(c: Config) -> RetryPolicy {
    RetryPolicy {
        max_attempts: c.max_attempts,
        backoff_base: c.backoff_base,
        backoff_cap: c.backoff_cap,
    }
}

impl Default for Config {
    /// Hourly scheduling, five attempts, delays from one minute to one
    /// hour, two workers, recovery after a quarter of an hour, no window.
    fn default() -> (c: Self)
        ensures
            c == (Config {
                scheduler_interval: 3600,
                max_attempts: 5,
                backoff_base: 60,
                backoff_cap: 3600,
                worker_pool_size: 2,
                recovery_timeout: 900,
                send_window: None,
            }),
            config_valid(c),
    {
        Config {
            scheduler_interval: 3600,
            max_attempts: 5,
            backoff_base: 60,
            backoff_cap: 3600,
            worker_pool_size: 2,
            recovery_timeout: 900,
            send_window: None,
        }
    }
}

impl Config {
    /// Checks the settings.
    pub fn validate(&self) -> (r: Result<(), EngineError>)
        ensures
            r is Ok == config_valid(*self),
            r matches Err(e) ==> e == EngineError::Validation(ValidationReason::InvalidConfig),
    {
        let window_ok = match self.send_window {
            Some(w) => (w.start as u64) < SECONDS_PER_DAY && (w.end as u64) <= SECONDS_PER_DAY
                && w.start != w.end,
            None => true,
        };
        if self.max_attempts >= 1 && self.worker_pool_size >= 1 && self.backoff_base
            <= self.backoff_cap && window_ok {
            Ok(())
        } else {
            Err(EngineError::Validation(ValidationReason::InvalidConfig))
        }
    }

    /// The retry settings.
    pub fn retry_policy(&self) -> (p: RetryPolicy)
        ensures
            p == policy_of(*self),
    {
        RetryPolicy {
            max_attempts: self.max_attempts,
            backoff_base: self.backoff_base,
            backoff_cap: self.backoff_cap,
        }
    }

    /// Whether emails are handed out at `now`.
    pub fn allows_sending(&self, now: u64) -> (r: bool)
        ensures
            r == sending_allowed(*self, now),
    {
        match self.send_window {
            None => true,
            Some(w) => {
                let t = now % SECONDS_PER_DAY;
                if w.start < w.end {
                    (w.start as u64) <= t && t < (w.end as u64)
                } else {
                    t >= (w.start as u64) || t < (w.end as u64)
                }
            },
        }
    }

    /// Whether a scheduler run is due at `now`.
    pub fn is_run_due(&self, last_run: Option<u64>, now: u64) -> (r: bool)
        ensures
            r == run_due(*self, last_run, now),
    {
        match last_run {
            None => true,
            Some(last) => self.scheduler_interval <= now && last <= now - self.scheduler_interval,
        }
    }
}

} // verus!
