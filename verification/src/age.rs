//! The age of a file, and the rule that decides whether it is old enough to be
//! removed.
use vstd::prelude::*;

verus! {

/// Number of nanoseconds in a second.
pub const NANOS_PER_SECOND: u128 = 1_000_000_000;

/// Number of nanoseconds in a minute.
pub const NANOS_PER_MINUTE: u128 = 60_000_000_000;

/// A point in time, held as the span that separates it from the Unix epoch:
/// whole seconds, and the nanoseconds on top of them.
#[derive(Clone, Copy, Debug, PartialEq, Eq, Structural)]
pub struct Timestamp {
    pub secs: u64,
    pub nanos: u32,
}

impl Timestamp {
    /// The span since the epoch in nanoseconds.
    pub open spec fn nanos_since_epoch(self) -> nat {
        (self.secs as nat) * (NANOS_PER_SECOND as nat) + (self.nanos as nat)
    }

    /// The point in time that lies `secs` seconds and `nanos` nanoseconds after
    /// the epoch.
    pub fn new(secs: u64, nanos: u32) -> (t: Timestamp)
        ensures
            t.secs == secs,
            t.nanos == nanos,
    {
        Timestamp { secs, nanos }
    }

    /// The span since the epoch in nanoseconds, as a machine integer.
    pub fn total_nanos(&self) -> (n: u128)
        ensures
            n == self.nanos_since_epoch(),
    {
        let secs: u128 = self.secs as u128;
        let nanos: u128 = self.nanos as u128;
        secs * NANOS_PER_SECOND + nanos
    }
}

/// What could be learned about a file's age: when it was last modified, and
/// what the clock said when it was asked.  Either reading may have failed.
#[derive(Clone, Copy, Debug, PartialEq, Eq, Structural)]
pub struct AgeReading {
    pub modified: Option<Timestamp>,
    pub now: Option<Timestamp>,
}

/// Whole minutes that lie between `modified` and `now`, rounded down.
/// There is no such number when `modified` lies after `now`.
pub open spec fn elapsed_minutes(modified: Timestamp, now: Timestamp) -> Option<nat> {
    if modified.nanos_since_epoch() <= now.nanos_since_epoch() {
        Some(
            ((now.nanos_since_epoch() - modified.nanos_since_epoch()) / (NANOS_PER_MINUTE as int))
                as nat,
        )
    } else {
        None
    }
}

/// A file is old enough when both readings succeeded, the modification does not
/// lie in the future, and at least `min_age_minutes` whole minutes have passed
/// since.
pub open spec fn old_enough(reading: AgeReading, min_age_minutes: u32) -> bool {
    match (reading.modified, reading.now) {
        (Some(modified), Some(now)) => match elapsed_minutes(modified, now) {
            Some(minutes) => minutes >= min_age_minutes,
            None => false,
        },
        _ => false,
    }
}

/// Computes [`elapsed_minutes`].
pub fn minutes_between(modified: Timestamp, now: Timestamp) -> (elapsed: Option<u128>)
    ensures
        match elapsed {
            Some(minutes) => elapsed_minutes(modified, now) == Some(minutes as nat),
            None => elapsed_minutes(modified, now) is None,
        },
{
    let from: u128 = modified.total_nanos();
    let to: u128 = now.total_nanos();
    if from <= to {
        Some((to - from) / NANOS_PER_MINUTE)
    } else {
        None
    }
}

/// Decides whether a file with the given age reading may be removed under the
/// threshold `min_age_minutes`.  A reading that failed, or a modification time
/// that lies in the future, counts as too young.
pub fn is_old_enough(reading: AgeReading, min_age_minutes: u32) -> (old: bool)
    ensures
        old == old_enough(reading, min_age_minutes),
{
    match (reading.modified, reading.now) {
        (Some(modified), Some(now)) => match minutes_between(modified, now) {
            Some(minutes) => {
                let min: u128 = min_age_minutes as u128;
                minutes >= min
            },
            None => false,
        },
        _ => false,
    }
}

/// A file that is old enough under one threshold is old enough under every
/// smaller one.
pub proof fn law_old_enough_under_smaller_threshold(reading: AgeReading, small: u32, large: u32)
    requires
        small <= large,
        old_enough(reading, large),
    ensures
        old_enough(reading, small),
{
}

/// A file that is old enough stays old enough as the clock moves on.
pub proof fn law_old_enough_stays_old_enough(
    modified: Option<Timestamp>,
    earlier: Timestamp,
    later: Timestamp,
    min_age_minutes: u32,
)
    requires
        earlier.nanos_since_epoch() <= later.nanos_since_epoch(),
        old_enough(AgeReading { modified, now: Some(earlier) }, min_age_minutes),
    ensures
        old_enough(AgeReading { modified, now: Some(later) }, min_age_minutes),
{
    let m = modified->0.nanos_since_epoch() as int;
    let a = earlier.nanos_since_epoch() as int;
    let b = later.nanos_since_epoch() as int;
    assert((a - m) / 60_000_000_000 <= (b - m) / 60_000_000_000) by {
        vstd::arithmetic::div_mod::lemma_div_is_ordered(a - m, b - m, 60_000_000_000);
    }
}

} // verus!
