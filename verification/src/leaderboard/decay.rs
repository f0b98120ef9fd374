//! Scores lose value with time, so that a rank reflects recent activity.
//!
//! Decay happens in whole periods counted from the ledger sequence. Every
//! stored score is expressed in such an epoch, so scores stay comparable and
//! nobody can reset their own clock.
use crate::env::TTL_HIGH;
use crate::leaderboard::types::PlayerEntry;
use vstd::prelude::*;

verus! {

/// Ledgers in one decay period, about a week at five seconds a ledger.
pub const DECAY_PERIOD_LEDGERS: u32 = 120_960;

/// Each period a score keeps this many tenths of its value.
pub const DECAY_RETAIN_NUM: u64 = 9;

pub const DECAY_RETAIN_DEN: u64 = 10;

/// After this many idle periods a score is zero: it cannot outlive the stored
/// entry that holds it.
pub const DECAY_ZERO_AFTER_PERIODS: u32 = TTL_HIGH / DECAY_PERIOD_LEDGERS;

/// `value` after `periods` steps, each rounded down.
pub open spec fn faded(value: int, periods: nat) -> int
    decreases periods,
{
    if periods == 0 {
        value
    } else {
        faded(value, (periods - 1) as nat) * DECAY_RETAIN_NUM as int / DECAY_RETAIN_DEN as int
    }
}

/// A score after `periods` idle periods.
pub open spec fn decayed(points: u64, periods: u32) -> u64 {
    if periods >= DECAY_ZERO_AFTER_PERIODS {
        0
    } else {
        faded(points as int, periods as nat) as u64
    }
}

/// The decay period that a ledger lies in.
pub open spec fn epoch_of(sequence: u32) -> u32 {
    sequence / DECAY_PERIOD_LEDGERS
}

/// Whole periods from one epoch to another, none if the other is not later.
pub open spec fn periods_since(epoch: u32, now: u32) -> u32 {
    if now > epoch {
        (now - epoch) as u32
    } else {
        0
    }
}

impl PlayerEntry {
    /// The entry's score in epoch `now`.
    pub open spec fn points_at(self, now: u32) -> u64 {
        decayed(self.points, periods_since(self.epoch, now))
    }
}

/// A fading value stays between zero and where it began.
pub proof fn lemma_faded_bounds(value: int, periods: nat)
    requires
        value >= 0,
    ensures
        0 <= faded(value, periods) <= value,
    decreases periods,
{
    if periods > 0 {
        lemma_faded_bounds(value, (periods - 1) as nat);
    }
}

/// Once zero, always zero.
pub proof fn lemma_faded_zero(value: int, early: nat, late: nat)
    requires
        early <= late,
        faded(value, early) == 0,
    ensures
        faded(value, late) == 0,
    decreases late,
{
    if early < late {
        lemma_faded_zero(value, early, (late - 1) as nat);
    }
}

pub fn decay(points: u64, periods: u32) -> (value: u64)
    ensures
        value == decayed(points, periods),
{
    proof {
        lemma_faded_bounds(points as int, periods as nat);
    }
    if points == 0 || periods == 0 {
        return points;
    }
    if periods >= DECAY_ZERO_AFTER_PERIODS {
        return 0;
    }
    let mut value: u128 = points as u128;
    let mut i: u32 = 0;
    while i < periods
        invariant
            i <= periods,
            value == faded(points as int, i as nat),
            value <= points,
        decreases periods - i,
    {
        assert(value * 9 <= u64::MAX * 9);
        value = value * DECAY_RETAIN_NUM as u128 / DECAY_RETAIN_DEN as u128;
        i = i + 1;
        if value == 0 {
            proof {
                lemma_faded_zero(points as int, i as nat, periods as nat);
            }
            return 0;
        }
    }
    value as u64
}

pub fn current_epoch(sequence: u32) -> (epoch: u32)
    ensures
        epoch == epoch_of(sequence),
{
    sequence / DECAY_PERIOD_LEDGERS
}

/// A listed player's score in epoch `now`.
pub fn entry_points_now(entry: &PlayerEntry, now: u32) -> (points: u64)
    ensures
        points == entry.points_at(now),
{
    decay(entry.points, now.saturating_sub(entry.epoch))
}

/// Decay never adds to a score.
pub proof fn law_decay_never_adds(points: u64, periods: u32)
    ensures
        decayed(points, periods) <= points,
{
    lemma_faded_bounds(points as int, periods as nat);
}

proof fn lemma_faded_monotone(low: int, high: int, periods: nat)
    requires
        0 <= low <= high,
    ensures
        faded(low, periods) <= faded(high, periods),
    decreases periods,
{
    if periods > 0 {
        lemma_faded_monotone(low, high, (periods - 1) as nat);
    }
}

/// A stronger score stays at least as strong: equal idleness never reorders
/// two players.
pub proof fn law_decay_keeps_order(low: u64, high: u64, periods: u32)
    requires
        low <= high,
    ensures
        decayed(low, periods) <= decayed(high, periods),
{
    lemma_faded_monotone(low as int, high as int, periods as nat);
    lemma_faded_bounds(low as int, periods as nat);
    lemma_faded_bounds(high as int, periods as nat);
}

proof fn lemma_faded_falls(value: int, early: nat, late: nat)
    requires
        0 <= value,
        early <= late,
    ensures
        faded(value, late) <= faded(value, early),
    decreases late,
{
    lemma_faded_bounds(value, early);
    if early < late {
        lemma_faded_falls(value, early, (late - 1) as nat);
        lemma_faded_bounds(value, (late - 1) as nat);
    }
}

/// The longer a player idles, the less is left.
pub proof fn law_decay_falls_with_time(points: u64, early: u32, late: u32)
    requires
        early <= late,
    ensures
        decayed(points, late) <= decayed(points, early),
{
    lemma_faded_falls(points as int, early as nat, late as nat);
    lemma_faded_bounds(points as int, early as nat);
    lemma_faded_bounds(points as int, late as nat);
}

proof fn lemma_faded_splits(value: int, first: nat, second: nat)
    ensures
        faded(faded(value, first), second) == faded(value, first + second),
    decreases second,
{
    if second > 0 {
        lemma_faded_splits(value, first, (second - 1) as nat);
    }
}

/// Writing a score back along the way does not change what it becomes, as long
/// as it would not have reached the point where it is dropped to zero.
pub proof fn law_decay_composes(points: u64, first: u32, second: u32)
    requires
        first + second < DECAY_ZERO_AFTER_PERIODS,
    ensures
        decayed(decayed(points, first), second) == decayed(points, (first + second) as u32),
{
    lemma_faded_bounds(points as int, first as nat);
    lemma_faded_splits(points as int, first as nat, second as nat);
}

/// A score left alone for long enough is gone.
pub proof fn law_decay_reaches_zero(points: u64, periods: u32)
    requires
        periods >= 52,
    ensures
        decayed(points, periods) == 0,
{
}

} // verus!
