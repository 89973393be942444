//! Per-asset transfer quota with time-based refill.

use vstd::prelude::*;

verus! {

/// The most qualifying transfers an asset can make between two refills.
pub const MAX_QUOTA: u16 = 3;

/// Length of one refill period: thirty days, in seconds.
pub const QUOTA_REFILL_SECONDS: u64 = 3600 * 24 * 30;

/// What is left of an asset's allowance, and when it was last drawn on.
#[derive(Clone, Copy, Debug, PartialEq, Eq, Structural)]
pub struct Quota {
    /// Qualifying transfers still allowed before the next refill.
    pub value: u16,
    /// Time of the most recent decrement, in seconds.
    pub last_used_at: u64,
}

impl Quota {
    /// A quota never holds more than `MAX_QUOTA`.
    pub open spec fn valid(self) -> bool {
        self.value <= MAX_QUOTA
    }

    /// Whole refill periods between the last use and `now`. Negative when the
    /// clock has run backwards.
    pub open spec fn periods_elapsed(self, now: u64) -> int {
        (now - self.last_used_at) / (QUOTA_REFILL_SECONDS as int)
    }

    /// The quota as it stands at `now`, before anything is taken from it: a
    /// quota below its maximum snaps back to the maximum once a whole period
    /// has gone by, however many periods that were.
    pub open spec fn replenished(self, now: u64) -> Quota {
        if self.value < MAX_QUOTA && self.periods_elapsed(now) >= 1 {
            Quota { value: MAX_QUOTA, last_used_at: self.last_used_at }
        } else {
            self
        }
    }

    /// A whole period has gone by exactly when `now` lies at least
    /// `QUOTA_REFILL_SECONDS` after the last use.
    pub proof fn lemma_period_elapsed(self, now: u64)
        ensures
            self.periods_elapsed(now) >= 1 <==> now - self.last_used_at >= QUOTA_REFILL_SECONDS,
    {
        let elapsed: int = now - self.last_used_at;
        assert(elapsed / 2592000 >= 1 <==> elapsed >= 2592000) by (nonlinear_arith);
    }

    /// Brings the quota up to date for `now`.
    pub fn replenish(self, now: u64) -> (r: Quota)
        ensures
            r == self.replenished(now),
    {
        proof {
            self.lemma_period_elapsed(now);
        }
        if self.value < MAX_QUOTA && now >= self.last_used_at && (now - self.last_used_at)
            / QUOTA_REFILL_SECONDS >= 1 {
            Quota { value: MAX_QUOTA, last_used_at: self.last_used_at }
        } else {
            self
        }
    }

    /// Draws one unit for a transfer at `now` from the quota recorded so far
    /// (`None` for an asset that has never been used). Returns the record to
    /// keep, or `None` when the quota is used up and nothing changes.
    pub fn consume(prev: Option<Quota>, now: u64) -> (r: Option<Quota>)
        ensures
            r == quota_after(prev, now),
            (prev matches Some(q) ==> q.valid()) ==> (r matches Some(q) ==> q.value < MAX_QUOTA),
    {
        let on_hand = match prev {
            None => Quota { value: MAX_QUOTA, last_used_at: now },
            Some(q) => q.replenish(now),
        };
        if on_hand.value > 0 {
            Some(Quota { value: on_hand.value - 1, last_used_at: now })
        } else {
            None
        }
    }
}

/// The quota an asset has on hand for a transfer at `now`: full on first use,
/// otherwise the recorded quota after any refill that is due.
pub open spec fn quota_on_hand(prev: Option<Quota>, now: u64) -> Quota {
    match prev {
        None => Quota { value: MAX_QUOTA, last_used_at: now },
        Some(q) => q.replenished(now),
    }
}

/// The record that a transfer at `now` leaves behind: one unit less, stamped
/// with `now`. `None` when there was no unit to take.
pub open spec fn quota_after(prev: Option<Quota>, now: u64) -> Option<Quota> {
    let on_hand = quota_on_hand(prev, now);
    if on_hand.value > 0 {
        Some(Quota { value: (on_hand.value - 1) as u16, last_used_at: now })
    } else {
        None
    }
}

} // verus!
