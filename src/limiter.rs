//! A token bucket that paces transfers to a number of bytes per second.

use vstd::prelude::*;

verus! {

pub const NANOS_PER_SEC: u64 = 1_000_000_000;

/// Waits that a limiter asks for.
pub trait Pause {
    /// The waits made so far, in nanoseconds. A pause that does not describe them
    /// leaves them unspecified.
    closed spec fn paused(&self) -> Seq<u64> {
        arbitrary()
    }

    fn pause(&mut self, ns: u64)
        ensures
            final(self).paused() == old(self).paused().push(ns),
    ;
}

/// A pause that records each wait instead of waiting.
pub struct PauseLog {
    pub pauses: Vec<u64>,
}

impl PauseLog {
    pub fn new() -> (r: Self)
        ensures
            r.paused() == Seq::<u64>::empty(),
    {
        PauseLog { pauses: Vec::new() }
    }
}

impl Pause for PauseLog {
    open spec fn paused(&self) -> Seq<u64> {
        self.pauses@
    }

    fn pause(&mut self, ns: u64) {
        self.pauses.push(ns);
    }
}

/// The allowance after `elapsed_ns` nanoseconds of refilling at `limit` bytes per
/// second, capped at `limit`.
pub open spec fn refilled(allowance: u64, limit: u64, elapsed_ns: u64) -> int {
    let grown = allowance as int + (elapsed_ns as int * limit as int) / NANOS_PER_SEC as int;
    if grown < limit as int { grown } else { limit as int }
}

/// The pause, in nanoseconds, that `deficit` bytes over the allowance cost at `limit`
/// bytes per second; no pause where there is no rate.
pub open spec fn pause_for(deficit: int, limit: u64) -> int {
    if limit == 0 {
        0
    } else {
        let ns = deficit * NANOS_PER_SEC as int / limit as int;
        if ns <= u64::MAX as int { ns } else { u64::MAX as int }
    }
}

/// Allowance accrues at `limit_per_sec` bytes per second up to that same cap and is
/// spent by each transfer.
pub struct BandwidthLimiter {
    limit_per_sec: u64,
    allowance: u64,
    /// Nanoseconds since the Unix epoch at the last refill.
    last_check: u64,
    /// Each amount spent so far, with the pause it cost.
    spent: Ghost<Seq<(u64, u64)>>,
}

impl BandwidthLimiter {
    pub closed spec fn limit(&self) -> u64 {
        self.limit_per_sec
    }

    pub closed spec fn allowance_now(&self) -> u64 {
        self.allowance
    }

    pub closed spec fn checked_at(&self) -> u64 {
        self.last_check
    }

    /// Each `(bytes, pause)` spent so far, in order.
    pub closed spec fn history(&self) -> Seq<(u64, u64)> {
        self.spent@
    }

    /// A full bucket at time `now`.
    pub fn new(limit_bytes_per_sec: u64, now: u64) -> (r: Self)
        ensures
            r.limit() == limit_bytes_per_sec,
            r.allowance_now() == limit_bytes_per_sec,
            r.checked_at() == now,
            r.history() == Seq::<(u64, u64)>::empty(),
            r.inv(),
    {
        BandwidthLimiter {
            limit_per_sec: limit_bytes_per_sec,
            allowance: limit_bytes_per_sec,
            last_check: now,
            spent: Ghost(Seq::empty()),
        }
    }

    /// The allowance never exceeds the cap.
    pub closed spec fn inv(&self) -> bool {
        self.allowance <= self.limit_per_sec
    }

    /// Refills for the time since the last call, then spends `bytes`. Returns how many
    /// nanoseconds the caller must wait before the transfer: none where the allowance
    /// covers it, else the time the rate takes to make up the difference; the
    /// allowance is then what is left of a full bucket after that difference.
    pub fn consume(&mut self, now: u64, bytes: u64) -> (delay_ns: u64)
        requires
            old(self).inv(),
        ensures
            final(self).inv(),
            final(self).limit() == old(self).limit(),
            final(self).checked_at() == now,
            final(self).history() == old(self).history().push((bytes, delay_ns)),
            ({
                let elapsed = if now >= old(self).checked_at() { (now - old(self).checked_at()) as u64 } else { 0u64 };
                let a = refilled(old(self).allowance_now(), old(self).limit(), elapsed);
                if a >= bytes {
                    delay_ns == 0 && final(self).allowance_now() == a - bytes
                } else {
                    let deficit = bytes - a;
                    &&& delay_ns == pause_for(deficit, old(self).limit())
                    &&& final(self).allowance_now() == old(self).limit() - if deficit < old(self).limit() { deficit } else { old(self).limit() as int }
                }
            }),
    {
        let delay = self.spend(now, bytes);
        self.spent = Ghost(self.spent@.push((bytes, delay)));
        delay
    }

    /// The refill and spending of [`Self::consume`].
    fn spend(&mut self, now: u64, bytes: u64) -> (delay_ns: u64)
        requires
            old(self).inv(),
        ensures
            final(self).inv(),
            final(self).limit() == old(self).limit(),
            final(self).checked_at() == now,
            final(self).history() == old(self).history(),
            ({
                let elapsed = if now >= old(self).checked_at() { (now - old(self).checked_at()) as u64 } else { 0u64 };
                let a = refilled(old(self).allowance_now(), old(self).limit(), elapsed);
                if a >= bytes {
                    delay_ns == 0 && final(self).allowance_now() == a - bytes
                } else {
                    let deficit = bytes - a;
                    &&& delay_ns == pause_for(deficit, old(self).limit())
                    &&& final(self).allowance_now() == old(self).limit() - if deficit < old(self).limit() { deficit } else { old(self).limit() as int }
                }
            }),
    {
        let elapsed: u64 = if now >= self.last_check { now - self.last_check } else { 0 };
        self.last_check = now;
        let lim = self.limit_per_sec;
        assert((elapsed as int) * (lim as int) <= 0xffff_ffff_ffff_ffffint * 0xffff_ffff_ffff_ffffint) by (nonlinear_arith)
            requires
                elapsed <= 0xffff_ffff_ffff_ffffint,
                lim <= 0xffff_ffff_ffff_ffffint,
                elapsed >= 0,
                lim >= 0,
        ;
        let refill: u128 = (elapsed as u128) * (lim as u128) / (NANOS_PER_SEC as u128);
        let grown: u128 = self.allowance as u128 + refill;
        let a: u64 = if grown < self.limit_per_sec as u128 { grown as u64 } else { self.limit_per_sec };
        if a >= bytes {
            self.allowance = a - bytes;
            return 0;
        }
        let deficit: u64 = bytes - a;
        let limit = self.limit_per_sec;
        self.allowance = limit - if deficit < limit { deficit } else { limit };
        if limit == 0 {
            return 0;
        }
        assert((deficit as int) * (NANOS_PER_SEC as int) <= 0xffff_ffff_ffff_ffffint * 1_000_000_000int) by (nonlinear_arith)
            requires
                deficit <= 0xffff_ffff_ffff_ffffint,
                deficit >= 0,
        ;
        let ns: u128 = (deficit as u128) * (NANOS_PER_SEC as u128) / (limit as u128);
        if ns <= u64::MAX as u128 { ns as u64 } else { u64::MAX }
    }
}

} // verus!
