//! Liveness of the upstream connection: when to ping, and when a missing
//! answer makes the connection dead.

use vstd::prelude::*;

verus! {

/// What the connection should do at a given moment.
#[derive(Clone, Copy, Debug, PartialEq, Eq, Structural)]
pub enum PingAction {
    /// Nothing is due yet.
    Wait,
    /// The interval has passed since the last sign of life: send a ping.
    SendPing,
    /// A ping went unanswered for the whole timeout: tear the connection down.
    ConnectionDead,
}

/// Milliseconds from `from` to `now`, or 0 when `now` is earlier.
pub open spec fn elapsed(now: u64, from: u64) -> u64 {
    if now >= from {
        (now - from) as u64
    } else {
        0
    }
}

/// Timing of the last sign of life and of the ping that waits for an answer.
#[derive(Clone, Copy, Debug, PartialEq, Eq, Structural)]
pub struct PingMonitor {
    pub interval_ms: u64,
    pub timeout_ms: u64,
    pub last_activity_ms: u64,
    pub ping_sent_ms: Option<u64>,
}

fn elapsed_ms(now: u64, from: u64) -> (r: u64)
    ensures
        r == elapsed(now, from),
{
    if now >= from {
        now - from
    } else {
        0
    }
}

impl PingMonitor {
    /// A monitor for a connection that showed life at `now_ms`.
    pub fn new(interval_ms: u64, timeout_ms: u64, now_ms: u64) -> (m: Self)
        ensures
            m == (PingMonitor {
                interval_ms,
                timeout_ms,
                last_activity_ms: now_ms,
                ping_sent_ms: None,
            }),
    {
        PingMonitor { interval_ms, timeout_ms, last_activity_ms: now_ms, ping_sent_ms: None }
    }

    /// A monitor whose interval and timeout are given in seconds, as in the
    /// configuration. `None` when they do not fit in milliseconds.
    pub fn from_secs(interval_secs: u64, timeout_secs: u64, now_ms: u64) -> (r: Option<Self>)
        ensures
            interval_secs * 1000 <= u64::MAX && timeout_secs * 1000 <= u64::MAX ==> r == Some(
                (PingMonitor {
                    interval_ms: (interval_secs * 1000) as u64,
                    timeout_ms: (timeout_secs * 1000) as u64,
                    last_activity_ms: now_ms,
                    ping_sent_ms: None,
                }),
            ),
            !(interval_secs * 1000 <= u64::MAX && timeout_secs * 1000 <= u64::MAX) ==> r is None,
    {
        let interval = interval_secs.checked_mul(1000);
        let timeout = timeout_secs.checked_mul(1000);
        match (interval, timeout) {
            (Some(i), Some(t)) => Some(PingMonitor::new(i, t, now_ms)),
            _ => None,
        }
    }

    /// Decides what is due at `now_ms`. A ping that waited `timeout_ms`
    /// without an answer kills the connection; otherwise, with no ping
    /// waiting, one is sent once `interval_ms` passed since the last sign of
    /// life.
    pub fn on_tick(&mut self, now_ms: u64) -> (a: PingAction)
        ensures
            final(self).interval_ms == old(self).interval_ms,
            final(self).timeout_ms == old(self).timeout_ms,
            final(self).last_activity_ms == old(self).last_activity_ms,
            match old(self).ping_sent_ms {
                Some(t) => {
                    &&& a == if elapsed(now_ms, t) >= old(self).timeout_ms {
                        PingAction::ConnectionDead
                    } else {
                        PingAction::Wait
                    }
                    &&& final(self).ping_sent_ms == old(self).ping_sent_ms
                },
                None => if elapsed(now_ms, old(self).last_activity_ms) >= old(self).interval_ms {
                    a == PingAction::SendPing && final(self).ping_sent_ms == Some(now_ms)
                } else {
                    a == PingAction::Wait && final(self).ping_sent_ms is None
                },
            },
    {
        match self.ping_sent_ms {
            Some(t) => {
                if elapsed_ms(now_ms, t) >= self.timeout_ms {
                    PingAction::ConnectionDead
                } else {
                    PingAction::Wait
                }
            },
            None => {
                if elapsed_ms(now_ms, self.last_activity_ms) >= self.interval_ms {
                    self.ping_sent_ms = Some(now_ms);
                    PingAction::SendPing
                } else {
                    PingAction::Wait
                }
            },
        }
    }

    /// Records a sign of life at `now_ms` (data or a ping's answer): any
    /// waiting ping is answered.
    pub fn on_activity(&mut self, now_ms: u64)
        ensures
            *final(self) == (PingMonitor {
                interval_ms: old(self).interval_ms,
                timeout_ms: old(self).timeout_ms,
                last_activity_ms: now_ms,
                ping_sent_ms: None,
            }),
    {
        self.last_activity_ms = now_ms;
        self.ping_sent_ms = None;
    }
}

} // verus!
