//! Round-trip time measurement from reliable messages and their acknowledgements.
//!
//! Times are kept as nanoseconds elapsed since the tracker was created.

use std::collections::VecDeque;
use std::time::{Duration, Instant};

use vstd::prelude::*;

use crate::common::SeqId;

verus! {

#[verifier::external_type_specification]
#[verifier::external_body]
pub struct ExInstant(Instant);

/// `std::time::Instant::now`. Nothing is claimed of the reading.
#[verifier::external_body]
fn instant_now() -> Instant {
    Instant::now()
}

/// `std::time::Instant::elapsed`: the time since `origin` (zero if the clock reads
/// earlier). Nothing is claimed of the reading.
#[verifier::external_body]
fn instant_elapsed(origin: &Instant) -> Duration {
    origin.elapsed()
}

/// `std::time::Duration::as_nanos`. Nothing is claimed: the duration is opaque here.
#[verifier::external_body]
fn duration_as_nanos(d: &Duration) -> u128 {
    d.as_nanos()
}

/// Number of pings kept, latest first.
pub const PINGS_LEN: usize = 16;

/// Nanoseconds in a second.
pub const NANOS_PER_SEC: u64 = 1_000_000_000;

/// Nanoseconds in a millisecond.
pub const NANOS_PER_MILLI: u64 = 1_000_000;

/// Time from `then` to `now`, zero when `now` is earlier.
pub open spec fn elapsed_ns(now: u64, then: u64) -> int {
    if now >= then {
        now - then
    } else {
        0
    }
}

/// The ping recorded for a round trip of `elapsed` nanoseconds: whole
/// milliseconds, capped at 4999.
pub open spec fn ping_ms_for(elapsed: int) -> u32 {
    let secs = elapsed / NANOS_PER_SEC as int;
    let ms = (elapsed % NANOS_PER_SEC as int) / NANOS_PER_MILLI as int;
    if secs >= 5 {
        4999
    } else {
        (ms + secs * 1000) as u32
    }
}

/// The recorded pings after recording `ping_ms` at `now`: it comes first, and the
/// oldest goes when `PINGS_LEN` were kept.
pub open spec fn pings_after_register(pings: Seq<(u32, u64)>, ping_ms: u32, now: u64) -> Seq<(u32, u64)> {
    seq![(ping_ms, now)] + if pings.len() == PINGS_LEN {
        pings.drop_last()
    } else {
        pings
    }
}

/// The leading pings recorded no earlier than `window` nanoseconds before `now`.
pub open spec fn recent_pings(pings: Seq<(u32, u64)>, now: u64, window: u64) -> Seq<(u32, u64)>
    decreases pings.len(),
{
    if pings.len() == 0 || pings[0].1 + window < now {
        Seq::empty()
    } else {
        seq![pings[0]] + recent_pings(pings.drop_first(), now, window)
    }
}

/// Sum of the ping values.
pub open spec fn ping_sum(pings: Seq<(u32, u64)>) -> int
    decreases pings.len(),
{
    if pings.len() == 0 {
        0
    } else {
        pings[0].0 + ping_sum(pings.drop_first())
    }
}

/// The state that the tracker's logic reads: the ping waiting for its answer, and
/// the recorded pings, latest first, and the instant that their times count from.
pub struct PingModel {
    pub waiting: Option<(SeqId, u64)>,
    pub pings: Seq<(u32, u64)>,
    pub origin: Instant,
}

impl PingModel {
    /// After sending `seq_id` at `now`: it becomes the waiting ping, unless another
    /// one is waiting for its answer.
    pub open spec fn ping(self, seq_id: SeqId, now: u64) -> PingModel {
        match self.waiting {
            Some(_) => self,
            None => PingModel { waiting: Some((seq_id, now)), ..self },
        }
    }

    /// After the acknowledgement of `seq_id` arrived at `now`: when it answers the
    /// waiting ping, the round trip is recorded and nothing waits any more.
    pub open spec fn pong(self, seq_id: SeqId, now: u64) -> PingModel {
        match self.waiting {
            Some((waiting_id, sent)) if waiting_id == seq_id => PingModel {
                waiting: None,
                pings: pings_after_register(self.pings, ping_ms_for(elapsed_ns(now, sent)), now),
                ..self
            },
            _ => self,
        }
    }

    /// After the acknowledgements `acks` arrived, in order, at `now`.
    pub open spec fn pong_all(self, acks: Seq<SeqId>, now: u64) -> PingModel
        decreases acks.len(),
    {
        if acks.len() == 0 {
            self
        } else {
            self.pong(acks[0], now).pong_all(acks.drop_first(), now)
        }
    }

    /// What an average over the last `window` nanoseconds before `now` is made of:
    /// the sum and count of the recent pings, or else the latest ping alone.
    /// `latest_only` asks for the latest ping alone.
    pub open spec fn summary(self, now: u64, window: u64, latest_only: bool) -> Option<(u128, u64)> {
        let latest = if self.pings.len() > 0 {
            Some((self.pings[0].0 as u128, 1u64))
        } else {
            None
        };
        let recent = recent_pings(self.pings, now, window);
        if latest_only || recent.len() == 0 {
            latest
        } else {
            Some((ping_sum(recent) as u128, recent.len() as u64))
        }
    }

    /// At most `PINGS_LEN` pings are kept, each below 5000 ms.
    pub open spec fn bounded(self) -> bool {
        &&& self.pings.len() <= PINGS_LEN
        &&& forall|i: int| 0 <= i < self.pings.len() ==> #[trigger] self.pings[i].0 < 5000
    }
}

/// Recording a round trip keeps the tracker bounded, and the recorded value is
/// below 5000 ms.
pub proof fn lemma_pong_bounded(m: PingModel, seq_id: SeqId, now: u64)
    requires
        m.bounded(),
    ensures
        m.pong(seq_id, now).bounded(),
{
    match m.waiting {
        Some((waiting_id, sent)) if waiting_id == seq_id => {
            let e = elapsed_ns(now, sent);
            let secs = e / NANOS_PER_SEC as int;
            let ms = (e % NANOS_PER_SEC as int) / NANOS_PER_MILLI as int;
            assert(ms < 1000);
            let p = ping_ms_for(e);
            assert(p < 5000);
            let r = m.pong(seq_id, now);
            assert forall|i: int| 0 <= i < r.pings.len() implies #[trigger] r.pings[i].0 < 5000 by {
                if i > 0 {
                    assert(r.pings[i] == m.pings[i - 1]);
                }
            }
        },
        _ => {},
    }
}

/// Recording a ping puts it first and keeps the `PINGS_LEN` latest: with at most
/// `PINGS_LEN` pings kept before, the result is the new ping followed by the older
/// ones, cut to `PINGS_LEN`.
pub proof fn lemma_register_keeps_latest(pings: Seq<(u32, u64)>, ping_ms: u32, now: u64)
    requires
        pings.len() <= PINGS_LEN,
    ensures
        pings_after_register(pings, ping_ms, now) == (seq![(ping_ms, now)] + pings).take(
            if pings.len() + 1 < PINGS_LEN {
                pings.len() + 1int
            } else {
                PINGS_LEN as int
            },
        ),
        pings_after_register(pings, ping_ms, now).len() <= PINGS_LEN,
        pings_after_register(pings, ping_ms, now)[0] == (ping_ms, now),
{
    assert(pings_after_register(pings, ping_ms, now) =~= (seq![(ping_ms, now)] + pings).take(
        if pings.len() + 1 < PINGS_LEN {
            pings.len() + 1int
        } else {
            PINGS_LEN as int
        },
    ));
}

/// Any number of acknowledgements keep the tracker bounded.
pub proof fn lemma_pong_all_bounded(m: PingModel, acks: Seq<SeqId>, now: u64)
    requires
        m.bounded(),
    ensures
        m.pong_all(acks, now).bounded(),
    decreases acks.len(),
{
    if acks.len() > 0 {
        lemma_pong_bounded(m, acks[0], now);
        lemma_pong_all_bounded(m.pong(acks[0], now), acks.drop_first(), now);
    }
}

/// Sending a ping never changes the recorded pings, and changes nothing at all
/// while another ping is unanswered.
pub proof fn lemma_ping_keeps_pings(m: PingModel, seq_id: SeqId, now: u64)
    ensures
        m.ping(seq_id, now).pings == m.pings,
        m.waiting is Some ==> m.ping(seq_id, now) == m,
{
}

/// A count of nanoseconds kept as a `u64`: unchanged where it fits, `u64::MAX`
/// beyond.
pub open spec fn spec_saturating_nanos(nanos: u128) -> u64 {
    if nanos > u64::MAX as u128 {
        u64::MAX
    } else {
        nanos as u64
    }
}

/// A count of nanoseconds kept as a `u64`: unchanged where it fits, `u64::MAX`
/// beyond.
pub fn saturating_nanos(nanos: u128) -> (r: u64)
    ensures
        r == spec_saturating_nanos(nanos),
{
    if nanos > u64::MAX as u128 {
        u64::MAX
    } else {
        nanos as u64
    }
}

/// Clock readings are kept exactly up to `u64::MAX` nanoseconds (about 584
/// years), and every larger reading is kept as `u64::MAX`; readings never shrink.
pub proof fn lemma_saturating_nanos(a: u128, b: u128)
    ensures
        a <= u64::MAX ==> spec_saturating_nanos(a) == a,
        a > u64::MAX ==> spec_saturating_nanos(a) == u64::MAX,
        a <= b ==> spec_saturating_nanos(a) <= spec_saturating_nanos(b),
        spec_saturating_nanos(a) as int <= a,
{
}

/// Tracks the ping (round-trip time) of a connection.
pub struct PingTracker {
    /// The instant that the recorded times count from.
    pub origin: Instant,
    /// The sequence id sent as a ping and when, while its acknowledgement is awaited.
    pub waiting_ping: Option<(SeqId, u64)>,
    /// Recorded pings in milliseconds and when they arrived, latest first.
    pub recorded_pings: VecDeque<(u32, u64)>,
}

impl PingTracker {
    /// The part of the tracker that its logic reads.
    pub open spec fn model(self) -> PingModel {
        PingModel { waiting: self.waiting_ping, pings: self.recorded_pings@, origin: self.origin }
    }

    /// A tracker with no ping sent or recorded, counting time from now.
    pub fn new() -> (r: PingTracker)
        ensures
            r.model().waiting is None,
            r.model().pings == Seq::<(u32, u64)>::empty(),
    {
        PingTracker {
            origin: instant_now(),
            waiting_ping: None,
            recorded_pings: VecDeque::with_capacity(PINGS_LEN),
        }
    }

    /// Nanoseconds since the tracker was created, as read from the clock now: the
    /// elapsed time as `saturating_nanos` keeps it.
    pub fn now_nanos(&self) -> u64 {
        let elapsed = instant_elapsed(&self.origin);
        let nanos = duration_as_nanos(&elapsed);
        saturating_nanos(nanos)
    }

    /// Records sending `seq_id` at `now`; does nothing while another ping is
    /// unanswered.
    pub fn ping_at(&mut self, seq_id: SeqId, now: u64)
        ensures
            final(self).model() == old(self).model().ping(seq_id, now),
    {
        if self.waiting_ping.is_some() {
            return;
        }
        self.waiting_ping = Some((seq_id, now));
    }

    /// Should be called when we send the packet that will act as a ping.
    ///
    /// Does nothing if another ping is recorded unanswered.
    pub fn ping(&mut self, seq_id: SeqId)
        ensures
            old(self).model().waiting is Some ==> final(self).model() == old(self).model(),
            exists|now: u64| final(self).model() == old(self).model().ping(seq_id, now),
    {
        let now = self.now_nanos();
        self.ping_at(seq_id, now);
    }

    /// Records the round trip `ping_ms`, arrived at `now`, dropping the oldest when
    /// `PINGS_LEN` are kept.
    fn register_ping(&mut self, ping_ms: u32, now: u64)
        ensures
            final(self).recorded_pings@ == pings_after_register(old(self).recorded_pings@, ping_ms, now),
            final(self).waiting_ping == old(self).waiting_ping,
            final(self).origin == old(self).origin,
    {
        if self.recorded_pings.len() == PINGS_LEN {
            self.recorded_pings.pop_back();
        }
        self.recorded_pings.push_front((ping_ms, now));
        assert(self.recorded_pings@ =~= pings_after_register(old(self).recorded_pings@, ping_ms, now));
    }

    /// Handles the acknowledgement of `seq_id` arrived at `now`.
    ///
    /// Does nothing if `seq_id` is not the ping awaited.
    pub fn pong_at(&mut self, seq_id: SeqId, now: u64)
        ensures
            final(self).model() == old(self).model().pong(seq_id, now),
    {
        match self.waiting_ping {
            Some((stored_seq_id, sent)) => {
                if stored_seq_id == seq_id {
                    let d = if now >= sent {
                        now - sent
                    } else {
                        0
                    };
                    let ms = ((d % NANOS_PER_SEC) / NANOS_PER_MILLI) as u32;
                    let secs = d / NANOS_PER_SEC;
                    let ping_ms = if secs >= 5 {
                        4999u32
                    } else {
                        ms + (secs as u32) * 1000
                    };
                    self.register_ping(ping_ms, now);
                    self.waiting_ping = None;
                }
            },
            None => {},
        }
    }

    /// Should be called when we receive the ping back.
    ///
    /// Does nothing if the seq_id has not been recorded.
    pub fn pong(&mut self, seq_id: SeqId)
        ensures
            exists|now: u64| final(self).model() == old(self).model().pong(seq_id, now),
    {
        let now = self.now_nanos();
        self.pong_at(seq_id, now);
    }

    /// The sum and count of the pings recorded no earlier than `window` nanoseconds
    /// before `now`, taken from the latest on; the latest ping alone when there is
    /// none such or when `latest_only` is set; `None` when no ping is recorded.
    pub fn ping_summary(&self, now: u64, window: u64, latest_only: bool) -> (r: Option<(u128, u64)>)
        ensures
            r == self.model().summary(now, window, latest_only),
    {
        let len = self.recorded_pings.len();
        let latest: Option<(u128, u64)> = if len > 0 {
            Some((self.recorded_pings[0].0 as u128, 1u64))
        } else {
            None
        };
        if latest_only {
            return latest;
        }
        let ghost pings = self.recorded_pings@;
        let mut tot: u128 = 0;
        let mut n: u64 = 0;
        let mut i: usize = 0;
        proof {
            assert(pings.skip(0) =~= pings);
            assert(pings.take(0) + recent_pings(pings, now, window) =~= recent_pings(pings, now, window));
        }
        while i < len
            invariant
                len == pings.len(),
                pings == self.recorded_pings@,
                i <= len,
                n == i,
                recent_pings(pings, now, window) == pings.take(i as int) + recent_pings(
                    pings.skip(i as int),
                    now,
                    window,
                ),
                tot == ping_sum(pings.take(i as int)),
                tot <= i * 0xffff_ffff,
            ensures
                recent_pings(pings, now, window) == pings.take(i as int),
                n == i,
                tot == ping_sum(pings.take(i as int)),
            decreases len - i,
        {
            let (p, at) = self.recorded_pings[i];
            proof {
                assert(pings.skip(i as int)[0] == pings[i as int]);
                assert(pings.skip(i as int).drop_first() =~= pings.skip(i + 1));
            }
            if (at as u128) + (window as u128) < now as u128 {
                proof {
                    assert(recent_pings(pings.skip(i as int), now, window) =~= Seq::empty());
                    assert(pings.take(i as int) + Seq::<(u32, u64)>::empty() =~= pings.take(i as int));
                }
                break;
            }
            proof {
                lemma_ping_sum_push(pings.take(i as int), pings[i as int]);
                assert(pings.take(i + 1) =~= pings.take(i as int).push(pings[i as int]));
                assert(pings.take(i as int) + recent_pings(pings.skip(i as int), now, window)
                    =~= pings.take(i + 1) + recent_pings(pings.skip(i + 1), now, window));
            }
            tot = tot + p as u128;
            n = n + 1;
            i = i + 1;
        }
        proof {
            if i == len {
                assert(pings.skip(i as int) =~= Seq::<(u32, u64)>::empty());
                assert(pings.take(i as int) + Seq::<(u32, u64)>::empty() =~= pings.take(i as int));
            }
        }
        if n == 0 {
            latest
        } else {
            Some((tot, n))
        }
    }

    /// The latest ping in ms, and when it arrived (nanoseconds since `origin`).
    pub fn last_ping_info(&self) -> (r: Option<(u32, u64)>)
        ensures
            r == (if self.recorded_pings@.len() > 0 {
                Some(self.recorded_pings@[0])
            } else {
                None
            }),
    {
        if self.recorded_pings.len() > 0 {
            Some(self.recorded_pings[0])
        } else {
            None
        }
    }
}

proof fn lemma_ping_sum_push(s: Seq<(u32, u64)>, x: (u32, u64))
    ensures
        ping_sum(s.push(x)) == ping_sum(s) + x.0,
    decreases s.len(),
{
    if s.len() == 0 {
        assert(s.push(x).drop_first() =~= Seq::<(u32, u64)>::empty());
        assert(ping_sum(s.push(x).drop_first()) == 0);
    } else {
        lemma_ping_sum_push(s.drop_first(), x);
        assert(s.push(x).drop_first() =~= s.drop_first().push(x));
    }
}

} // verus!
