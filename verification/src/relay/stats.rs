use std::time::Instant;
use vstd::prelude::*;

verus! {

/// A moment of the monotonic clock; carried, never inspected.
#[verifier::external_type_specification]
#[verifier::external_body]
pub struct ExInstant(Instant);

/// Calls `std::time::Instant::now`, the current moment; nothing is promised
/// of its value.
#[verifier::external_body]
pub(crate) fn now() -> Instant {
    Instant::now()
}

/// `new` is `old` with one more attempt counted and nothing else changed.
pub open spec fn attempt_counted(old: RelayStats, new: RelayStats) -> bool {
    &&& new.attempts == old.attempts + 1
    &&& new.success == old.success
    &&& new.bytes_sent == old.bytes_sent
    &&& new.bytes_received == old.bytes_received
    &&& new.connected_at == old.connected_at
    &&& new.first_connect_time == old.first_connect_time
}

/// `new` is `old` with one more success counted: a connection time is
/// recorded, the time of the first connection is recorded on the first
/// success and kept afterwards, and the other counters are kept.
pub open spec fn success_counted(old: RelayStats, new: RelayStats) -> bool {
    &&& new.success == old.success + 1
    &&& new.attempts == old.attempts
    &&& new.bytes_sent == old.bytes_sent
    &&& new.bytes_received == old.bytes_received
    &&& new.connected_at is Some
    &&& old.success == 0 ==> new.first_connect_time is Some
    &&& old.success != 0 ==> new.first_connect_time == old.first_connect_time
}

/// `new` is `old` with one more success recorded from the clock readings
/// `first` and `at`: the connection time becomes `at`; on the first
/// success the time of the first connection becomes `first`, and later it
/// is kept; the other counters are kept.
pub open spec fn success_recorded(
    old: RelayStats,
    new: RelayStats,
    first: Instant,
    at: Instant,
) -> bool {
    &&& new.success == old.success + 1
    &&& new.attempts == old.attempts
    &&& new.bytes_sent == old.bytes_sent
    &&& new.bytes_received == old.bytes_received
    &&& new.connected_at == Some(at)
    &&& new.first_connect_time == if old.success == 0 {
        Some(first)
    } else {
        old.first_connect_time
    }
}

/// A success recorded from clock readings is a success counted.
pub proof fn lemma_recorded_is_counted(old: RelayStats, new: RelayStats, first: Instant, at: Instant)
    requires
        success_recorded(old, new, first, at),
    ensures
        success_counted(old, new),
{
}

/// Connection statistics of a relay.
#[derive(Debug)]
pub struct RelayStats {
    pub attempts: u32,
    pub success: i32,
    pub bytes_sent: u64,
    pub bytes_received: u64,
    pub connected_at: Option<Instant>,
    pub first_connect_time: Option<Instant>,
}

impl RelayStats {
    /// Statistics with nothing counted and no connection time.
    pub open spec fn is_fresh(&self) -> bool {
        &&& self.attempts == 0
        &&& self.success == 0
        &&& self.bytes_sent == 0
        &&& self.bytes_received == 0
        &&& self.connected_at is None
        &&& self.first_connect_time is None
    }

    /// Fresh statistics.
    pub fn new() -> (s: Self)
        ensures
            s.is_fresh(),
    {
        RelayStats {
            attempts: 0,
            success: 0,
            bytes_sent: 0,
            bytes_received: 0,
            connected_at: None,
            first_connect_time: None,
        }
    }

    /// Counts one connection attempt.
    pub fn add_attempt(&mut self)
        requires
            old(self).attempts < u32::MAX,
        ensures
            attempt_counted(*old(self), *final(self)),
    {
        self.attempts = self.attempts + 1;
    }

    /// Counts one successful connection and records when it happened; the
    /// first success also records the time of the first connection. The
    /// clock is read twice, first for the time of the first connection and
    /// then for this connection, and the readings are recorded as
    /// `record_success` says; what the clock reads is not known here.
    pub fn add_success(&mut self)
        requires
            old(self).success < i32::MAX,
        ensures
            success_counted(*old(self), *final(self)),
    {
        let first = now();
        let at = now();
        self.record_success(first, at);
        proof {
            lemma_recorded_is_counted(*old(self), *self, first, at);
        }
    }

    /// Counts one successful connection with the clock readings given: the
    /// connection time becomes `at`, and on the first success the time of
    /// the first connection becomes `first`.
    pub fn record_success(&mut self, first: Instant, at: Instant)
        requires
            old(self).success < i32::MAX,
        ensures
            success_recorded(*old(self), *final(self), first, at),
    {
        if self.success == 0 {
            self.first_connect_time = Some(first);
        }
        self.connected_at = Some(at);
        self.success = self.success + 1;
    }
}

/// Counting successes from fresh statistics: after `k` successes the count
/// is `k`, the time of the first connection is recorded exactly when `k` is
/// at least one, and it stays the one that the first success recorded; the
/// attempts and byte counters stay zero.
pub proof fn lemma_repeated_successes(steps: Seq<RelayStats>)
    requires
        steps.len() >= 1,
        steps[0].is_fresh(),
        forall|i: int| 0 <= i < steps.len() - 1 ==> #[trigger] success_counted(steps[i], steps[i + 1]),
    ensures
        forall|k: int|
            0 <= k < steps.len() ==> {
                &&& #[trigger] steps[k].success == k
                &&& steps[k].attempts == 0
                &&& steps[k].bytes_sent == 0
                &&& steps[k].bytes_received == 0
                &&& (steps[k].first_connect_time is Some <==> k >= 1)
                &&& (k >= 1 ==> steps[k].first_connect_time == steps[1].first_connect_time)
                &&& (k >= 1 ==> steps[k].connected_at is Some)
            },
    decreases steps.len(),
{
    if steps.len() > 1 {
        let prefix = steps.drop_last();
        assert forall|i: int| 0 <= i < prefix.len() - 1 implies #[trigger] success_counted(prefix[i], prefix[i + 1]) by {
            assert(success_counted(steps[i], steps[i + 1]));
        }
        lemma_repeated_successes(prefix);
        let n = steps.len() - 1;
        assert(success_counted(steps[n - 1], steps[n]));
        assert(prefix[n - 1] == steps[n - 1]);
        assert forall|k: int| 0 <= k < steps.len() implies {
            &&& #[trigger] steps[k].success == k
            &&& steps[k].attempts == 0
            &&& steps[k].bytes_sent == 0
            &&& steps[k].bytes_received == 0
            &&& (steps[k].first_connect_time is Some <==> k >= 1)
            &&& (k >= 1 ==> steps[k].first_connect_time == steps[1].first_connect_time)
            &&& (k >= 1 ==> steps[k].connected_at is Some)
        } by {
            if k < n {
                assert(prefix[k] == steps[k]);
                assert(prefix[k].success == k);
            } else {
                assert(prefix[n - 1].success == n - 1);
                if n > 1 {
                    assert(prefix[1] == steps[1]);
                    assert(prefix[n - 1].first_connect_time == prefix[1].first_connect_time);
                }
            }
        }
    }
}

/// Recording successes from fresh statistics with the clock readings
/// `firsts[i]` and `ats[i]` for the success at step `i`: after `k`
/// successes the count is `k`, the time of the first connection is the
/// `first` reading of the first success, and the connection time is the
/// `at` reading of the last one.
pub proof fn lemma_recorded_successes(steps: Seq<RelayStats>, firsts: Seq<Instant>, ats: Seq<Instant>)
    requires
        steps.len() >= 1,
        firsts.len() == steps.len() - 1,
        ats.len() == steps.len() - 1,
        steps[0].is_fresh(),
        forall|i: int|
            0 <= i < steps.len() - 1 ==> #[trigger] success_recorded(steps[i], steps[i + 1], firsts[i], ats[i]),
    ensures
        forall|k: int|
            1 <= k < steps.len() ==> {
                &&& #[trigger] steps[k].success == k
                &&& steps[k].first_connect_time == Some(firsts[0])
                &&& steps[k].connected_at == Some(ats[k - 1])
            },
    decreases steps.len(),
{
    if steps.len() > 1 {
        let n = steps.len() - 1;
        let prefix = steps.drop_last();
        let pf = firsts.drop_last();
        let pa = ats.drop_last();
        assert forall|i: int| 0 <= i < prefix.len() - 1 implies #[trigger] success_recorded(prefix[i], prefix[i + 1], pf[i], pa[i]) by {
            assert(success_recorded(steps[i], steps[i + 1], firsts[i], ats[i]));
        }
        lemma_recorded_successes(prefix, pf, pa);
        let last = n - 1;
        assert(success_recorded(steps[last], steps[last + 1], firsts[last], ats[last]));
        assert(steps[last + 1] == steps[n]);
        if n > 1 {
            assert(prefix[last] == steps[last]);
            assert(prefix[last].success == last);
            assert(pf[0] == firsts[0]);
        }
        assert forall|k: int| 1 <= k < steps.len() implies {
            &&& #[trigger] steps[k].success == k
            &&& steps[k].first_connect_time == Some(firsts[0])
            &&& steps[k].connected_at == Some(ats[k - 1])
        } by {
            if k < n {
                assert(prefix[k] == steps[k]);
                assert(pa[k - 1] == ats[k - 1]);
            }
        }
    }
}

} // verus!
