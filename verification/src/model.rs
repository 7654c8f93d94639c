//! The log as a mathematical sequence, and what its operations do to it.
//!
//! Every contract of the executable code is stated over the functions of
//! this module.

use vstd::prelude::*;

verus! {

/// An entry as the contracts see it.
pub struct Entry {
    /// The payload.
    pub data: Seq<u8>,
    /// The moment the entry was recorded.
    pub saved_at: u64,
}

/// Whether an entry recorded at `saved_at` has outlived `lifetime` at time `now`.
///
/// The age is `now - saved_at`, taken over the integers. An entry that is
/// exactly `lifetime` old is expired. One recorded after `now` has a negative
/// age and is never expired.
pub open spec fn expired(saved_at: u64, now: u64, lifetime: u64) -> bool {
    now - saved_at >= lifetime
}

/// Timestamps never decrease along the sequence.
pub open spec fn sorted(s: Seq<Entry>) -> bool {
    forall|i: int, j: int| 0 <= i <= j < s.len() ==> s[i].saved_at <= s[j].saved_at
}

/// The number of expired entries at the front of `s`.
///
/// In a [`sorted`] sequence this is the partition point: every entry before
/// it is expired and every entry from it on is live
/// ([`lemma_partition_point_splits`]).
pub open spec fn partition_point(s: Seq<Entry>, now: u64, lifetime: u64) -> nat
    decreases s.len(),
{
    if s.len() == 0 || !expired(s[0].saved_at, now, lifetime) {
        0
    } else {
        1 + partition_point(s.drop_first(), now, lifetime)
    }
}

/// The entries of `s` that are live at `now`, oldest first.
pub open spec fn live(s: Seq<Entry>, now: u64, lifetime: u64) -> Seq<Entry> {
    s.skip(partition_point(s, now, lifetime) as int)
}

/// The payloads of `s`, in its order.
pub open spec fn payloads(s: Seq<Entry>) -> Seq<Seq<u8>> {
    Seq::new(s.len(), |i: int| s[i].data)
}

/// Whether `now` lies before the newest entry of `s`.
pub open spec fn stale(s: Seq<Entry>, now: u64) -> bool {
    s.len() > 0 && s.last().saved_at > now
}

/// The log after a cleanup at `now`: untouched where `now` is stale, else its
/// live entries.
pub open spec fn cleaned(s: Seq<Entry>, now: u64, lifetime: u64) -> Seq<Entry> {
    if stale(s, now) {
        s
    } else {
        live(s, now, lifetime)
    }
}

/// The log after an attempt to record `data` at `now`: untouched where `now`
/// is stale, else its live entries followed by the new one.
pub open spec fn pushed(s: Seq<Entry>, now: u64, data: Seq<u8>, lifetime: u64) -> Seq<Entry> {
    if stale(s, now) {
        s
    } else {
        live(s, now, lifetime).push(Entry { data, saved_at: now })
    }
}

/// One call that may change the log.
pub enum Call {
    /// A cleanup at `now`.
    Clean { now: u64, lifetime: u64 },
    /// An attempt to record `data` at `now`.
    Push { now: u64, data: Seq<u8>, lifetime: u64 },
}

impl Call {
    /// The time that the call was made with.
    pub open spec fn now(self) -> u64 {
        match self {
            Call::Clean { now, .. } => now,
            Call::Push { now, .. } => now,
        }
    }

    /// Whether the call fails on the log `s`.
    pub open spec fn fails(self, s: Seq<Entry>) -> bool {
        stale(s, self.now())
    }

    /// The log after the call was made on `s`.
    pub open spec fn apply(self, s: Seq<Entry>) -> Seq<Entry> {
        match self {
            Call::Clean { now, lifetime } => cleaned(s, now, lifetime),
            Call::Push { now, data, lifetime } => pushed(s, now, data, lifetime),
        }
    }
}

/// The log that a series of calls leaves, starting from the empty log.
pub open spec fn replay(calls: Seq<Call>) -> Seq<Entry>
    decreases calls.len(),
{
    if calls.len() == 0 {
        Seq::empty()
    } else {
        calls.last().apply(replay(calls.drop_last()))
    }
}

/// The front that [`partition_point`] counts holds expired entries only, and
/// the entry behind it, if there is one, is live.
pub proof fn lemma_partition_point_front(s: Seq<Entry>, now: u64, lifetime: u64)
    ensures
        partition_point(s, now, lifetime) <= s.len(),
        forall|i: int|
            0 <= i < partition_point(s, now, lifetime) ==> expired(
                (#[trigger] s[i]).saved_at,
                now,
                lifetime,
            ),
        partition_point(s, now, lifetime) < s.len() ==> !expired(
            s[partition_point(s, now, lifetime) as int].saved_at,
            now,
            lifetime,
        ),
    decreases s.len(),
{
    if s.len() == 0 || !expired(s[0].saved_at, now, lifetime) {
    } else {
        let rest = s.drop_first();
        lemma_partition_point_front(rest, now, lifetime);
        let p = partition_point(s, now, lifetime);
        assert forall|i: int| 0 <= i < p implies expired((#[trigger] s[i]).saved_at, now, lifetime) by {
            if i > 0 {
                assert(s[i] == rest[i - 1]);
            }
        }
        if p < s.len() {
            assert(s[p as int] == rest[p - 1]);
        }
    }
}

/// In a sorted sequence the partition point splits the expired entries from
/// the live ones.
pub proof fn lemma_partition_point_splits(s: Seq<Entry>, now: u64, lifetime: u64)
    requires
        sorted(s),
    ensures
        partition_point(s, now, lifetime) <= s.len(),
        forall|i: int|
            0 <= i < s.len() ==> (i < partition_point(s, now, lifetime) <==> expired(
                (#[trigger] s[i]).saved_at,
                now,
                lifetime,
            )),
{
    lemma_partition_point_front(s, now, lifetime);
    let p = partition_point(s, now, lifetime) as int;
    assert forall|i: int| p <= i < s.len() implies !expired(
        (#[trigger] s[i]).saved_at,
        now,
        lifetime,
    ) by {
        assert(s[p].saved_at <= s[i].saved_at);
    }
}

/// An index with only expired entries before it and a live entry at it is the
/// partition point.
pub proof fn lemma_partition_point_is(s: Seq<Entry>, p: int, now: u64, lifetime: u64)
    requires
        0 <= p <= s.len(),
        forall|i: int| 0 <= i < p ==> expired((#[trigger] s[i]).saved_at, now, lifetime),
        p < s.len() ==> !expired(s[p].saved_at, now, lifetime),
    ensures
        partition_point(s, now, lifetime) == p,
    decreases p,
{
    if p > 0 {
        let rest = s.drop_first();
        assert(expired(s[0].saved_at, now, lifetime));
        assert forall|i: int| 0 <= i < p - 1 implies expired(
            (#[trigger] rest[i]).saved_at,
            now,
            lifetime,
        ) by {
            assert(rest[i] == s[i + 1]);
        }
        lemma_partition_point_is(rest, p - 1, now, lifetime);
    }
}

/// The live entries of a sorted sequence are sorted.
pub proof fn lemma_live_sorted(s: Seq<Entry>, now: u64, lifetime: u64)
    requires
        sorted(s),
    ensures
        sorted(live(s, now, lifetime)),
{
    lemma_partition_point_front(s, now, lifetime);
    let p = partition_point(s, now, lifetime) as int;
    let kept = live(s, now, lifetime);
    assert forall|i: int, j: int| 0 <= i <= j < kept.len() implies kept[i].saved_at
        <= kept[j].saved_at by {
        assert(kept[i] == s[p + i]);
        assert(kept[j] == s[p + j]);
    }
}

/// An attempt to record an entry, failed or not, keeps the order.
pub proof fn lemma_pushed_sorted(s: Seq<Entry>, now: u64, data: Seq<u8>, lifetime: u64)
    requires
        sorted(s),
    ensures
        sorted(pushed(s, now, data, lifetime)),
{
    if !stale(s, now) {
        lemma_partition_point_front(s, now, lifetime);
        lemma_live_sorted(s, now, lifetime);
        let p = partition_point(s, now, lifetime) as int;
        let kept = live(s, now, lifetime);
        let after = pushed(s, now, data, lifetime);
        assert forall|i: int, j: int| 0 <= i <= j < after.len() implies after[i].saved_at
            <= after[j].saved_at by {
            if j < kept.len() {
                assert(after[i] == kept[i]);
                assert(after[j] == kept[j]);
            } else if i < kept.len() {
                assert(after[i] == s[p + i]);
                assert(s[p + i].saved_at <= s.last().saved_at);
            }
        }
    }
}

} // verus!
