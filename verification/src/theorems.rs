//! What holds of every log, proved over the model.

use crate::model::{
    cleaned, expired, lemma_live_sorted, lemma_partition_point_front,
    lemma_partition_point_is, lemma_partition_point_splits, lemma_pushed_sorted, live,
    partition_point, payloads, pushed, replay, sorted, stale, Call, Entry,
};
use vstd::prelude::*;

verus! {

/// Whatever calls are made on a log, in whatever order and with whatever
/// times, its timestamps never decrease from one entry to the next.
pub proof fn theorem_order_is_kept(calls: Seq<Call>)
    ensures
        sorted(replay(calls)),
    decreases calls.len(),
{
    if calls.len() > 0 {
        let before = replay(calls.drop_last());
        theorem_order_is_kept(calls.drop_last());
        match calls.last() {
            Call::Clean { now, lifetime } => {
                lemma_live_sorted(before, now, lifetime);
            },
            Call::Push { now, data, lifetime } => {
                lemma_pushed_sorted(before, now, data, lifetime);
            },
        }
    }
}

/// A call fails exactly when its time lies before the newest stored entry,
/// and a call that fails leaves the log as it was.
pub proof fn theorem_failure_changes_nothing(s: Seq<Entry>, call: Call)
    ensures
        call.fails(s) <==> s.len() > 0 && call.now() < s.last().saved_at,
        call.fails(s) ==> call.apply(s) == s,
{
}

/// A push that succeeds puts the new entry last, behind the entries that
/// were live before it; nothing that was live is lost.
pub proof fn theorem_push_appends(s: Seq<Entry>, now: u64, data: Seq<u8>, lifetime: u64)
    requires
        !stale(s, now),
    ensures
        pushed(s, now, data, lifetime).last() == (Entry { data, saved_at: now }),
        pushed(s, now, data, lifetime).drop_last() == live(s, now, lifetime),
{
    let kept = live(s, now, lifetime);
    assert(kept.push(Entry { data, saved_at: now }).drop_last() =~= kept);
}

/// While the times of the calls never decrease, no call fails.
pub proof fn theorem_calls_in_order_succeed(calls: Seq<Call>)
    requires
        forall|i: int, j: int| 0 <= i <= j < calls.len() ==> calls[i].now() <= calls[j].now(),
    ensures
        forall|k: int| 0 <= k < calls.len() ==> !(#[trigger] calls[k]).fails(replay(calls.take(k))),
        calls.len() > 0 ==> !stale(replay(calls), calls.last().now()),
    decreases calls.len(),
{
    if calls.len() > 0 {
        let n = calls.len() - 1;
        let head = calls.drop_last();
        let last = calls.last();
        assert forall|i: int, j: int| 0 <= i <= j < head.len() implies head[i].now()
            <= head[j].now() by {
            assert(head[i] == calls[i]);
            assert(head[j] == calls[j]);
        }
        theorem_calls_in_order_succeed(head);
        let before = replay(head);
        if head.len() > 0 {
            assert(head.last() == calls[n - 1]);
            assert(calls[n - 1].now() <= calls[n].now());
        }
        assert(!stale(before, last.now()));
        assert forall|k: int| 0 <= k < calls.len() implies !(#[trigger] calls[k]).fails(
            replay(calls.take(k)),
        ) by {
            if k < n {
                assert(calls.take(k) =~= head.take(k));
                assert(calls[k] == head[k]);
            } else {
                assert(calls.take(k) =~= head);
            }
        }
        let after = replay(calls);
        match last {
            Call::Clean { now, lifetime } => {
                lemma_partition_point_front(before, now, lifetime);
                if after.len() > 0 {
                    assert(after.last() == before.last());
                }
            },
            Call::Push { now, data, lifetime } => {},
        }
    }
}

/// A stored entry is among the live ones at `now` exactly when it is younger
/// than `lifetime`; one that is exactly `lifetime` old is not.
pub proof fn theorem_live_iff_young(s: Seq<Entry>, now: u64, lifetime: u64)
    requires
        sorted(s),
    ensures
        forall|i: int|
            0 <= i < s.len() ==> (live(s, now, lifetime).contains(#[trigger] s[i]) <==> now
                - s[i].saved_at < lifetime),
        forall|k: int|
            0 <= k < live(s, now, lifetime).len() ==> s.contains(
                #[trigger] live(s, now, lifetime)[k],
            ),
{
    lemma_partition_point_splits(s, now, lifetime);
    let p = partition_point(s, now, lifetime) as int;
    let kept = live(s, now, lifetime);
    assert forall|i: int| 0 <= i < s.len() implies (kept.contains(#[trigger] s[i]) <==> now
        - s[i].saved_at < lifetime) by {
        if !expired(s[i].saved_at, now, lifetime) {
            assert(kept[i - p] == s[i]);
        }
        if kept.contains(s[i]) {
            let k = choose|k: int| 0 <= k < kept.len() && kept[k] == s[i];
            assert(kept[k] == s[p + k]);
            assert(!expired(s[p + k].saved_at, now, lifetime));
        }
    }
    assert forall|k: int| 0 <= k < kept.len() implies s.contains(#[trigger] kept[k]) by {
        assert(kept[k] == s[p + k]);
    }
}

/// The live entries are the stored ones from the partition point on, in
/// their stored order: reading drops a front and nothing else.
pub proof fn theorem_live_is_a_tail(s: Seq<Entry>, now: u64, lifetime: u64)
    ensures
        partition_point(s, now, lifetime) <= s.len(),
        live(s, now, lifetime).len() == s.len() - partition_point(s, now, lifetime),
        forall|k: int|
            0 <= k < live(s, now, lifetime).len() ==> #[trigger] live(s, now, lifetime)[k] == s[
                partition_point(s, now, lifetime) + k
            ],
{
    lemma_partition_point_front(s, now, lifetime);
}

/// After a cleanup at `now` no stored entry is expired at `now`, and a
/// second cleanup at the same `now` succeeds and removes nothing more.
pub proof fn theorem_clean_twice(s: Seq<Entry>, now: u64, lifetime: u64)
    requires
        sorted(s),
        !stale(s, now),
    ensures
        forall|k: int|
            0 <= k < cleaned(s, now, lifetime).len() ==> !expired(
                (#[trigger] cleaned(s, now, lifetime)[k]).saved_at,
                now,
                lifetime,
            ),
        !stale(cleaned(s, now, lifetime), now),
        cleaned(cleaned(s, now, lifetime), now, lifetime) == cleaned(s, now, lifetime),
{
    lemma_partition_point_splits(s, now, lifetime);
    let p = partition_point(s, now, lifetime) as int;
    let once = cleaned(s, now, lifetime);
    assert forall|k: int| 0 <= k < once.len() implies !expired(
        (#[trigger] once[k]).saved_at,
        now,
        lifetime,
    ) by {
        assert(once[k] == s[p + k]);
    }
    if once.len() > 0 {
        assert(once.last() == s.last());
    }
    lemma_partition_point_is(once, 0, now, lifetime);
    assert(once.skip(0) =~= once);
}

/// A cleanup at `now` on any log, failed or not, followed by a second one at
/// the same `now`, leaves what the first one left.
pub proof fn theorem_clean_is_idempotent(s: Seq<Entry>, now: u64, lifetime: u64)
    requires
        sorted(s),
    ensures
        cleaned(cleaned(s, now, lifetime), now, lifetime) == cleaned(s, now, lifetime),
        stale(cleaned(s, now, lifetime), now) == stale(s, now),
{
    if !stale(s, now) {
        theorem_clean_twice(s, now, lifetime);
    }
}

/// Reading at `now` gives the payloads of exactly the entries that a cleanup
/// at `now` leaves in the log, in the same order.
///
/// This is stated of every log but one on which the cleanup fails while
/// some entry is expired: there the read drops the expired entries and the
/// failed cleanup drops nothing.
pub proof fn theorem_read_agrees_with_clean(s: Seq<Entry>, now: u64, lifetime: u64)
    requires
        stale(s, now) ==> partition_point(s, now, lifetime) == 0,
    ensures
        live(s, now, lifetime) == cleaned(s, now, lifetime),
        payloads(live(s, now, lifetime)) == payloads(cleaned(s, now, lifetime)),
{
    if stale(s, now) {
        assert(s.skip(0) =~= s);
    }
}

} // verus!
