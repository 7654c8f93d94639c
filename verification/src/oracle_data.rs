//! A log of opaque payloads, each stamped with the moment it was recorded.
//!
//! Entries are appended in the order of their timestamps and are visible only
//! while they are younger than a retention window that the caller supplies
//! with every call.

use crate::model::{
    cleaned, expired, lemma_partition_point_is, lemma_pushed_sorted, live, partition_point,
    payloads, pushed, sorted, stale, Entry,
};
use core::cmp::Ordering;
use vstd::prelude::*;
use vstd::std_specs::cmp::PartialOrdSpecImpl;

verus! {

/// The payload of an entry: bytes that the log never looks into.
pub type Data = Vec<u8>;

/// The only way an operation on the log fails.
#[derive(Debug, PartialEq, Eq, Clone, Copy)]
pub enum Error {
    /// An attempt was made to insert outdated data: the log already holds an
    /// entry that is newer than the given time.
    AttemptToInsertHistoricalData,
}

/// One stored entry: a payload and the moment it was recorded.
#[derive(Debug, PartialEq)]
pub struct OracleData {
    data: Data,
    saved_at: u64,
}

impl View for OracleData {
    type V = Entry;

    closed spec fn view(&self) -> Entry {
        Entry { data: self.data@, saved_at: self.saved_at }
    }
}

impl Clone for OracleData {
    fn clone(&self) -> (r: Self)
        ensures
            r@ == self@,
    {
        let data = self.data.clone();
        assert(data@ =~= self.data@);
        OracleData { data, saved_at: self.saved_at }
    }
}

impl Default for OracleData {
    fn default() -> (r: Self)
        ensures
            r@ == (Entry { data: Seq::empty(), saved_at: 0 }),
    {
        OracleData { data: Vec::new(), saved_at: 0 }
    }
}

/// Entries are ordered by the moment they were recorded, whatever they hold.
impl PartialOrd for OracleData {
    fn partial_cmp(&self, other: &Self) -> (r: Option<Ordering>) {
        self.saved_at.partial_cmp(&other.saved_at)
    }
}

impl PartialOrdSpecImpl for OracleData {
    open spec fn obeys_partial_cmp_spec() -> bool {
        true
    }

    open spec fn partial_cmp_spec(&self, other: &Self) -> Option<Ordering> {
        if self@.saved_at < other@.saved_at {
            Some(Ordering::Less)
        } else if self@.saved_at == other@.saved_at {
            Some(Ordering::Equal)
        } else {
            Some(Ordering::Greater)
        }
    }
}

impl OracleData {
    /// An entry with the given payload, recorded at `saved_at`.
    pub fn new(data: Data, saved_at: u64) -> (r: Self)
        ensures
            r@ == (Entry { data: data@, saved_at }),
    {
        OracleData { data, saved_at }
    }

    /// The payload.
    pub fn data(&self) -> (r: &[u8])
        ensures
            r@ == self@.data,
    {
        self.data.as_slice()
    }

    /// The moment the entry was recorded.
    pub fn saved_at(&self) -> (r: u64)
        ensures
            r == self@.saved_at,
    {
        self.saved_at
    }
}

/// Decides [`expired`] on machine integers without overflow.
pub fn is_expired(saved_at: u64, now: u64, lifetime: u64) -> (r: bool)
    ensures
        r == expired(saved_at, now, lifetime),
{
    if now < saved_at {
        false
    } else {
        now - saved_at >= lifetime
    }
}

/// What a vector of entries holds, as the contracts see it.
pub open spec fn entries_view(entries: Seq<OracleData>) -> Seq<Entry> {
    Seq::new(entries.len(), |i: int| entries[i]@)
}

/// The log: entries in the order of their timestamps.
///
/// Whatever is done to a log, its timestamps never decrease from one entry
/// to the next.
#[derive(Debug, PartialEq)]
pub struct OracleStorage(Vec<OracleData>);

impl View for OracleStorage {
    type V = Seq<Entry>;

    closed spec fn view(&self) -> Seq<Entry> {
        entries_view(self.0@)
    }
}

impl Clone for OracleStorage {
    fn clone(&self) -> (r: Self)
        ensures
            r@ == self@,
    {
        proof {
            use_type_invariant(self);
        }
        let mut entries: Vec<OracleData> = Vec::new();
        let mut i: usize = 0;
        while i < self.0.len()
            invariant
                i <= self.0.len(),
                entries@.len() == i,
                forall|k: int| 0 <= k < i ==> (#[trigger] entries@[k])@ == self@[k],
            decreases self.0.len() - i,
        {
            entries.push(self.0[i].clone());
            i = i + 1;
        }
        assert(entries_view(entries@) =~= self@);
        OracleStorage(entries)
    }
}

impl Default for OracleStorage {
    fn default() -> (r: Self)
        ensures
            r@ == Seq::<Entry>::empty(),
    {
        let entries: Vec<OracleData> = Vec::new();
        assert(entries_view(entries@) =~= Seq::<Entry>::empty());
        OracleStorage(entries)
    }
}

impl OracleStorage {
    #[verifier::type_invariant]
    spec fn ordered(&self) -> bool {
        sorted(self@)
    }

    /// A log of the given entries, where their timestamps never decrease;
    /// `None` where one is older than the one before it.
    pub fn from_entries(entries: Vec<OracleData>) -> (r: Option<Self>)
        ensures
            r is Some <==> sorted(entries_view(entries@)),
            r matches Some(log) ==> log@ == entries_view(entries@),
    {
        let mut i: usize = 1;
        while i < entries.len()
            invariant
                1 <= i,
                forall|a: int, b: int|
                    0 <= a <= b < i && b < entries@.len() ==> entries@[a]@.saved_at
                        <= entries@[b]@.saved_at,
            decreases entries.len() - i,
        {
            if entries[i - 1].saved_at > entries[i].saved_at {
                assert(entries_view(entries@)[i - 1].saved_at > entries_view(
                    entries@,
                )[i as int].saved_at);
                return None;
            }
            assert forall|a: int, b: int| 0 <= a <= b < i + 1 implies entries@[a]@.saved_at
                <= entries@[b]@.saved_at by {
                if b == i && a < i {
                    assert(entries@[a]@.saved_at <= entries@[i - 1]@.saved_at);
                }
            }
            i = i + 1;
        }
        assert(sorted(entries_view(entries@)));
        Some(OracleStorage(entries))
    }

    /// The stored entries, oldest first, expired ones included.
    pub fn into_entries(self) -> (r: Vec<OracleData>)
        ensures
            entries_view(r@) == self@,
            sorted(self@),
    {
        proof {
            use_type_invariant(&self);
        }
        self.0
    }

    /// The number of stored entries, expired ones included.
    pub fn len(&self) -> (r: usize)
        ensures
            r == self@.len(),
    {
        self.0.len()
    }

    /// The stored entries, oldest first, expired ones included.
    pub fn as_slice(&self) -> (r: &[OracleData])
        ensures
            entries_view(r@) == self@,
            sorted(self@),
    {
        proof {
            use_type_invariant(self);
        }
        self.0.as_slice()
    }

    /// The index of the first entry that is live at `now`, or the length of
    /// the log where none is: found by bisection.
    pub fn partition_point(&self, now: u64, lifetime: u64) -> (p: usize)
        ensures
            p == partition_point(self@, now, lifetime),
            p <= self@.len(),
    {
        proof {
            use_type_invariant(self);
        }
        let mut low: usize = 0;
        let mut high: usize = self.0.len();
        while low < high
            invariant
                low <= high <= self@.len(),
                self@.len() == self.0@.len(),
                sorted(self@),
                forall|i: int| 0 <= i < self@.len() ==> (#[trigger] self@[i]) == self.0@[i]@,
                forall|i: int| 0 <= i < low ==> expired((#[trigger] self@[i]).saved_at, now, lifetime),
                forall|i: int|
                    high <= i < self@.len() ==> !expired(
                        (#[trigger] self@[i]).saved_at,
                        now,
                        lifetime,
                    ),
            decreases high - low,
        {
            let mid: usize = low + (high - low) / 2;
            if is_expired(self.0[mid].saved_at, now, lifetime) {
                assert forall|i: int| 0 <= i < mid + 1 implies expired(
                    (#[trigger] self@[i]).saved_at,
                    now,
                    lifetime,
                ) by {
                    assert(self@[i].saved_at <= self@[mid as int].saved_at);
                }
                low = mid + 1;
            } else {
                assert forall|i: int| mid <= i < self@.len() implies !expired(
                    (#[trigger] self@[i]).saved_at,
                    now,
                    lifetime,
                ) by {
                    assert(self@[mid as int].saved_at <= self@[i].saved_at);
                }
                high = mid;
            }
        }
        proof {
            lemma_partition_point_is(self@, low as int, now, lifetime);
        }
        low
    }

    /// The payloads of the entries that are live at `now`, oldest first.
    ///
    /// The log is left as it is: expired entries stay stored until
    /// [`Self::clean_outdated_data`] or [`Self::push`] removes them.
    pub fn iter_data(&self, now: u64, lifetime: u64) -> (r: Vec<&[u8]>)
        ensures
            r@.len() == payloads(live(self@, now, lifetime)).len(),
            forall|k: int|
                0 <= k < r@.len() ==> (#[trigger] r@[k])@ == payloads(
                    live(self@, now, lifetime),
                )[k],
    {
        let start = self.partition_point(now, lifetime);
        let mut out: Vec<&[u8]> = Vec::new();
        let mut i: usize = start;
        while i < self.0.len()
            invariant
                start <= i <= self.0@.len(),
                start == partition_point(self@, now, lifetime),
                self@.len() == self.0@.len(),
                forall|j: int| 0 <= j < self@.len() ==> (#[trigger] self@[j]) == self.0@[j]@,
                out@.len() == i - start,
                forall|k: int| 0 <= k < out@.len() ==> (#[trigger] out@[k])@ == self@[start + k].data,
            decreases self.0@.len() - i,
        {
            out.push(self.0[i].data.as_slice());
            i = i + 1;
        }
        out
    }

    /// Delete the entries that have lived for `lifetime` or longer at `now`.
    ///
    /// Fails, and deletes nothing, where the log holds an entry newer than
    /// `now`.
    pub fn clean_outdated_data(&mut self, now: u64, lifetime: u64) -> (r: Result<(), Error>)
        ensures
            r is Err <==> stale(old(self)@, now),
            final(self)@ == cleaned(old(self)@, now, lifetime),
            sorted(final(self)@),
    {
        proof {
            use_type_invariant(&*self);
        }
        let len = self.0.len();
        if len > 0 && self.0[len - 1].saved_at > now {
            return Err(Error::AttemptToInsertHistoricalData);
        }
        let point = self.partition_point(now, lifetime);
        let mut entries: Vec<OracleData> = Vec::new();
        core::mem::swap(&mut self.0, &mut entries);
        let kept = entries.split_off(point);
        assert(entries_view(kept@) =~= live(old(self)@, now, lifetime));
        self.0 = kept;
        Ok(())
    }

    /// Push new data to the log, after cleaning outdated data.
    ///
    /// Fails, and changes nothing, where the log holds an entry newer than
    /// `now`.
    pub fn push(&mut self, now: u64, data: Data, lifetime: u64) -> (r: Result<(), Error>)
        ensures
            r is Err <==> stale(old(self)@, now),
            final(self)@ == pushed(old(self)@, now, data@, lifetime),
            sorted(final(self)@),
    {
        proof {
            use_type_invariant(&*self);
            lemma_pushed_sorted(self@, now, data@, lifetime);
        }
        match self.clean_outdated_data(now, lifetime) {
            Err(e) => {
                return Err(e);
            },
            Ok(()) => {},
        }
        let mut entries: Vec<OracleData> = Vec::new();
        core::mem::swap(&mut self.0, &mut entries);
        entries.push(OracleData { data, saved_at: now });
        assert(entries_view(entries@) =~= pushed(old(self)@, now, data@, lifetime));
        self.0 = entries;
        Ok(())
    }
}

} // verus!
