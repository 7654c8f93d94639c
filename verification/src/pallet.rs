//! The rules of the module that keeps the log: who may record data, what a
//! call leaves stored and what it announces.
//!
//! The module's state is the stored log, which is absent until a call first
//! writes it, and the retention window it was set up with. A call that fails
//! leaves the state as it found it.

use crate::model::{live, payloads, pushed, stale, Entry};
use crate::oracle_data;
use crate::oracle_data::{Data, OracleStorage};
use vstd::prelude::*;
use vstd::slice::slice_to_vec;
use vstd::std_specs::convert::FromSpecImpl;

verus! {

/// Where a call comes from, as far as the module's rules read it.
#[derive(Debug, PartialEq, Eq, Clone, Copy)]
pub enum Origin {
    /// The system itself.
    Root,
    /// A signed call; the flag says whether the signer is the oracle
    /// authority.
    Signed { by_authority: bool },
    /// A call that nobody signed.
    Unsigned,
}

/// What the module announces.
#[derive(Debug, PartialEq, Eq)]
pub enum Event {
    /// Data was recorded.
    Emitted { data: Data },
}

impl Clone for Event {
    fn clone(&self) -> (r: Self)
        ensures
            self matches Event::Emitted { data } ==> r matches Event::Emitted { data: copy }
                && copy@ == data@,
    {
        match self {
            Event::Emitted { data } => {
                let copy = data.clone();
                assert(copy@ =~= data@);
                Event::Emitted { data: copy }
            },
        }
    }
}

/// The ways a call is refused by the module's own rules.
#[derive(Debug, PartialEq, Eq, Clone, Copy)]
pub enum Error {
    /// The call was signed, but not by the oracle authority.
    WrongAuthority,
    /// The log already holds an entry newer than the time of the call.
    AttemptToInsertHistoricalData,
}

impl From<oracle_data::Error> for Error {
    fn from(item: oracle_data::Error) -> (r: Self) {
        match item {
            oracle_data::Error::AttemptToInsertHistoricalData => {
                Error::AttemptToInsertHistoricalData
            },
        }
    }
}

impl FromSpecImpl<oracle_data::Error> for Error {
    open spec fn obeys_from_spec() -> bool {
        true
    }

    open spec fn from_spec(item: oracle_data::Error) -> Self {
        Error::AttemptToInsertHistoricalData
    }
}

/// Why a call failed.
#[derive(Debug, PartialEq, Eq, Clone, Copy)]
pub enum DispatchError {
    /// The call does not come from a signer.
    BadOrigin,
    /// The module's rules refused the call.
    Module(Error),
}

/// The module's state as the contracts see it.
pub struct PalletView {
    /// The stored log, if a call has written it yet.
    pub storage: Option<Seq<Entry>>,
    /// The retention window.
    pub lifetime: u64,
}

impl PalletView {
    /// The entries that are stored: none while the log is absent.
    pub open spec fn entries(self) -> Seq<Entry> {
        match self.storage {
            Some(entries) => entries,
            None => Seq::empty(),
        }
    }
}

/// The module: the stored log and the retention window of its entries.
pub struct Pallet {
    events_storage: Option<OracleStorage>,
    oracle_data_lifetime: u64,
}

impl View for Pallet {
    type V = PalletView;

    closed spec fn view(&self) -> PalletView {
        PalletView {
            storage: match self.events_storage {
                Some(log) => Some(log@),
                None => None,
            },
            lifetime: self.oracle_data_lifetime,
        }
    }
}

impl Pallet {
    /// A module that has stored nothing yet.
    pub fn new(oracle_data_lifetime: u64) -> (r: Self)
        ensures
            r@ == (PalletView { storage: None, lifetime: oracle_data_lifetime }),
    {
        Pallet { events_storage: None, oracle_data_lifetime }
    }

    /// A module with the given stored log.
    pub fn from_parts(events_storage: Option<OracleStorage>, oracle_data_lifetime: u64) -> (r:
        Self)
        ensures
            r@.lifetime == oracle_data_lifetime,
            r@.storage is Some <==> events_storage is Some,
            events_storage matches Some(log) ==> r@.storage == Some(log@),
    {
        Pallet { events_storage, oracle_data_lifetime }
    }

    /// The stored log, to be kept until the next call.
    pub fn into_storage(self) -> (r: Option<OracleStorage>)
        ensures
            r is Some <==> self@.storage is Some,
            r matches Some(log) ==> self@.storage == Some(log@),
    {
        self.events_storage
    }

    /// The retention window.
    pub fn oracle_data_lifetime(&self) -> (r: u64)
        ensures
            r == self@.lifetime,
    {
        self.oracle_data_lifetime
    }

    /// The data that is live at `now`, in chronological order, each payload
    /// copied out; `None` while nothing was ever stored.
    pub fn oracle_data(&self, now: u64) -> (r: Option<Vec<Data>>)
        ensures
            r is None <==> self@.storage is None,
            r matches Some(copies) ==> {
                let kept = payloads(live(self@.entries(), now, self@.lifetime));
                &&& copies@.len() == kept.len()
                &&& forall|k: int| 0 <= k < kept.len() ==> (#[trigger] copies@[k])@ == kept[k]
            },
    {
        match &self.events_storage {
            None => None,
            Some(log) => {
                let views = log.iter_data(now, self.oracle_data_lifetime);
                let mut out: Vec<Data> = Vec::new();
                let mut i: usize = 0;
                while i < views.len()
                    invariant
                        i <= views@.len(),
                        out@.len() == i,
                        forall|k: int| 0 <= k < i ==> (#[trigger] out@[k])@ == views@[k]@,
                    decreases views@.len() - i,
                {
                    out.push(slice_to_vec(views[i]));
                    i = i + 1;
                }
                Some(out)
            },
        }
    }

    /// Clean outdated data from the stored log. Anyone may call this.
    ///
    /// A log that was absent is stored empty. The call fails, and changes
    /// nothing, where the log holds an entry newer than `now`.
    pub fn clean_outdated_data(&mut self, _origin: Origin, now: u64) -> (r: Result<
        (),
        DispatchError,
    >)
        ensures
            final(self)@.lifetime == old(self)@.lifetime,
            r is Err <==> stale(old(self)@.entries(), now),
            r is Err ==> r == Err::<(), DispatchError>(
                DispatchError::Module(Error::AttemptToInsertHistoricalData),
            ) && final(self)@ == old(self)@,
            r is Ok ==> final(self)@.storage == Some(
                live(old(self)@.entries(), now, old(self)@.lifetime),
            ),
    {
        let mut log = match self.events_storage.take() {
            Some(log) => log,
            None => OracleStorage::default(),
        };
        match log.clean_outdated_data(now, self.oracle_data_lifetime) {
            Ok(()) => {
                self.events_storage = Some(log);
                Ok(())
            },
            Err(e) => {
                // Only a log that was stored can hold an entry newer than `now`.
                self.events_storage = Some(log);
                Err(DispatchError::Module(Error::from(e)))
            },
        }
    }

    /// Push oracle data: record `data` at `now` and announce it.
    ///
    /// Only a call signed by the oracle authority is let through. A call
    /// that is let through cleans outdated data first, and fails where the
    /// log holds an entry newer than `now`. A call that fails changes nothing
    /// and announces nothing.
    pub fn push_data(&mut self, origin: Origin, now: u64, data: Data) -> (r: Result<
        Event,
        DispatchError,
    >)
        ensures
            final(self)@.lifetime == old(self)@.lifetime,
            match origin {
                Origin::Signed { by_authority: true } => {
                    if stale(old(self)@.entries(), now) {
                        &&& r matches Err(e)
                        &&& e == DispatchError::Module(Error::AttemptToInsertHistoricalData)
                        &&& final(self)@ == old(self)@
                    } else {
                        &&& r matches Ok(Event::Emitted { data: announced })
                        &&& announced@ == data@
                        &&& final(self)@.storage == Some(
                            pushed(old(self)@.entries(), now, data@, old(self)@.lifetime),
                        )
                    }
                },
                Origin::Signed { by_authority: false } => {
                    &&& r matches Err(e)
                    &&& e == DispatchError::Module(Error::WrongAuthority)
                    &&& final(self)@ == old(self)@
                },
                _ => {
                    &&& r matches Err(e)
                    &&& e == DispatchError::BadOrigin
                    &&& final(self)@ == old(self)@
                },
            },
    {
        let by_authority = match origin {
            Origin::Signed { by_authority } => by_authority,
            _ => {
                return Err(DispatchError::BadOrigin);
            },
        };
        if !by_authority {
            return Err(DispatchError::Module(Error::WrongAuthority));
        }
        let announced = data.clone();
        assert(announced@ =~= data@);
        let mut log = match self.events_storage.take() {
            Some(log) => log,
            None => OracleStorage::default(),
        };
        match log.push(now, data, self.oracle_data_lifetime) {
            Ok(()) => {
                self.events_storage = Some(log);
                Ok(Event::Emitted { data: announced })
            },
            Err(e) => {
                // Only a log that was stored can hold an entry newer than `now`.
                self.events_storage = Some(log);
                Err(DispatchError::Module(Error::from(e)))
            },
        }
    }
}

} // verus!
