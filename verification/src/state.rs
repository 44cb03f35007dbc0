//! The state that the ingester writes and the display reads: the latest
//! record, a log of the last hundred entries, and the name of the source.
//!
//! Whoever holds a `&mut SharedState` holds it alone, so each method here is
//! one undivided change; a program with more than one thread keeps the state
//! behind one lock and calls these methods with the lock held.

use crate::codec::record_view;
use crate::record::{CycleRecord, RecordView};
use crate::text::texts;
use vstd::prelude::*;

verus! {

/// The most entries that the log keeps.
pub const LOG_CAPACITY: usize = 100;

/// What a [`SharedState`] is, as a mathematical value.
pub struct StateView {
    pub latest_record: Option<RecordView>,
    pub log: Seq<Seq<char>>,
    pub source_name: Seq<char>,
}

/// The newest entries of a log: all of them, or the last hundred.
pub open spec fn newest(log: Seq<Seq<char>>) -> Seq<Seq<char>> {
    if log.len() > LOG_CAPACITY {
        log.skip(log.len() - LOG_CAPACITY)
    } else {
        log
    }
}

/// A log after one more entry: the entry comes last, and the oldest entry
/// leaves when the log would hold more than a hundred.
pub open spec fn appended(log: Seq<Seq<char>>, entry: Seq<char>) -> Seq<Seq<char>> {
    newest(log.push(entry))
}

/// A log after a run of entries, appended in order.
pub open spec fn appended_all(log: Seq<Seq<char>>, entries: Seq<Seq<char>>) -> Seq<Seq<char>>
    decreases entries.len(),
{
    if entries.len() == 0 {
        log
    } else {
        appended(appended_all(log, entries.drop_last()), entries.last())
    }
}

/// The latest record, the log and the name of the source.
#[derive(Debug)]
pub struct SharedState {
    latest_record: Option<CycleRecord>,
    log: Vec<String>,
    source_name: String,
}

impl View for SharedState {
    type V = StateView;

    closed spec fn view(&self) -> StateView {
        StateView {
            latest_record: record_view(self.latest_record),
            log: texts(self.log@),
            source_name: self.source_name@,
        }
    }
}

impl SharedState {
    /// The log holds at most a hundred entries.
    #[verifier::type_invariant]
    spec fn well_formed(self) -> bool {
        self.log@.len() <= LOG_CAPACITY
    }

    /// The state before anything has arrived: no record, an empty log.
    pub fn new(source_name: String) -> (state: Self)
        ensures
            state@ == (StateView {
                latest_record: None,
                log: Seq::empty(),
                source_name: source_name@,
            }),
    {
        let state = SharedState { latest_record: None, log: Vec::new(), source_name };
        assert(state@.log =~= Seq::<Seq<char>>::empty());
        state
    }

    /// The record that arrived last, if any has.
    pub fn latest_record(&self) -> (record: Option<&CycleRecord>)
        ensures
            match record {
                Some(record) => self@.latest_record == Some(record@),
                None => self@.latest_record is None,
            },
    {
        self.latest_record.as_ref()
    }

    /// The log, oldest entry first.
    pub fn log(&self) -> (log: &Vec<String>)
        ensures
            texts(log@) == self@.log,
            log@.len() <= LOG_CAPACITY,
    {
        proof {
            use_type_invariant(self);
        }
        &self.log
    }

    /// The name of the source that the records come from.
    pub fn source_name(&self) -> (name: &str)
        ensures
            name@ == self@.source_name,
    {
        self.source_name.as_str()
    }

    /// Takes a record as the latest one.
    pub fn set_latest(&mut self, record: CycleRecord)
        ensures
            final(self)@ == (StateView { latest_record: Some(record@), ..old(self)@ }),
    {
        proof {
            use_type_invariant(&*self);
        }
        self.latest_record = Some(record);
    }

    /// Appends an entry to the log; with a hundred entries there already,
    /// the oldest one leaves.
    pub fn append(&mut self, entry: String)
        ensures
            final(self)@ == (StateView { log: appended(old(self)@.log, entry@), ..old(self)@ }),
            final(self)@.log.len() <= LOG_CAPACITY,
    {
        proof {
            use_type_invariant(&*self);
        }
        let mut log: Vec<String> = Vec::new();
        core::mem::swap(&mut self.log, &mut log);
        log.push(entry);
        if log.len() > LOG_CAPACITY {
            log.remove(0);
        }
        assert(texts(log@) =~= appended(old(self)@.log, entry@));
        core::mem::swap(&mut self.log, &mut log);
    }
}

/// However many entries are appended, the log holds the newest hundred of
/// all that it has been given, in the order in which they came.
pub proof fn log_keeps_newest(log: Seq<Seq<char>>, entries: Seq<Seq<char>>)
    ensures
        appended_all(newest(log), entries) == newest(log + entries),
        appended_all(newest(log), entries).len() <= LOG_CAPACITY,
        log.len() <= LOG_CAPACITY ==> appended_all(log, entries) == newest(log + entries),
    decreases entries.len(),
{
    if entries.len() == 0 {
        assert(log + entries =~= log);
    } else {
        log_keeps_newest(log, entries.drop_last());
        let before = log + entries.drop_last();
        assert(before.push(entries.last()) =~= log + entries);
        assert(newest(newest(before).push(entries.last())) =~= newest(before.push(entries.last())));
    }
}

} // verus!
