//! The sensor's side: the decisions of its loop, one cycle per scan.
//!
//! Scanning, waiting and writing to the serial line are not done here. The
//! loop asks [`next_directive`] what to do, hands each scan's outcome to
//! [`Sensor::on_scan`], and writes the line that it gets back.

use crate::codec::{encode, record_text, scan_failed_line};
use crate::record::{network_views, ObservedNetwork, RecordView};
use crate::tracker::{observe_all, presented, BaselineTracker, SlotView};
use vstd::prelude::*;

verus! {

/// The time from one scan to the next, in milliseconds.
pub const SCAN_INTERVAL_MS: u64 = 1000;

/// The pause at the end of each turn of the loop, in milliseconds.
pub const LOOP_DELAY_MS: u64 = 50;

/// What the sensor does in one turn of its loop, before the pause that ends
/// the turn.
#[derive(Debug, Clone, Copy, PartialEq, Eq, Structural)]
pub enum Directive {
    /// Scan now, and report the outcome.
    Scan,
    /// Nothing: the next scan is not due yet.
    Rest,
    /// Nothing, in this turn and in every later one, until the device is reset.
    Halt,
}

/// The directive for a turn that starts `elapsed_ms` milliseconds after the
/// last scan was due: a scan once a full interval has passed.
pub fn next_directive(elapsed_ms: u64) -> (directive: Directive)
    ensures
        directive == (if elapsed_ms >= SCAN_INTERVAL_MS {
            Directive::Scan
        } else {
            Directive::Rest
        }),
{
    if elapsed_ms >= SCAN_INTERVAL_MS {
        Directive::Scan
    } else {
        Directive::Rest
    }
}

/// The directive after a fault that the sensor cannot recover from: it
/// halts, and neither scans nor emits anything more.
pub fn panic() -> (directive: Directive)
    ensures
        directive == Directive::Halt,
{
    Directive::Halt
}

/// What a [`Sensor`] is, as a mathematical value.
pub struct SensorView {
    pub table: Seq<SlotView>,
    pub counter: u32,
}

/// The number of the cycle after `counter`; after the last number comes zero.
pub open spec fn next_counter(counter: u32) -> u32 {
    if counter == u32::MAX {
        0
    } else {
        (counter + 1) as u32
    }
}

/// The sensor's state: the table of baselines and the number of the next cycle.
#[derive(Debug)]
pub struct Sensor {
    tracker: BaselineTracker,
    counter: u32,
}

impl View for Sensor {
    type V = SensorView;

    closed spec fn view(&self) -> SensorView {
        SensorView { table: self.tracker@, counter: self.counter }
    }
}

impl Sensor {
    /// A sensor that has seen nothing: every slot free, the next cycle is
    /// number zero.
    pub fn new() -> (sensor: Self)
        ensures
            sensor@ == (SensorView { table: Seq::empty(), counter: 0 }),
    {
        Sensor { tracker: BaselineTracker::new(), counter: 0 }
    }

    /// The number that the next cycle will carry.
    pub fn counter(&self) -> (counter: u32)
        ensures
            counter == self@.counter,
    {
        self.counter
    }

    /// The table of baselines.
    pub fn tracker(&self) -> (tracker: &BaselineTracker)
        ensures
            tracker@ == self@.table,
    {
        &self.tracker
    }

    /// Takes the outcome of one scan and returns the line to emit.
    ///
    /// A scan that succeeded makes one cycle: the tracker takes up its first
    /// ten observations, the line carries the cycle's record, and the
    /// counter moves on. A scan that failed leaves the sensor as it was, and
    /// the line says that the scan failed.
    pub fn on_scan(&mut self, scan: Option<&[ObservedNetwork]>) -> (line: String)
        ensures
            match scan {
                Some(observations) => {
                    let seen = presented(network_views(observations@));
                    let outcome = observe_all(old(self)@.table, old(self)@.counter, seen);
                    &&& final(self)@ == (SensorView {
                        table: outcome.0,
                        counter: next_counter(old(self)@.counter),
                    })
                    &&& line@ == record_text(
                        RecordView {
                            sequence: old(self)@.counter,
                            motion_detected: outcome.1,
                            access_points: seen,
                        },
                    ).push('\n')
                },
                None => {
                    &&& final(self)@ == old(self)@
                    &&& line@ == "{\"error\":\"scan_failed\"}\n"@
                },
            },
    {
        match scan {
            Some(observations) => {
                let record = self.tracker.update(self.counter, observations);
                self.counter = self.counter.wrapping_add(1);
                encode(&record)
            },
            None => scan_failed_line(),
        }
    }
}

} // verus!
