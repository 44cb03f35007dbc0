//! Baseline tracking: a smoothed signal level for each network name, and the
//! decision whether a scan cycle shows motion.
//!
//! The table has ten slots. A name gets the next free slot when it is first
//! seen and keeps it for good; when the table is full, further names are
//! reported but not tracked.

use crate::echo::{echo_item, echo_items, echo_len, new_echo, push_echo};
use crate::name::{bounded, key_of, name_text, name_to_string, same_name};
use crate::record::{network_views, CycleRecord, NetworkView, ObservedNetwork, RecordView};
use vstd::prelude::*;

verus! {

/// The number of slots in the table.
pub const MAX_SLOTS: usize = 10;

/// A change of signal level above this many dBm counts as motion.
pub const MOTION_THRESHOLD: i16 = 4;

/// Cycles numbered up to this one never report motion.
pub const WARM_UP_CYCLES: u32 = 5;

/// One slot of the table, as a mathematical value.
pub struct SlotView {
    pub name: Seq<char>,
    pub baseline: i8,
}

/// One slot of the table: a name and its smoothed signal level.
#[derive(Debug)]
pub struct BaselineSlot {
    name: heapless::String<32>,
    baseline: i8,
}

impl View for BaselineSlot {
    type V = SlotView;

    closed spec fn view(&self) -> SlotView {
        SlotView { name: name_text(self.name), baseline: self.baseline }
    }
}

/// Whether some slot of the table holds the name.
pub open spec fn tracks(table: Seq<SlotView>, key: Seq<char>) -> bool {
    exists|i: int| 0 <= i < table.len() && (#[trigger] table[i]).name == key
}

/// The index of the slot that holds the name, where one does.
pub open spec fn slot_of(table: Seq<SlotView>, key: Seq<char>) -> int {
    choose|i: int| 0 <= i < table.len() && (#[trigger] table[i]).name == key
}

/// A table is well formed when it has at most ten slots and no name twice.
pub open spec fn table_wf(table: Seq<SlotView>) -> bool {
    &&& table.len() <= MAX_SLOTS
    &&& forall|i: int, j: int|
        0 <= i < j < table.len() ==> (#[trigger] table[i]).name != (#[trigger] table[j]).name
}

/// Integer division that rounds toward zero.
pub open spec fn toward_zero(n: int, d: int) -> int {
    if n >= 0 {
        n / d
    } else {
        -((-n) / d)
    }
}

/// The new baseline: nine parts of the old one and one part of the signal.
pub open spec fn smoothed(baseline: i8, signal: i8) -> i8 {
    toward_zero(baseline * 90 + signal * 10, 100) as i8
}

/// How far a signal lies from the baseline, in dBm.
pub open spec fn deviation(baseline: i8, signal: i8) -> int {
    if signal >= baseline {
        signal - baseline
    } else {
        baseline - signal
    }
}

/// Whether one observation, held against its slot's baseline, shows motion.
pub open spec fn shows_motion(cycle_count: u32, baseline: i8, signal: i8) -> bool {
    deviation(baseline, signal) > MOTION_THRESHOLD && cycle_count > WARM_UP_CYCLES
}

/// The table after one observation, and whether the observation shows motion.
///
/// A tracked name is held against its baseline, which then moves toward the
/// signal. An untracked name takes the next free slot with the signal as its
/// baseline, and shows no motion. With no slot free the table stays as it is.
pub open spec fn observe(table: Seq<SlotView>, cycle_count: u32, seen: NetworkView) -> (
    Seq<SlotView>,
    bool,
) {
    let key = key_of(seen.name);
    if tracks(table, key) {
        let i = slot_of(table, key);
        (
            table.update(i, SlotView { name: key, baseline: smoothed(table[i].baseline, seen.signal) }),
            shows_motion(cycle_count, table[i].baseline, seen.signal),
        )
    } else if table.len() < MAX_SLOTS {
        (table.push(SlotView { name: key, baseline: seen.signal }), false)
    } else {
        (table, false)
    }
}

/// The table after a run of observations, taken in order, and whether any of
/// them shows motion.
pub open spec fn observe_all(table: Seq<SlotView>, cycle_count: u32, seen: Seq<NetworkView>) -> (
    Seq<SlotView>,
    bool,
)
    decreases seen.len(),
{
    if seen.len() == 0 {
        (table, false)
    } else {
        let before = observe_all(table, cycle_count, seen.drop_last());
        let last = observe(before.0, cycle_count, seen.last());
        (last.0, before.1 || last.1)
    }
}

/// The observations that a cycle takes up: the first ten.
pub open spec fn presented(seen: Seq<NetworkView>) -> Seq<NetworkView> {
    if seen.len() <= MAX_SLOTS {
        seen
    } else {
        seen.take(MAX_SLOTS as int)
    }
}

/// The views of a run of slots, in order.
pub closed spec fn slot_views(slots: Seq<BaselineSlot>) -> Seq<SlotView> {
    Seq::new(slots.len(), |i: int| slots[i]@)
}

/// Finds the slot that holds the key.
fn find(slots: &Vec<BaselineSlot>, key: &heapless::String<32>) -> (r: Option<usize>)
    requires
        table_wf(slot_views(slots@)),
    ensures
        r is Some <==> tracks(slot_views(slots@), name_text(*key)),
        r is Some ==> r->0 == slot_of(slot_views(slots@), name_text(*key)) && r->0 < slots.len(),
{
    let ghost table = slot_views(slots@);
    let mut i: usize = 0;
    while i < slots.len()
        invariant
            i <= slots.len(),
            table == slot_views(slots@),
            table_wf(table),
            forall|k: int| 0 <= k < i ==> (#[trigger] table[k]).name != name_text(*key),
        decreases slots.len() - i,
    {
        if same_name(&slots[i].name, key) {
            assert(table[i as int].name == name_text(*key));
            return Some(i);
        }
        i += 1;
    }
    None
}

/// Takes up one observation: finds or makes its slot, holds the signal
/// against the baseline, and moves the baseline toward the signal.
fn take_up(slots: &mut Vec<BaselineSlot>, cycle_count: u32, seen: &ObservedNetwork) -> (moved: bool)
    requires
        table_wf(slot_views(old(slots)@)),
    ensures
        table_wf(slot_views(final(slots)@)),
        (slot_views(final(slots)@), moved) == observe(
            slot_views(old(slots)@),
            cycle_count,
            seen@,
        ),
{
    let key = bounded(seen.name.as_str());
    let ghost key_text = name_text(key);
    let mut found = find(slots, &key);
    if found.is_none() && slots.len() < MAX_SLOTS {
        slots.push(BaselineSlot { name: key, baseline: seen.signal });
        found = Some(slots.len() - 1);
        assert(slot_views(slots@) =~= slot_views(old(slots)@).push(
            SlotView { name: key_text, baseline: seen.signal },
        ));
    }
    match found {
        Some(i) => {
            let ghost before = slot_views(slots@);
            let baseline = slots[i].baseline;
            let delta: i16 = seen.signal as i16 - baseline as i16;
            let moved = (delta > MOTION_THRESHOLD || delta < -MOTION_THRESHOLD) && cycle_count
                > WARM_UP_CYCLES;
            let blended: i16 = (baseline as i16 * 90 + seen.signal as i16 * 10) / 100;
            slots[i].baseline = blended as i8;
            assert(slot_views(slots@) =~= before.update(
                i as int,
                SlotView { name: key_text, baseline: smoothed(baseline, seen.signal) },
            ));
            moved
        },
        None => false,
    }
}

/// The network that an echoed name, signal and channel stand for.
pub open spec fn network_of(item: (Seq<char>, i8, u8)) -> NetworkView {
    NetworkView { name: item.0, signal: item.1, channel: item.2 }
}

/// The observations that a list holds, as networks for a record.
fn networks_of(echo: &heapless::Vec<(String, i8, u8), 10>) -> (networks: Vec<ObservedNetwork>)
    ensures
        networks.len() == echo_items(*echo).len(),
        forall|k: int|
            0 <= k < networks.len() ==> (#[trigger] networks@[k])@ == network_of(
                echo_items(*echo)[k],
            ),
{
    let count = echo_len(echo);
    let mut networks: Vec<ObservedNetwork> = Vec::new();
    let mut i: usize = 0;
    while i < count
        invariant
            i <= count,
            count == echo_items(*echo).len(),
            networks.len() == i,
            forall|k: int|
                0 <= k < i ==> (#[trigger] networks@[k])@ == network_of(echo_items(*echo)[k]),
        decreases count - i,
    {
        let (name, signal, channel) = echo_item(echo, i);
        networks.push(ObservedNetwork { name, signal, channel });
        i += 1;
    }
    networks
}

/// The table of baselines.
#[derive(Debug)]
pub struct BaselineTracker {
    slots: Vec<BaselineSlot>,
}

impl View for BaselineTracker {
    type V = Seq<SlotView>;

    closed spec fn view(&self) -> Seq<SlotView> {
        slot_views(self.slots@)
    }
}

impl BaselineTracker {
    /// At most ten slots, and no name in two of them.
    #[verifier::type_invariant]
    spec fn well_formed(self) -> bool {
        table_wf(self@)
    }

    /// A table with every slot free.
    pub fn new() -> (tracker: Self)
        ensures
            tracker@ == Seq::<SlotView>::empty(),
    {
        let slots: Vec<BaselineSlot> = Vec::new();
        assert(slot_views(slots@) =~= Seq::<SlotView>::empty());
        BaselineTracker { slots }
    }

    /// The number of slots in use.
    pub fn slot_count(&self) -> (n: usize)
        ensures
            n == self@.len(),
            n <= MAX_SLOTS,
            table_wf(self@),
    {
        proof {
            use_type_invariant(self);
        }
        self.slots.len()
    }

    /// The name and baseline in the slot at `index`, or `None` past the last
    /// slot in use.
    pub fn slot(&self, index: usize) -> (r: Option<(String, i8)>)
        ensures
            match r {
                Some((name, baseline)) => index < self@.len() && name@ == self@[index as int].name
                    && baseline == self@[index as int].baseline,
                None => index >= self@.len(),
            },
    {
        if index < self.slots.len() {
            Some((name_to_string(&self.slots[index].name), self.slots[index].baseline))
        } else {
            None
        }
    }

    /// The baseline kept for a network name, or `None` where the name has no slot.
    pub fn baseline_of(&self, name: &str) -> (r: Option<i8>)
        ensures
            r is Some <==> tracks(self@, key_of(name@)),
            r is Some ==> r->0 == self@[slot_of(self@, key_of(name@))].baseline,
    {
        proof {
            use_type_invariant(self);
        }
        let key = bounded(name);
        match find(&self.slots, &key) {
            Some(i) => Some(self.slots[i].baseline),
            None => None,
        }
    }

    /// Takes up one scan cycle: the first ten observations, in order.
    ///
    /// Returns the cycle's record: its number, whether any observation
    /// showed motion, and the observations as they came.
    pub fn update(&mut self, cycle_count: u32, observations: &[ObservedNetwork]) -> (record:
        CycleRecord)
        ensures
            final(self)@ == observe_all(
                old(self)@,
                cycle_count,
                presented(network_views(observations@)),
            ).0,
            record@ == (RecordView {
                sequence: cycle_count,
                motion_detected: observe_all(
                    old(self)@,
                    cycle_count,
                    presented(network_views(observations@)),
                ).1,
                access_points: presented(network_views(observations@)),
            }),
            cycle_count <= WARM_UP_CYCLES ==> !record.motion_detected,
            table_wf(old(self)@) && table_wf(final(self)@),
    {
        proof {
            use_type_invariant(&*self);
        }
        let count = if observations.len() <= MAX_SLOTS {
            observations.len()
        } else {
            MAX_SLOTS
        };
        let ghost seen = presented(network_views(observations@));
        let mut slots: Vec<BaselineSlot> = Vec::new();
        assert(slot_views(slots@) =~= Seq::<SlotView>::empty());
        core::mem::swap(&mut self.slots, &mut slots);
        let mut motion_detected = false;
        let mut echo = new_echo();
        let mut i: usize = 0;
        while i < count
            invariant
                i <= count,
                count == seen.len(),
                count <= observations.len(),
                count <= MAX_SLOTS,
                seen == presented(network_views(observations@)),
                table_wf(slot_views(slots@)),
                echo_items(echo).len() == i,
                forall|k: int| 0 <= k < i ==> network_of(#[trigger] echo_items(echo)[k]) == seen[k],
                (slot_views(slots@), motion_detected) == observe_all(
                    old(self)@,
                    cycle_count,
                    seen.take(i as int),
                ),
            decreases count - i,
        {
            let moved = take_up(&mut slots, cycle_count, &observations[i]);
            motion_detected = motion_detected || moved;
            let seen_here = &observations[i];
            let _ = push_echo(
                &mut echo,
                seen_here.name.clone(),
                seen_here.signal,
                seen_here.channel,
            );
            proof {
                assert(seen.take(i + 1).drop_last() =~= seen.take(i as int));
                assert(seen.take(i + 1).last() == observations@[i as int]@);
            }
            i += 1;
        }
        core::mem::swap(&mut self.slots, &mut slots);
        proof {
            assert(seen.take(count as int) =~= seen);
            if cycle_count <= WARM_UP_CYCLES {
                no_motion_during_warm_up(old(self)@, cycle_count, seen);
            }
        }
        let access_points = networks_of(&echo);
        let record = CycleRecord { sequence: cycle_count, motion_detected, access_points };
        assert(record@.access_points =~= seen);
        record
    }
}

/// No cycle numbered five or less reports motion, whatever the signals are.
pub proof fn no_motion_during_warm_up(table: Seq<SlotView>, cycle_count: u32, seen: Seq<NetworkView>)
    requires
        cycle_count <= WARM_UP_CYCLES,
    ensures
        !observe_all(table, cycle_count, seen).1,
    decreases seen.len(),
{
    if seen.len() > 0 {
        no_motion_during_warm_up(table, cycle_count, seen.drop_last());
    }
}

/// A name that has no slot yet, seen while a slot is free, takes the next
/// free slot with the signal itself as its baseline, and that observation
/// shows no motion, in whatever cycle it comes.
pub proof fn new_name_takes_next_slot(table: Seq<SlotView>, cycle_count: u32, seen: NetworkView)
    requires
        !tracks(table, key_of(seen.name)),
        table.len() < MAX_SLOTS,
    ensures
        observe(table, cycle_count, seen) == (
            table.push(SlotView { name: key_of(seen.name), baseline: seen.signal }),
            false,
        ),
        observe_all(table, cycle_count, seq![seen]) == observe(table, cycle_count, seen),
        tracks(observe(table, cycle_count, seen).0, key_of(seen.name)),
        slot_of(observe(table, cycle_count, seen).0, key_of(seen.name)) == table.len(),
{
    let after = table.push(SlotView { name: key_of(seen.name), baseline: seen.signal });
    assert(after[table.len() as int].name == key_of(seen.name));
    assert forall|i: int| 0 <= i < after.len() && (#[trigger] after[i]).name == key_of(
        seen.name,
    ) implies i == table.len() by {
        if i < table.len() {
            assert(table[i].name == key_of(seen.name));
        }
    }
    assert(seq![seen].drop_last() =~= Seq::<NetworkView>::empty());
    assert(observe_all(table, cycle_count, seq![seen].drop_last()) == (table, false));
}

/// With every slot taken, a name that has no slot gets none: the table stays
/// as it is, and the observation shows no motion.
pub proof fn full_table_ignores_new_name(table: Seq<SlotView>, cycle_count: u32, seen: NetworkView)
    requires
        table.len() >= MAX_SLOTS,
        !tracks(table, key_of(seen.name)),
    ensures
        observe(table, cycle_count, seen) == (table, false),
{
}

/// One observation leaves a well-formed table well formed, gives up no slot
/// and renames none.
pub proof fn observation_keeps_slots(table: Seq<SlotView>, cycle_count: u32, seen: NetworkView)
    requires
        table_wf(table),
    ensures
        table_wf(observe(table, cycle_count, seen).0),
        table.len() <= observe(table, cycle_count, seen).0.len(),
        forall|i: int|
            0 <= i < table.len() ==> (#[trigger] observe(table, cycle_count, seen).0[i]).name
                == table[i].name,
{
    let key = key_of(seen.name);
    let after = observe(table, cycle_count, seen).0;
    if tracks(table, key) {
        let i = slot_of(table, key);
        assert forall|a: int, b: int| 0 <= a < b < after.len() implies (#[trigger] after[a]).name
            != (#[trigger] after[b]).name by {
            assert(after[a].name == table[a].name);
            assert(after[b].name == table[b].name);
        }
    } else if table.len() < MAX_SLOTS {
        assert forall|a: int, b: int| 0 <= a < b < after.len() implies (#[trigger] after[a]).name
            != (#[trigger] after[b]).name by {
            assert(after[a].name == table[a].name);
            if b < table.len() {
                assert(after[b].name == table[b].name);
            }
        }
    }
}

/// Slots are never given up or handed to another name: after any run of
/// observations the table is well formed, and each slot that was in use
/// still holds the name it held.
pub proof fn slots_are_kept(table: Seq<SlotView>, cycle_count: u32, seen: Seq<NetworkView>)
    requires
        table_wf(table),
    ensures
        table_wf(observe_all(table, cycle_count, seen).0),
        table.len() <= observe_all(table, cycle_count, seen).0.len(),
        forall|i: int|
            0 <= i < table.len() ==> (#[trigger] observe_all(table, cycle_count, seen).0[i]).name
                == table[i].name,
    decreases seen.len(),
{
    if seen.len() > 0 {
        let before = observe_all(table, cycle_count, seen.drop_last()).0;
        slots_are_kept(table, cycle_count, seen.drop_last());
        observation_keeps_slots(before, cycle_count, seen.last());
        let after = observe_all(table, cycle_count, seen).0;
        assert forall|i: int| 0 <= i < table.len() implies (#[trigger] after[i]).name
            == table[i].name by {
            assert(after[i].name == before[i].name);
        }
    }
}

/// Once all ten slots are taken the table tracks the same names for good: a
/// name without a slot never gets one, whatever is observed afterwards.
pub proof fn full_table_is_closed(
    table: Seq<SlotView>,
    cycle_count: u32,
    seen: Seq<NetworkView>,
    key: Seq<char>,
)
    requires
        table_wf(table),
        table.len() == MAX_SLOTS,
    ensures
        observe_all(table, cycle_count, seen).0.len() == MAX_SLOTS,
        tracks(observe_all(table, cycle_count, seen).0, key) == tracks(table, key),
{
    slots_are_kept(table, cycle_count, seen);
    let after = observe_all(table, cycle_count, seen).0;
    if tracks(table, key) {
        let i = slot_of(table, key);
        assert(after[i].name == key);
    }
    if tracks(after, key) {
        let i = slot_of(after, key);
        assert(after[i].name == table[i].name);
        assert(table[i].name == key);
    }
}

} // verus!
