//! The values that travel from a scan to the display: one observed network,
//! and the record of one scan cycle.

use vstd::prelude::*;

verus! {

/// The most networks that one cycle reports.
pub const MAX_NETWORKS: usize = 10;

/// One access point as one scan saw it.
#[derive(Debug, PartialEq, Eq)]
pub struct ObservedNetwork {
    /// The advertised name.
    pub name: String,
    /// Signal strength in dBm; less negative is stronger.
    pub signal: i8,
    /// The radio channel.
    pub channel: u8,
}

/// What an [`ObservedNetwork`] is, as a mathematical value.
pub struct NetworkView {
    pub name: Seq<char>,
    pub signal: i8,
    pub channel: u8,
}

impl View for ObservedNetwork {
    type V = NetworkView;

    open spec fn view(&self) -> NetworkView {
        NetworkView { name: self.name@, signal: self.signal, channel: self.channel }
    }
}

impl Clone for ObservedNetwork {
    fn clone(&self) -> (r: Self)
        ensures
            r@ == self@,
    {
        ObservedNetwork { name: self.name.clone(), signal: self.signal, channel: self.channel }
    }
}

/// The views of a run of networks, in order.
pub open spec fn network_views(networks: Seq<ObservedNetwork>) -> Seq<NetworkView> {
    Seq::new(networks.len(), |i: int| networks[i]@)
}

/// The result of one scan cycle.
#[derive(Debug, PartialEq, Eq)]
pub struct CycleRecord {
    /// The cycle's number; it wraps around after `u32::MAX`.
    pub sequence: u32,
    /// Whether any tracked network's signal jumped in this cycle.
    pub motion_detected: bool,
    /// The networks seen, strongest first, as the scan reported them.
    pub access_points: Vec<ObservedNetwork>,
}

/// What a [`CycleRecord`] is, as a mathematical value.
pub struct RecordView {
    pub sequence: u32,
    pub motion_detected: bool,
    pub access_points: Seq<NetworkView>,
}

impl View for CycleRecord {
    type V = RecordView;

    open spec fn view(&self) -> RecordView {
        RecordView {
            sequence: self.sequence,
            motion_detected: self.motion_detected,
            access_points: network_views(self.access_points@),
        }
    }
}

impl Clone for CycleRecord {
    fn clone(&self) -> (r: Self)
        ensures
            r@ == self@,
    {
        let mut access_points: Vec<ObservedNetwork> = Vec::new();
        let mut i: usize = 0;
        while i < self.access_points.len()
            invariant
                i <= self.access_points.len(),
                access_points.len() == i,
                forall|k: int| 0 <= k < i ==> access_points@[k]@ == self.access_points@[k]@,
            decreases self.access_points.len() - i,
        {
            access_points.push(self.access_points[i].clone());
            i += 1;
        }
        assert(network_views(access_points@) =~= network_views(self.access_points@));
        CycleRecord {
            sequence: self.sequence,
            motion_detected: self.motion_detected,
            access_points,
        }
    }
}

} // verus!
