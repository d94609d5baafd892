use vstd::prelude::*;

use crate::station::StationId;
use crate::train::Train;

verus! {

/// Seconds that the policy asks a train to dwell at each station it reaches.
pub const POLICY_DWELL_SECONDS: u64 = 3;

/// Decides how long a train dwells at a station after arriving there.
#[derive(Debug, Default, Clone, Copy)]
pub struct DwellPolicy;

impl DwellPolicy {
    pub fn new() -> (p: Self)
        ensures
            p == DwellPolicy,
    {
        Self
    }

    /// The dwell time at `station` for `train`: the same for every station
    /// and every train.
    pub open spec fn dwell_for(&self, station: StationId, train: Train) -> u64 {
        POLICY_DWELL_SECONDS
    }

    pub fn dwell_seconds(&self, _station: StationId, _train: &Train) -> (s: u64)
        ensures
            s == self.dwell_for(_station, *_train),
            s == POLICY_DWELL_SECONDS,
    {
        POLICY_DWELL_SECONDS
    }
}

/// Every train dwells the same three seconds at every station: the dwell
/// time depends neither on the station nor on anything about the train
/// (its id, capacity, direction or state).
pub proof fn lemma_dwell_is_uniform(
    policy: DwellPolicy,
    station1: StationId,
    train1: Train,
    station2: StationId,
    train2: Train,
)
    ensures
        policy.dwell_for(station1, train1) == policy.dwell_for(station2, train2),
        policy.dwell_for(station1, train1) == 3,
{
}

} // verus!
