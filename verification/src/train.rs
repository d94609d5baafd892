use vstd::prelude::*;

use crate::station::StationId;

verus! {

/// Seconds that a freshly placed train dwells before its first departure.
pub const INITIAL_DWELL_SECONDS: u64 = 3;

#[derive(Debug, Clone, Copy, PartialEq, Eq, Hash, Structural)]
pub struct TrainId(pub usize);

/// Travel direction along the line: `Forward` follows increasing station
/// indices, `Backward` decreasing ones.
#[derive(Debug, Clone, Copy, PartialEq, Eq, Structural)]
pub enum Direction {
    Forward,
    Backward,
}

impl Direction {
    /// The opposite direction.
    pub open spec fn opposite(self) -> Direction {
        match self {
            Direction::Forward => Direction::Backward,
            Direction::Backward => Direction::Forward,
        }
    }

    #[verifier::when_used_as_spec(opposite)]
    pub fn reverse(self) -> (r: Self)
        ensures
            r == self.opposite(),
            r != self,
    {
        match self {
            Direction::Forward => Direction::Backward,
            Direction::Backward => Direction::Forward,
        }
    }
}

/// Reversing twice gives the original direction back, and reversing always
/// changes the direction.
pub proof fn lemma_reverse_involutive(d: Direction)
    ensures
        d.opposite().opposite() == d,
        d.opposite() != d,
{
}

/// What a train does while it stands at a station.
#[derive(Debug, Clone, Copy, PartialEq, Eq, Structural)]
pub enum AtStationState {
    Dwelling { elapsed_seconds: u64, dwell_seconds: u64 },
}

#[derive(Debug, Clone, Copy, PartialEq, Eq, Structural)]
pub enum TrainState {
    AtStation { station: StationId, state: AtStationState },
    Moving { from: StationId, to: StationId, elapsed_seconds: u64 },
}

#[derive(Debug, Clone, Copy)]
pub struct Train {
    pub id: TrainId,
    pub capacity: usize,
    pub state: TrainState,
    pub direction: Direction,
}

impl Train {
    /// A train standing at `station`, at the start of its initial dwell.
    pub fn new(id: TrainId, capacity: usize, station: StationId, direction: Direction) -> (t:
        Self)
        ensures
            t.id == id,
            t.capacity == capacity,
            t.direction == direction,
            t.state == (TrainState::AtStation {
                station,
                state: AtStationState::Dwelling {
                    elapsed_seconds: 0,
                    dwell_seconds: INITIAL_DWELL_SECONDS,
                },
            }),
    {
        Self {
            id,
            capacity,
            state: TrainState::AtStation {
                station,
                state: AtStationState::Dwelling {
                    elapsed_seconds: 0,
                    dwell_seconds: INITIAL_DWELL_SECONDS,
                },
            },
            direction,
        }
    }
}

} // verus!
