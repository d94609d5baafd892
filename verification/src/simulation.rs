use vstd::prelude::*;

use crate::dwell::{DwellPolicy, POLICY_DWELL_SECONDS};
use crate::network::{
    lemma_next_track_is_adjacent, lemma_next_track_is_neighbour_track, next_index, Network,
};
use crate::station::StationId;
use crate::train::{AtStationState, Direction, Train, TrainState, INITIAL_DWELL_SECONDS};

verus! {

/// A train at `station` can leave it in at least one direction.
pub open spec fn has_exit(network: Network, station: StationId) -> bool {
    ||| network.next_track_from(station, Direction::Forward) is Some
    ||| network.next_track_from(station, Direction::Backward) is Some
}

/// One second of simulation for a single train that can take it.
///
/// A dwelling train counts one more second, or, once its dwell is over,
/// departs on the next track in its direction; where no such track leaves
/// its station (as at the end of the line) it departs the other way and its
/// direction flips. A moving train counts one
/// more second, or, once the track's travel time is reached, arrives and
/// starts the dwell that the policy gives.
pub open spec fn next_train(network: Network, policy: DwellPolicy, train: Train) -> Train {
    match train.state {
        TrainState::AtStation {
            station,
            state: AtStationState::Dwelling { elapsed_seconds, dwell_seconds },
        } => if elapsed_seconds + 1 < dwell_seconds {
            Train {
                state: TrainState::AtStation {
                    station,
                    state: AtStationState::Dwelling {
                        elapsed_seconds: (elapsed_seconds + 1) as u64,
                        dwell_seconds,
                    },
                },
                ..train
            }
        } else {
            match network.next_track_from(station, train.direction) {
                Some(track) => Train {
                    state: TrainState::Moving { from: station, to: track.to, elapsed_seconds: 0 },
                    ..train
                },
                None => Train {
                    state: TrainState::Moving {
                        from: station,
                        to: network.next_track_from(
                            station,
                            train.direction.opposite(),
                        ).unwrap().to,
                        elapsed_seconds: 0,
                    },
                    direction: train.direction.opposite(),
                    ..train
                },
            }
        },
        TrainState::Moving { from, to, elapsed_seconds } => if elapsed_seconds + 1
            >= network.tracks()[(from.0, to.0)].travel_seconds {
            Train {
                state: TrainState::AtStation {
                    station: to,
                    state: AtStationState::Dwelling {
                        elapsed_seconds: 0,
                        dwell_seconds: policy.dwell_for(to, train),
                    },
                },
                ..train
            }
        } else {
            Train {
                state: TrainState::Moving {
                    from,
                    to,
                    elapsed_seconds: (elapsed_seconds + 1) as u64,
                },
                ..train
            }
        },
    }
}

/// The train can take one step: its counter can grow by one, a departing
/// train finds a track in one of the two directions, and a moving train's
/// track exists.
pub open spec fn train_can_step(network: Network, train: Train) -> bool {
    match train.state {
        TrainState::AtStation {
            station,
            state: AtStationState::Dwelling { elapsed_seconds, dwell_seconds },
        } => {
            &&& elapsed_seconds < u64::MAX
            &&& elapsed_seconds + 1 >= dwell_seconds ==> {
                ||| network.next_track_from(station, train.direction) is Some
                ||| network.next_track_from(station, train.direction.opposite()) is Some
            }
        },
        TrainState::Moving { from, to, elapsed_seconds } => {
            &&& elapsed_seconds < u64::MAX
            &&& network.tracks().contains_key((from.0, to.0))
        },
    }
}

/// A state that stepping keeps: a dwelling train has dwell left and can
/// leave its station; a moving train is on an existing track, short of its
/// travel time (or just departed), towards a station it can leave again.
pub open spec fn train_runnable(network: Network, train: Train) -> bool {
    match train.state {
        TrainState::AtStation {
            station,
            state: AtStationState::Dwelling { elapsed_seconds, dwell_seconds },
        } => {
            &&& elapsed_seconds < dwell_seconds
            &&& has_exit(network, station)
        },
        TrainState::Moving { from, to, elapsed_seconds } => {
            &&& network.tracks().contains_key((from.0, to.0))
            &&& (elapsed_seconds == 0 || elapsed_seconds < network.tracks()[(
                from.0,
                to.0,
            )].travel_seconds)
            &&& has_exit(network, to)
        },
    }
}

/// The train after `n` steps.
pub open spec fn train_after(network: Network, policy: DwellPolicy, train: Train, n: nat) -> Train
    decreases n,
{
    if n == 0 {
        train
    } else {
        next_train(network, policy, train_after(network, policy, train, (n - 1) as nat))
    }
}

/// A step keeps a train's identity and capacity; only its state and
/// direction change.
pub proof fn lemma_step_keeps_identity(network: Network, policy: DwellPolicy, train: Train)
    ensures
        next_train(network, policy, train).id == train.id,
        next_train(network, policy, train).capacity == train.capacity,
{
}

/// A train's direction changes only when its dwell is over and no track
/// leaves its station in that direction; it then departs the other way.
pub proof fn lemma_direction_changes_only_on_reversal(
    network: Network,
    policy: DwellPolicy,
    train: Train,
)
    ensures
        next_train(network, policy, train).direction != train.direction ==> {
            &&& train.state matches TrainState::AtStation {
                station,
                state: AtStationState::Dwelling { elapsed_seconds, dwell_seconds },
            }
            &&& elapsed_seconds + 1 >= dwell_seconds
            &&& network.next_track_from(station, train.direction) is None
            &&& next_train(network, policy, train).direction == train.direction.opposite()
            &&& next_train(network, policy, train).state matches TrainState::Moving {
                from,
                elapsed_seconds: 0,
                ..
            } && from == station
        },
{
}

/// When its dwell is over, a train at station `i` departs, without losing
/// a second, towards the neighbouring station it faces (`i + 1` forward,
/// `i - 1` backward) whenever a track leads there, keeping its direction.
pub proof fn lemma_departure_goes_ahead(
    network: Network,
    policy: DwellPolicy,
    train: Train,
    i: usize,
    elapsed: u64,
    dwell: u64,
)
    requires
        network.wf(),
        train.state == (TrainState::AtStation {
            station: StationId(i),
            state: AtStationState::Dwelling { elapsed_seconds: elapsed, dwell_seconds: dwell },
        }),
        elapsed + 1 >= dwell,
    ensures
        train.direction == Direction::Forward && i + 1 < network.num_stations()
            && network.tracks().contains_key((i, (i + 1) as usize)) ==> next_train(
            network,
            policy,
            train,
        ) == (Train {
            state: TrainState::Moving {
                from: StationId(i),
                to: StationId((i + 1) as usize),
                elapsed_seconds: 0,
            },
            ..train
        }),
        train.direction == Direction::Backward && i > 0 && network.tracks().contains_key(
            (i, (i - 1) as usize),
        ) ==> next_train(network, policy, train) == (Train {
            state: TrainState::Moving {
                from: StationId(i),
                to: StationId((i - 1) as usize),
                elapsed_seconds: 0,
            },
            ..train
        }),
{
    lemma_next_track_is_neighbour_track(network, i);
    if i + 1 < network.num_stations() && network.tracks().contains_key((i, (i + 1) as usize)) {
        assert(network.tracks()[(i, (i + 1) as usize)].to.0 == i + 1);
    }
    if i > 0 && network.tracks().contains_key((i, (i - 1) as usize)) {
        assert(network.tracks()[(i, (i - 1) as usize)].to.0 == i - 1);
    }
}

/// When its dwell is over and no track leads to the neighbouring station it
/// faces (as at the end of the line), a train at station `i` departs
/// towards the neighbour behind it and turns round: a forward train goes to
/// `i - 1` and faces backward, a backward train goes to `i + 1` and faces
/// forward.
pub proof fn lemma_departure_turns_round(
    network: Network,
    policy: DwellPolicy,
    train: Train,
    i: usize,
    elapsed: u64,
    dwell: u64,
)
    requires
        network.wf(),
        train.state == (TrainState::AtStation {
            station: StationId(i),
            state: AtStationState::Dwelling { elapsed_seconds: elapsed, dwell_seconds: dwell },
        }),
        elapsed + 1 >= dwell,
    ensures
        train.direction == Direction::Forward && !(i + 1 < network.num_stations()
            && network.tracks().contains_key((i, (i + 1) as usize))) && i > 0
            && network.tracks().contains_key((i, (i - 1) as usize)) ==> next_train(
            network,
            policy,
            train,
        ) == (Train {
            state: TrainState::Moving {
                from: StationId(i),
                to: StationId((i - 1) as usize),
                elapsed_seconds: 0,
            },
            direction: Direction::Backward,
            ..train
        }),
        train.direction == Direction::Backward && !(i > 0 && network.tracks().contains_key(
            (i, (i - 1) as usize),
        )) && i + 1 < network.num_stations() && network.tracks().contains_key(
            (i, (i + 1) as usize),
        ) ==> next_train(network, policy, train) == (Train {
            state: TrainState::Moving {
                from: StationId(i),
                to: StationId((i + 1) as usize),
                elapsed_seconds: 0,
            },
            direction: Direction::Forward,
            ..train
        }),
{
    lemma_next_track_is_neighbour_track(network, i);
    if i + 1 < network.num_stations() && network.tracks().contains_key((i, (i + 1) as usize)) {
        assert(network.tracks()[(i, (i + 1) as usize)].to.0 == i + 1);
    }
    if i > 0 && network.tracks().contains_key((i, (i - 1) as usize)) {
        assert(network.tracks()[(i, (i - 1) as usize)].to.0 == i - 1);
    }
}

/// A runnable train can always take its next step.
pub proof fn lemma_runnable_can_step(network: Network, train: Train)
    requires
        train_runnable(network, train),
    ensures
        train_can_step(network, train),
{
}

/// Leaving a station of a line along its next track reaches a station that
/// can be left again, over a track that exists.
proof fn lemma_departure_reaches_exit(network: Network, station: StationId, direction: Direction)
    requires
        network.is_line(),
        network.next_track_from(station, direction) is Some,
    ensures
        network.tracks().contains_key(
            (station.0, network.next_track_from(station, direction).unwrap().to.0),
        ),
        has_exit(network, network.next_track_from(station, direction).unwrap().to),
{
    lemma_next_track_is_adjacent(network, station, direction);
    let t = network.next_track_from(station, direction).unwrap();
    let m = next_index(network.num_stations(), station.0, direction).unwrap();
    assert(network.tracks().contains_key((station.0, m)));
    assert(network.tracks().contains_key((m, station.0)));
    assert(station.0 < network.num_stations());
    match direction {
        Direction::Forward => {
            assert(m == station.0 + 1);
            assert(next_index(network.num_stations(), m, Direction::Backward) == Some(station.0));
            assert(network.next_track_from(t.to, Direction::Backward) is Some);
        },
        Direction::Backward => {
            assert(m + 1 == station.0);
            assert(next_index(network.num_stations(), m, Direction::Forward) == Some(station.0));
            assert(network.next_track_from(t.to, Direction::Forward) is Some);
        },
    }
}

/// Every next track ends at a station that a train can leave again.
pub open spec fn departures_reach_exits(network: Network) -> bool {
    forall|station: StationId, direction: Direction|
        #[trigger] network.next_track_from(station, direction) is Some ==> has_exit(
            network,
            network.next_track_from(station, direction).unwrap().to,
        )
}

/// On a line every next track ends at a station with an exit.
pub proof fn lemma_line_departures_reach_exits(network: Network)
    requires
        network.is_line(),
    ensures
        departures_reach_exits(network),
{
    assert forall|station: StationId, direction: Direction|
        #[trigger] network.next_track_from(station, direction) is Some implies has_exit(
            network,
            network.next_track_from(station, direction).unwrap().to,
        ) by {
        lemma_departure_reaches_exit(network, station, direction);
    }
}

/// On a well-formed network whose next tracks all end at stations with an
/// exit, a runnable train stays runnable after a step.
pub proof fn lemma_step_keeps_runnable(network: Network, policy: DwellPolicy, train: Train)
    requires
        network.wf(),
        departures_reach_exits(network),
        train_runnable(network, train),
    ensures
        train_runnable(network, next_train(network, policy, train)),
{
    match train.state {
        TrainState::AtStation {
            station,
            state: AtStationState::Dwelling { elapsed_seconds, dwell_seconds },
        } => {
            if elapsed_seconds + 1 >= dwell_seconds {
                lemma_next_track_is_adjacent(network, station, train.direction);
                lemma_next_track_is_adjacent(network, station, train.direction.opposite());
            }
        },
        TrainState::Moving { from, to, elapsed_seconds } => {
            assert(POLICY_DWELL_SECONDS > 0);
        },
    }
}

/// A train placed at a station that can be left is runnable.
pub proof fn lemma_placed_train_runnable(network: Network, train: Train, station: StationId)
    requires
        has_exit(network, station),
        train.state == (TrainState::AtStation {
            station,
            state: AtStationState::Dwelling {
                elapsed_seconds: 0,
                dwell_seconds: INITIAL_DWELL_SECONDS,
            },
        }),
    ensures
        train_runnable(network, train),
{
}

/// While dwell time remains, each step adds one second to the dwell and
/// the train stays where it is, facing the same way.
pub proof fn lemma_dwell_counts_up(
    network: Network,
    policy: DwellPolicy,
    train: Train,
    station: StationId,
    elapsed: u64,
    dwell: u64,
    k: nat,
)
    requires
        train.state == (TrainState::AtStation {
            station,
            state: AtStationState::Dwelling { elapsed_seconds: elapsed, dwell_seconds: dwell },
        }),
        elapsed + k < dwell,
    ensures
        train_after(network, policy, train, k) == (Train {
            state: TrainState::AtStation {
                station,
                state: AtStationState::Dwelling {
                    elapsed_seconds: (elapsed + k) as u64,
                    dwell_seconds: dwell,
                },
            },
            ..train
        }),
    decreases k,
{
    if k > 0 {
        lemma_dwell_counts_up(network, policy, train, station, elapsed, dwell, (k - 1) as nat);
    }
}

/// A dwell of `dwell` seconds of which `elapsed` are done ends after
/// exactly `dwell - elapsed` more steps, with the train departing from its
/// station at the start of a track.
pub proof fn lemma_dwell_ends_in_departure(
    network: Network,
    policy: DwellPolicy,
    train: Train,
    station: StationId,
    elapsed: u64,
    dwell: u64,
)
    requires
        train.state == (TrainState::AtStation {
            station,
            state: AtStationState::Dwelling { elapsed_seconds: elapsed, dwell_seconds: dwell },
        }),
        network.wf(),
        elapsed < dwell,
        has_exit(network, station),
    ensures
        train_after(network, policy, train, (dwell - elapsed) as nat).state matches TrainState::Moving {
            from,
            to,
            elapsed_seconds: 0,
        } && from == station && network.tracks().contains_key((station.0, to.0)),
{
    let k = (dwell - elapsed - 1) as nat;
    lemma_dwell_counts_up(network, policy, train, station, elapsed, dwell, k);
    let last = train_after(network, policy, train, k);
    assert(train_after(network, policy, train, (dwell - elapsed) as nat) == next_train(
        network,
        policy,
        last,
    ));
    lemma_next_track_is_adjacent(network, station, last.direction);
    lemma_next_track_is_adjacent(network, station, last.direction.opposite());
}

/// While travel time remains, each step adds one second of travel on the
/// same track.
pub proof fn lemma_travel_counts_up(
    network: Network,
    policy: DwellPolicy,
    train: Train,
    from: StationId,
    to: StationId,
    elapsed: u64,
    k: nat,
)
    requires
        train.state == (TrainState::Moving { from, to, elapsed_seconds: elapsed }),
        network.tracks().contains_key((from.0, to.0)),
        elapsed + k < network.tracks()[(from.0, to.0)].travel_seconds,
    ensures
        train_after(network, policy, train, k) == (Train {
            state: TrainState::Moving { from, to, elapsed_seconds: (elapsed + k) as u64 },
            ..train
        }),
    decreases k,
{
    if k > 0 {
        lemma_travel_counts_up(network, policy, train, from, to, elapsed, (k - 1) as nat);
    }
}

/// A train that has travelled `elapsed` of a track's `travel_seconds`
/// arrives after exactly `travel_seconds - elapsed` more steps, and starts
/// the dwell that the policy gives at the far station.
pub proof fn lemma_travel_ends_in_arrival(
    network: Network,
    policy: DwellPolicy,
    train: Train,
    from: StationId,
    to: StationId,
    elapsed: u64,
)
    requires
        train.state == (TrainState::Moving { from, to, elapsed_seconds: elapsed }),
        network.tracks().contains_key((from.0, to.0)),
        elapsed < network.tracks()[(from.0, to.0)].travel_seconds,
    ensures
        train_after(
            network,
            policy,
            train,
            (network.tracks()[(from.0, to.0)].travel_seconds - elapsed) as nat,
        ) == (Train {
            state: TrainState::AtStation {
                station: to,
                state: AtStationState::Dwelling {
                    elapsed_seconds: 0,
                    dwell_seconds: policy.dwell_for(to, train),
                },
            },
            ..train
        }),
{
    let total = network.tracks()[(from.0, to.0)].travel_seconds;
    let k = (total - elapsed - 1) as nat;
    lemma_travel_counts_up(network, policy, train, from, to, elapsed, k);
    assert(train_after(network, policy, train, (total - elapsed) as nat) == next_train(
        network,
        policy,
        train_after(network, policy, train, k),
    ));
}

/// Simulation time, the network, and the trains in the order given.
#[derive(Debug)]
pub struct Simulation {
    pub elapsed_seconds: u64,
    pub network: Network,
    trains: Vec<Train>,
    dwell_policy: DwellPolicy,
}

impl Simulation {
    /// The trains, in the order in which the simulation was given them.
    pub closed spec fn trains_view(&self) -> Seq<Train> {
        self.trains@
    }

    pub closed spec fn policy(&self) -> DwellPolicy {
        self.dwell_policy
    }

    /// Seconds simulated so far (the `elapsed_seconds` field).
    pub closed spec fn time(&self) -> u64 {
        self.elapsed_seconds
    }

    /// The network that the trains run on (the `network` field).
    pub closed spec fn net(&self) -> Network {
        self.network
    }

    /// One step can be taken without overflowing time or losing a track.
    pub open spec fn can_step(&self) -> bool {
        &&& self.time() < u64::MAX
        &&& forall|i: int|
            0 <= i < self.trains_view().len() ==> train_can_step(
                self.net(),
                #[trigger] self.trains_view()[i],
            )
    }

    /// Every train is in a state that stepping keeps.
    pub open spec fn all_runnable(&self) -> bool {
        forall|i: int|
            0 <= i < self.trains_view().len() ==> train_runnable(
                self.net(),
                #[trigger] self.trains_view()[i],
            )
    }

    /// `after` is `before` advanced by one second: time grows by one, the
    /// network and policy stay, and each train takes its own step, in order.
    pub open spec fn stepped(before: Simulation, after: Simulation) -> bool {
        &&& after.time() == before.time() + 1
        &&& after.net() == before.net()
        &&& after.policy() == before.policy()
        &&& after.trains_view() == before.trains_view().map_values(
            |t: Train| next_train(before.net(), before.policy(), t),
        )
    }

    pub fn new(network: Network, trains: Vec<Train>, dwell_policy: DwellPolicy) -> (s: Self)
        ensures
            s.time() == 0,
            s.net() == network,
            s.trains_view() == trains@,
            s.policy() == dwell_policy,
    {
        Self { elapsed_seconds: 0, network, trains, dwell_policy }
    }

    fn step_at_station(
        network: &Network,
        train: &mut Train,
        station: StationId,
        state: AtStationState,
    )
        requires
            train_can_step(
                *network,
                (Train { state: TrainState::AtStation { station, state }, ..*old(train) }),
            ),
        ensures
            *final(train) == next_train(
                *network,
                DwellPolicy,
                (Train { state: TrainState::AtStation { station, state }, ..*old(train) }),
            ),
    {
        match state {
            AtStationState::Dwelling { elapsed_seconds, dwell_seconds } => {
                if elapsed_seconds + 1 < dwell_seconds {
                    train.state = TrainState::AtStation {
                        station,
                        state: AtStationState::Dwelling {
                            elapsed_seconds: elapsed_seconds + 1,
                            dwell_seconds,
                        },
                    };
                } else {
                    match network.next_track(station, train.direction) {
                        Some(next_track) => {
                            train.state = TrainState::Moving {
                                from: station,
                                to: next_track.to,
                                elapsed_seconds: 0,
                            };
                        },
                        None => {
                            let next_track = network.next_track(
                                station,
                                train.direction.reverse(),
                            ).expect("NO_NEXT_TRACK_AFTER_REVERSING_DIRECTION");
                            train.state = TrainState::Moving {
                                from: station,
                                to: next_track.to,
                                elapsed_seconds: 0,
                            };
                            train.direction = train.direction.reverse();
                        },
                    }
                }
            },
        }
    }

    fn step_moving(
        network: &Network,
        dwell_policy: &DwellPolicy,
        train: &mut Train,
        from: StationId,
        to: StationId,
        elapsed_seconds: u64,
    )
        requires
            train_can_step(
                *network,
                (Train { state: TrainState::Moving { from, to, elapsed_seconds }, ..*old(train) }),
            ),
        ensures
            *final(train) == next_train(
                *network,
                *dwell_policy,
                (Train { state: TrainState::Moving { from, to, elapsed_seconds }, ..*old(train) }),
            ),
    {
        let track = network.track(from, to).expect("TRACK_NOT_FOUND");
        if elapsed_seconds + 1 >= track.travel_seconds {
            let dwell_seconds = dwell_policy.dwell_seconds(to, &*train);
            train.state = TrainState::AtStation {
                station: to,
                state: AtStationState::Dwelling { elapsed_seconds: 0, dwell_seconds },
            };
        } else {
            train.state = TrainState::Moving { from, to, elapsed_seconds: elapsed_seconds + 1 };
        }
    }

    /// Advances the simulation by one second, stepping every train once in
    /// order.
    pub fn step(&mut self)
        requires
            old(self).can_step(),
        ensures
            Self::stepped(*old(self), *final(self)),
    {
        self.elapsed_seconds += 1;

        let ghost before = self.trains@;
        assert forall|j: int| 0 <= j < before.len() implies train_can_step(
            old(self).network,
            #[trigger] before[j],
        ) by {
            assert(old(self).trains_view()[j] == before[j]);
        }
        let n = self.trains.len();
        let mut i: usize = 0;
        while i < n
            invariant
                0 <= i <= n,
                n == before.len(),
                self.trains@.len() == n,
                self.network == old(self).network,
                self.dwell_policy == old(self).dwell_policy,
                before == old(self).trains@,
                self.elapsed_seconds == old(self).elapsed_seconds + 1,
                forall|j: int|
                    0 <= j < n ==> train_can_step(old(self).network, #[trigger] before[j]),
                forall|j: int|
                    0 <= j < i ==> #[trigger] self.trains@[j] == next_train(
                        old(self).network,
                        old(self).dwell_policy,
                        before[j],
                    ),
                forall|j: int| i <= j < n ==> #[trigger] self.trains@[j] == before[j],
            decreases n - i,
        {
            let mut train = self.trains[i];
            match train.state {
                TrainState::AtStation { station, state } => {
                    Self::step_at_station(&self.network, &mut train, station, state);
                },
                TrainState::Moving { from, to, elapsed_seconds } => {
                    Self::step_moving(
                        &self.network,
                        &self.dwell_policy,
                        &mut train,
                        from,
                        to,
                        elapsed_seconds,
                    );
                },
            }
            self.trains.set(i, train);
            i += 1;
        }
        assert(self.trains@ =~= before.map_values(
            |t: Train| next_train(old(self).network, old(self).dwell_policy, t),
        ));
    }

    /// Seconds simulated so far.
    pub fn elapsed_seconds(&self) -> (t: u64)
        ensures
            t == self.time(),
    {
        self.elapsed_seconds
    }

    /// The network that the trains run on.
    pub fn network(&self) -> (n: &Network)
        ensures
            *n == self.net(),
    {
        &self.network
    }

    /// The trains, in the order in which the simulation was given them.
    pub fn trains(&self) -> (r: &[Train])
        ensures
            r@ == self.trains_view(),
    {
        self.trains.as_slice()
    }
}

/// A simulation whose trains are all runnable can take its next step,
/// unless its clock is at its limit.
pub proof fn lemma_runnable_simulation_can_step(sim: Simulation)
    requires
        sim.all_runnable(),
        sim.time() < u64::MAX,
    ensures
        sim.can_step(),
{
    assert forall|i: int| 0 <= i < sim.trains_view().len() implies train_can_step(
        sim.net(),
        #[trigger] sim.trains_view()[i],
    ) by {
        lemma_runnable_can_step(sim.net(), sim.trains_view()[i]);
    }
}

/// On a well-formed network whose next tracks all end at stations with an
/// exit (every line is one), stepping a simulation whose trains are all
/// runnable leaves them all runnable: such a simulation never gets stuck.
pub proof fn lemma_step_keeps_simulation_runnable(before: Simulation, after: Simulation)
    requires
        before.net().wf(),
        departures_reach_exits(before.net()),
        before.all_runnable(),
        Simulation::stepped(before, after),
    ensures
        after.all_runnable(),
        after.net() == before.net(),
{
    assert forall|i: int| 0 <= i < after.trains_view().len() implies train_runnable(
        after.net(),
        #[trigger] after.trains_view()[i],
    ) by {
        lemma_step_keeps_runnable(before.net(), before.policy(), before.trains_view()[i]);
    }
}

/// The observable state of a simulation: its clock, network, policy and
/// trains.
pub open spec fn same_state(a: Simulation, b: Simulation) -> bool {
    &&& a.time() == b.time()
    &&& a.net() == b.net()
    &&& a.policy() == b.policy()
    &&& a.trains_view() == b.trains_view()
}

/// Each simulation of `run` is a step of the one before it.
pub open spec fn is_run(run: Seq<Simulation>) -> bool {
    forall|i: int| 0 <= i < run.len() - 1 ==> Simulation::stepped(#[trigger] run[i], run[i + 1])
}

/// Two runs that start from the same state are in the same state after
/// every number of steps: stepping is deterministic, however often the
/// simulations are looked at in between.
pub proof fn lemma_runs_are_deterministic(run1: Seq<Simulation>, run2: Seq<Simulation>)
    requires
        run1.len() == run2.len(),
        run1.len() > 0,
        same_state(run1[0], run2[0]),
        is_run(run1),
        is_run(run2),
    ensures
        forall|i: int| 0 <= i < run1.len() ==> #[trigger] same_state(run1[i], run2[i]),
    decreases run1.len(),
{
    if run1.len() > 1 {
        let n = run1.len() - 1;
        let p1 = run1.subrange(0, n);
        let p2 = run2.subrange(0, n);
        assert forall|i: int| 0 <= i < p1.len() - 1 implies Simulation::stepped(
            #[trigger] p1[i],
            p1[i + 1],
        ) by {
            assert(Simulation::stepped(run1[i], run1[i + 1]));
        }
        assert forall|i: int| 0 <= i < p2.len() - 1 implies Simulation::stepped(
            #[trigger] p2[i],
            p2[i + 1],
        ) by {
            assert(Simulation::stepped(run2[i], run2[i + 1]));
        }
        lemma_runs_are_deterministic(p1, p2);
        assert(same_state(run1[n - 1], run2[n - 1])) by {
            assert(same_state(p1[n - 1], p2[n - 1]));
        }
        assert(Simulation::stepped(run1[n - 1], run1[n]));
        assert(Simulation::stepped(run2[n - 1], run2[n]));
        assert(run1[n].trains_view() =~= run2[n].trains_view());
        assert forall|i: int| 0 <= i < run1.len() implies #[trigger] same_state(
            run1[i],
            run2[i],
        ) by {
            if i < n {
                assert(same_state(p1[i], p2[i]));
            }
        }
    }
}

} // verus!
