use metro_core::dwell::DwellPolicy;
use metro_core::network::Network;
use metro_core::simulation::Simulation;
use metro_core::station::StationId;
use metro_core::train::{AtStationState, Direction, Train, TrainId, TrainState};

fn dwelling(station: StationId, elapsed_seconds: u64, dwell_seconds: u64) -> TrainState {
    TrainState::AtStation {
        station,
        state: AtStationState::Dwelling {
            elapsed_seconds,
            dwell_seconds,
        },
    }
}

fn moving(from: StationId, to: StationId, elapsed_seconds: u64) -> TrainState {
    TrainState::Moving {
        from,
        to,
        elapsed_seconds,
    }
}

fn run_until(simulation: &mut Simulation, second: u64) {
    while simulation.elapsed_seconds < second {
        simulation.step();
    }
}

#[test]
fn two_station_shuttle_timeline() {
    let mut network = Network::new();
    let a = network.add_station("A");
    let b = network.add_station("B");
    network.connect_bidirectional(a, b, 6);

    let train = Train::new(TrainId(0), 100, a, Direction::Forward);
    let mut simulation = Simulation::new(network, vec![train], DwellPolicy::new());

    let expected = [
        (0, dwelling(a, 0, 3), Direction::Forward),
        (1, dwelling(a, 1, 3), Direction::Forward),
        (2, dwelling(a, 2, 3), Direction::Forward),
        (3, moving(a, b, 0), Direction::Forward),
        (4, moving(a, b, 1), Direction::Forward),
        (8, moving(a, b, 5), Direction::Forward),
        (9, dwelling(b, 0, 3), Direction::Forward),
        (11, dwelling(b, 2, 3), Direction::Forward),
        (12, moving(b, a, 0), Direction::Backward),
        (13, moving(b, a, 1), Direction::Backward),
        (18, dwelling(a, 0, 3), Direction::Backward),
        (21, moving(a, b, 0), Direction::Forward),
    ];

    for (second, state, direction) in expected {
        run_until(&mut simulation, second);
        assert_eq!(simulation.elapsed_seconds, second);
        assert_eq!(simulation.trains()[0].state, state, "at second {}", second);
        assert_eq!(simulation.trains()[0].direction, direction, "at second {}", second);
    }
}

#[test]
fn step_keeps_order_identity_and_capacity() {
    let mut network = Network::new();
    let a = network.add_station("A");
    let b = network.add_station("B");
    network.connect_bidirectional(a, b, 4);

    let trains = vec![
        Train::new(TrainId(5), 80, b, Direction::Backward),
        Train::new(TrainId(2), 120, a, Direction::Forward),
    ];
    let mut simulation = Simulation::new(network, trains, DwellPolicy::new());

    for _ in 0..20 {
        simulation.step();
        assert_eq!(simulation.trains().len(), 2);
        assert_eq!(simulation.trains()[0].id, TrainId(5));
        assert_eq!(simulation.trains()[0].capacity, 80);
        assert_eq!(simulation.trains()[1].id, TrainId(2));
        assert_eq!(simulation.trains()[1].capacity, 120);
    }
    assert_eq!(simulation.elapsed_seconds, 20);
}

#[test]
fn empty_dwell_departs_on_the_next_step() {
    let mut network = Network::new();
    let a = network.add_station("A");
    let b = network.add_station("B");
    network.connect_bidirectional(a, b, 4);

    let mut train = Train::new(TrainId(0), 100, a, Direction::Forward);
    train.state = dwelling(a, 0, 0);
    let mut simulation = Simulation::new(network, vec![train], DwellPolicy::new());

    simulation.step();
    assert_eq!(simulation.trains()[0].state, moving(a, b, 0));
}

#[test]
fn zero_second_track_arrives_on_the_next_step() {
    let mut network = Network::new();
    let a = network.add_station("A");
    let b = network.add_station("B");
    network.connect_bidirectional(a, b, 0);

    let mut train = Train::new(TrainId(0), 100, a, Direction::Forward);
    train.state = moving(a, b, 0);
    let mut simulation = Simulation::new(network, vec![train], DwellPolicy::new());

    simulation.step();
    assert_eq!(simulation.trains()[0].state, dwelling(b, 0, 3));
}

#[test]
fn missing_track_inside_the_line_also_reverses() {
    let mut network = Network::new();
    let a = network.add_station("A");
    let b = network.add_station("B");
    let _c = network.add_station("C");
    // B has no track towards C, so a train at B facing forward turns back.
    network.connect_bidirectional(a, b, 5);

    let train = Train::new(TrainId(0), 100, b, Direction::Forward);
    let mut simulation = Simulation::new(network, vec![train], DwellPolicy::new());

    simulation.step();
    simulation.step();
    assert_eq!(simulation.trains()[0].direction, Direction::Forward);
    simulation.step();
    assert_eq!(simulation.trains()[0].direction, Direction::Backward);
    assert_eq!(simulation.trains()[0].state, moving(b, a, 0));
}

#[test]
fn travel_takes_exactly_the_track_time() {
    let mut network = Network::new();
    let a = network.add_station("A");
    let b = network.add_station("B");
    network.connect_bidirectional(a, b, 7);

    let mut train = Train::new(TrainId(0), 100, a, Direction::Forward);
    train.state = moving(a, b, 0);
    let mut simulation = Simulation::new(network, vec![train], DwellPolicy::new());

    for k in 1..7 {
        simulation.step();
        assert_eq!(simulation.trains()[0].state, moving(a, b, k));
    }
    simulation.step();
    assert_eq!(simulation.trains()[0].state, dwelling(b, 0, 3));
}

#[test]
fn network_stays_with_the_simulation() {
    let mut network = Network::new();
    let a = network.add_station("A");
    let b = network.add_station("B");
    network.connect_bidirectional(a, b, 3);

    let train = Train::new(TrainId(0), 100, a, Direction::Forward);
    let mut simulation = Simulation::new(network, vec![train], DwellPolicy::new());
    for _ in 0..10 {
        simulation.step();
    }
    assert_eq!(simulation.network.station_count(), 2);
    assert_eq!(simulation.network.track(a, b).unwrap().travel_seconds, 3);
    assert_eq!(simulation.network.track(b, a).unwrap().travel_seconds, 3);
}

fn shuttle() -> (Simulation, StationId, StationId) {
    let mut network = Network::new();
    let a = network.add_station("A");
    let b = network.add_station("B");
    let c = network.add_station("C");
    network.connect_bidirectional(a, b, 4);
    network.connect_bidirectional(b, c, 2);
    let trains = vec![
        Train::new(TrainId(0), 100, a, Direction::Forward),
        Train::new(TrainId(1), 100, c, Direction::Backward),
    ];
    (Simulation::new(network, trains, DwellPolicy::new()), a, c)
}

#[test]
fn identical_runs_agree_however_often_observed() {
    let (mut watched, _, _) = shuttle();
    let (mut unwatched, _, _) = shuttle();

    let mut seen = Vec::new();
    for _ in 0..50 {
        watched.step();
        seen.push(watched.trains()[0].state);
        let _ = watched.network().track(StationId(0), StationId(1));
        unwatched.step();
    }
    assert_eq!(seen.len(), 50);
    assert_eq!(watched.elapsed_seconds(), unwatched.elapsed_seconds());
    for i in 0..2 {
        assert_eq!(watched.trains()[i].id, unwatched.trains()[i].id);
        assert_eq!(watched.trains()[i].state, unwatched.trains()[i].state);
        assert_eq!(watched.trains()[i].direction, unwatched.trains()[i].direction);
    }
}

#[test]
fn getters_read_the_fields() {
    let (mut simulation, a, c) = shuttle();
    assert_eq!(simulation.elapsed_seconds(), 0);
    simulation.step();
    simulation.step();
    assert_eq!(simulation.elapsed_seconds(), 2);
    assert_eq!(simulation.elapsed_seconds(), simulation.elapsed_seconds);
    assert_eq!(simulation.network().station_count(), 3);
    assert!(simulation.network().track(a, c).is_none());
}
