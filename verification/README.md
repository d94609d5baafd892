# metro_core

The core of a small metro simulation, written in Verus and verified.

- `src/` is the library: stations, directed tracks between them (keyed by
  the pair of station indices), trains with their state machine (dwelling at
  a station, moving along a track), the dwell policy, and `Simulation::step`,
  which advances every train by one second. Each public function has a
  contract, and the laws of the model (a track reads back after it is added,
  connections are symmetric, a step keeps train identity, direction changes
  only on reversal, dwell and travel last exactly their seconds, a
  simulation on a line never gets stuck, runs are deterministic) are proof
  functions next to the code they are about.
- `tests/` holds the tests, including the five-station, two-train scenario.
- `app/` is the Bevy prototype window, which animates one train on frame
  time in floating point and does not drive the core.
