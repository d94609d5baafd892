use std::collections::HashMap;

use vstd::prelude::*;

use crate::station::{Station, StationId};
use crate::train::Direction;

verus! {

broadcast use vstd::std_specs::hash::group_hash_axioms;

/// A directed connection between two stations.
#[derive(Debug, Clone, Copy)]
pub struct Track {
    pub from: StationId,
    pub to: StationId,
    pub travel_seconds: u64,
}

/// The radix that packs a pair of station indices into one hash-map key.
pub open spec fn key_radix() -> int {
    0x1_0000_0000_0000_0000
}

/// The hash-map key of the directed pair `(from, to)`.
pub open spec fn pair_key(from: usize, to: usize) -> u128 {
    (from * key_radix() + to) as u128
}

proof fn lemma_pair_key_bound(from: usize, to: usize)
    ensures
        0 <= from * key_radix() + to <= u128::MAX,
        pair_key(from, to) as int == from * key_radix() + to,
{
    assert(from <= 0xffff_ffff_ffff_ffff && to <= 0xffff_ffff_ffff_ffff);
    assert(0 <= from * key_radix() <= 0xffff_ffff_ffff_ffff * key_radix()) by (nonlinear_arith)
        requires
            0 <= from <= 0xffff_ffff_ffff_ffff,
            key_radix() == 0x1_0000_0000_0000_0000,
    ;
}

/// Distinct pairs of station indices have distinct keys.
proof fn lemma_pair_key_injective(a: usize, b: usize, c: usize, d: usize)
    ensures
        pair_key(a, b) == pair_key(c, d) <==> (a == c && b == d),
{
    lemma_pair_key_bound(a, b);
    lemma_pair_key_bound(c, d);
    if pair_key(a, b) == pair_key(c, d) {
        assert(a == c && b == d) by (nonlinear_arith)
            requires
                a * key_radix() + b == c * key_radix() + d,
                0 <= b < key_radix(),
                0 <= d < key_radix(),
                0 <= a,
                0 <= c,
                key_radix() > 0,
        {
            if a < c {
                assert(a * key_radix() + key_radix() <= c * key_radix());
            } else if c < a {
                assert(c * key_radix() + key_radix() <= a * key_radix());
            }
        }
    }
}

/// The index of the station next to `current` in `direction`, if the line
/// of `count` stations has one.
pub open spec fn next_index(count: nat, current: usize, direction: Direction) -> Option<usize> {
    match direction {
        Direction::Forward => if current + 1 < count && current < usize::MAX {
            Some((current + 1) as usize)
        } else {
            None
        },
        Direction::Backward => if current > 0 {
            Some((current - 1) as usize)
        } else {
            None
        },
    }
}

/// Every track is stored under the pair of its own endpoints.
pub open spec fn tracks_match_endpoints(tracks: Map<(usize, usize), Track>) -> bool {
    forall|p: (usize, usize)|
        #[trigger] tracks.contains_key(p) ==> tracks[p].from.0 == p.0 && tracks[p].to.0 == p.1
}

/// Stations in insertion order, and directed tracks keyed by their endpoints.
#[derive(Debug)]
pub struct Network {
    stations: Vec<Station>,
    tracks: HashMap<u128, Track>,
}

impl Network {
    /// The names of the stations, in insertion order.
    pub closed spec fn station_names(&self) -> Seq<Seq<char>> {
        self.stations@.map_values(|s: Station| s.name@)
    }

    pub open spec fn num_stations(&self) -> nat {
        self.station_names().len()
    }

    /// The directed tracks, keyed by the indices of their endpoints.
    pub closed spec fn tracks(&self) -> Map<(usize, usize), Track> {
        Map::new(
            |p: (usize, usize)| self.tracks@.contains_key(pair_key(p.0, p.1)),
            |p: (usize, usize)| self.tracks@[pair_key(p.0, p.1)],
        )
    }

    /// Every station's id is its position in the list.
    pub closed spec fn ids_are_indices(&self) -> bool {
        forall|i: int| 0 <= i < self.stations@.len() ==> (#[trigger] self.stations@[i]).id.0 == i
    }

    /// Station ids are their positions, and tracks are stored under their
    /// own endpoints.
    pub open spec fn wf(&self) -> bool {
        &&& self.ids_are_indices()
        &&& tracks_match_endpoints(self.tracks())
    }

    /// The track from `from` to `to`, if there is one.
    pub open spec fn track_between(&self, from: StationId, to: StationId) -> Option<Track> {
        self.tracks().get((from.0, to.0))
    }

    /// The track that leaves `current` towards the adjacent station in
    /// `direction`, if both that station and that track exist.
    pub open spec fn next_track_from(&self, current: StationId, direction: Direction) -> Option<
        Track,
    > {
        match next_index(self.num_stations(), current.0, direction) {
            Some(n) => self.tracks().get((current.0, n)),
            None => None,
        }
    }

    /// Every track joins two stations of the network, and each has a track
    /// back in the opposite direction: what `connect_bidirectional` builds
    /// between existing stations.
    pub open spec fn is_line(&self) -> bool {
        &&& self.wf()
        &&& forall|p: (usize, usize)| #[trigger]
            self.tracks().contains_key(p) ==> {
                &&& p.0 < self.num_stations()
                &&& p.1 < self.num_stations()
                &&& self.tracks().contains_key((p.1, p.0))
            }
    }

    fn key(from: StationId, to: StationId) -> (k: u128)
        ensures
            k == pair_key(from.0, to.0),
    {
        proof {
            lemma_pair_key_bound(from.0, to.0);
        }
        (from.0 as u128) * 0x1_0000_0000_0000_0000u128 + (to.0 as u128)
    }

    pub fn new() -> (n: Self)
        ensures
            n.is_line(),
            n.station_names() == Seq::<Seq<char>>::empty(),
            n.tracks() == Map::<(usize, usize), Track>::empty(),
    {
        let n = Self { stations: Vec::new(), tracks: HashMap::new() };
        assert(n.station_names() =~= Seq::<Seq<char>>::empty());
        assert(n.tracks() =~= Map::<(usize, usize), Track>::empty());
        n
    }

    /// Appends a station; its id is the number of stations before it.
    pub fn add_station(&mut self, name: &str) -> (id: StationId)
        ensures
            id.0 == old(self).num_stations(),
            final(self).station_names() == old(self).station_names().push(name@),
            final(self).tracks() == old(self).tracks(),
            old(self).wf() ==> final(self).wf(),
    {
        let id = StationId(self.stations.len());
        let station = Station { id, name: name.to_string() };
        self.stations.push(station);
        assert(self.station_names() =~= old(self).station_names().push(name@));
        assert(self.tracks() =~= old(self).tracks());
        id
    }

    pub fn station_count(&self) -> (n: usize)
        ensures
            n == self.num_stations(),
    {
        self.stations.len()
    }

    /// Adds the directed track `from -> to`, replacing any track between the
    /// same two stations in the same direction.
    pub fn add_track(&mut self, from: StationId, to: StationId, travel_seconds: u64)
        ensures
            final(self).tracks() == old(self).tracks().insert(
                (from.0, to.0),
                Track { from, to, travel_seconds },
            ),
            final(self).station_names() == old(self).station_names(),
            old(self).wf() ==> final(self).wf(),
    {
        let track = Track { from, to, travel_seconds };
        let k = Self::key(from, to);
        self.tracks.insert(k, track);
        assert forall|p: (usize, usize)|
            #[trigger] self.tracks().contains_key(p) == old(self).tracks().insert(
                (from.0, to.0),
                track,
            ).contains_key(p) by {
            lemma_pair_key_injective(p.0, p.1, from.0, to.0);
        }
        assert forall|p: (usize, usize)| #[trigger]
            self.tracks().contains_key(p) implies self.tracks()[p] == old(self).tracks().insert(
                (from.0, to.0),
                track,
            )[p] by {
            lemma_pair_key_injective(p.0, p.1, from.0, to.0);
        }
        assert(self.tracks() =~= old(self).tracks().insert((from.0, to.0), track));
        assert(self.station_names() =~= old(self).station_names());
    }

    /// The track from `from` to `to`, if there is one.
    pub fn track(&self, from: StationId, to: StationId) -> (r: Option<&Track>)
        ensures
            match r {
                Some(t) => self.track_between(from, to) == Some(*t),
                None => self.track_between(from, to) is None,
            },
    {
        let k = Self::key(from, to);
        self.tracks.get(&k)
    }

    /// Connects two stations with a track in each direction, both taking
    /// `travel_seconds`.
    pub fn connect_bidirectional(&mut self, from: StationId, to: StationId, travel_seconds: u64)
        ensures
            final(self).tracks() == old(self).tracks().insert(
                (from.0, to.0),
                Track { from, to, travel_seconds },
            ).insert((to.0, from.0), Track { from: to, to: from, travel_seconds }),
            final(self).station_names() == old(self).station_names(),
            old(self).wf() ==> final(self).wf(),
    {
        self.add_track(from, to, travel_seconds);

        // The same connection in the opposite direction.
        self.add_track(to, from, travel_seconds);
    }

    /// The track from `current` to the station next to it in `direction`:
    /// the following station for `Forward`, the preceding one for
    /// `Backward`. `None` at the end of the line or where no such track was
    /// added.
    pub fn next_track(&self, current: StationId, direction: Direction) -> (r: Option<&Track>)
        ensures
            match r {
                Some(t) => self.next_track_from(current, direction) == Some(*t),
                None => self.next_track_from(current, direction) is None,
            },
    {
        let index = current.0;
        let count = self.stations.len();
        let next_station = match direction {
            Direction::Forward => {
                if index < count && index + 1 < count {
                    Some(StationId(index + 1))
                } else {
                    None
                }
            },
            Direction::Backward => {
                if index > 0 {
                    Some(StationId(index - 1))
                } else {
                    None
                }
            },
        };

        if let Some(next_station) = next_station {
            if let Some(track) = self.track(current, next_station) {
                return Some(track);
            }
        }
        None
    }
}

/// A network never holds more stations than a `usize` can count.
pub proof fn lemma_station_count_fits(network: Network)
    ensures
        network.num_stations() <= usize::MAX,
{
    assert(network.stations.len() == network.stations@.len());
}

/// The neighbour of index `i` is `i + 1` going forward, while that index is
/// on the line, and `i - 1` going backward, while `i` is not the first; at
/// either end there is none.
pub proof fn lemma_next_index_is_neighbour(count: nat, i: usize)
    requires
        count <= usize::MAX,
    ensures
        i + 1 < count ==> next_index(count, i, Direction::Forward) == Some((i + 1) as usize),
        i + 1 >= count ==> next_index(count, i, Direction::Forward) is None,
        i > 0 ==> next_index(count, i, Direction::Backward) == Some((i - 1) as usize),
        i == 0 ==> next_index(count, i, Direction::Backward) is None,
{
}

/// The next track from station `i` is the track to station `i + 1` going
/// forward and to station `i - 1` going backward, whenever that station
/// index is on the line; past either end there is none.
pub proof fn lemma_next_track_is_neighbour_track(network: Network, i: usize)
    ensures
        i + 1 < network.num_stations() ==> network.next_track_from(StationId(i), Direction::Forward)
            == network.tracks().get((i, (i + 1) as usize)),
        i + 1 >= network.num_stations() ==> network.next_track_from(
            StationId(i),
            Direction::Forward,
        ) is None,
        i > 0 ==> network.next_track_from(StationId(i), Direction::Backward)
            == network.tracks().get((i, (i - 1) as usize)),
        i == 0 ==> network.next_track_from(StationId(i), Direction::Backward) is None,
{
    lemma_station_count_fits(network);
    lemma_next_index_is_neighbour(network.num_stations(), i);
}

/// Reading a track back after adding it gives the added track; every other
/// pair of stations keeps the track it had.
pub proof fn lemma_track_after_add(
    before: Network,
    after: Network,
    from: StationId,
    to: StationId,
    travel_seconds: u64,
)
    requires
        after.tracks() == before.tracks().insert((from.0, to.0), Track { from, to, travel_seconds }),
    ensures
        after.track_between(from, to) == Some(Track { from, to, travel_seconds }),
        forall|a: StationId, b: StationId|
            (a.0, b.0) != (from.0, to.0) ==> #[trigger] after.track_between(a, b)
                == before.track_between(a, b),
{
}

/// After connecting two stations, each can be reached from the other by a
/// track of the same travel time.
pub proof fn lemma_connection_is_symmetric(
    before: Network,
    after: Network,
    from: StationId,
    to: StationId,
    travel_seconds: u64,
)
    requires
        after.tracks() == before.tracks().insert(
            (from.0, to.0),
            Track { from, to, travel_seconds },
        ).insert((to.0, from.0), Track { from: to, to: from, travel_seconds }),
    ensures
        after.track_between(from, to) == Some(Track { from, to, travel_seconds }),
        after.track_between(to, from) == Some(Track { from: to, to: from, travel_seconds }),
{
}

/// The next track from a station starts there and ends at the adjacent
/// station in the chosen direction.
pub proof fn lemma_next_track_is_adjacent(network: Network, current: StationId, direction: Direction)
    requires
        network.wf(),
    ensures
        match network.next_track_from(current, direction) {
            Some(t) => {
                &&& t.from == current
                &&& Some(t.to.0) == next_index(network.num_stations(), current.0, direction)
            },
            None => true,
        },
{
    match next_index(network.num_stations(), current.0, direction) {
        Some(n) => {
            if network.tracks().contains_key((current.0, n)) {
                let t = network.tracks()[(current.0, n)];
                assert(t.from.0 == current.0 && t.to.0 == n);
            }
        },
        None => {},
    }
}

/// Adding a station keeps a line a line.
pub proof fn lemma_add_station_keeps_line(before: Network, after: Network)
    requires
        before.is_line(),
        after.wf(),
        after.tracks() == before.tracks(),
        after.num_stations() >= before.num_stations(),
    ensures
        after.is_line(),
{
}

/// Connecting two stations of a line in both directions keeps it a line.
pub proof fn lemma_connect_keeps_line(
    before: Network,
    after: Network,
    from: StationId,
    to: StationId,
    travel_seconds: u64,
)
    requires
        before.is_line(),
        after.wf(),
        from.0 < before.num_stations(),
        to.0 < before.num_stations(),
        after.num_stations() == before.num_stations(),
        after.tracks() == before.tracks().insert(
            (from.0, to.0),
            Track { from, to, travel_seconds },
        ).insert((to.0, from.0), Track { from: to, to: from, travel_seconds }),
    ensures
        after.is_line(),
{
    assert forall|p: (usize, usize)| #[trigger] after.tracks().contains_key(p) implies {
        &&& p.0 < after.num_stations()
        &&& p.1 < after.num_stations()
        &&& after.tracks().contains_key((p.1, p.0))
    } by {
        if p != (from.0, to.0) && p != (to.0, from.0) {
            assert(before.tracks().contains_key(p));
        }
    }
}

/// After a sequence of station additions, the network holds its earlier
/// stations followed by the added names in order, so its station count has
/// grown by the number of stations added.
pub proof fn lemma_stations_accumulate(networks: Seq<Network>, names: Seq<Seq<char>>)
    requires
        networks.len() == names.len() + 1,
        forall|i: int|
            #![trigger names[i]]
            0 <= i < names.len() ==> networks[i + 1].station_names() == networks[i].station_names().push(names[i]),
    ensures
        networks.last().station_names() == networks[0].station_names() + names,
        networks.last().station_names().len() == networks[0].station_names().len() + names.len(),
    decreases names.len(),
{
    if names.len() > 0 {
        let n = names.len() - 1;
        let earlier = networks.subrange(0, n + 1);
        let first_names = names.subrange(0, n);
        assert forall|i: int|
            #![trigger first_names[i]]
            0 <= i < first_names.len() implies earlier[i + 1].station_names()
                == earlier[i].station_names().push(first_names[i]) by {
            assert(names[i] == first_names[i]);
        }
        lemma_stations_accumulate(earlier, first_names);
        assert(earlier.last() == networks[n]);
        assert(networks[n + 1].station_names() == networks[n].station_names().push(names[n]));
        assert(names == first_names.push(names[n]));
        assert(networks.last().station_names() =~= networks[0].station_names() + names);
    }
}

impl Default for Network {
    fn default() -> (n: Self)
        ensures
            n.wf(),
            n.station_names() == Seq::<Seq<char>>::empty(),
            n.tracks() == Map::<(usize, usize), Track>::empty(),
    {
        Self::new()
    }
}

} // verus!
