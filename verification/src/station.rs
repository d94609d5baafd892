use vstd::prelude::*;

verus! {

/// A station, named by its index in the network that created it.
#[derive(Debug, Clone, Copy, PartialEq, Eq, Hash, Structural)]
pub struct StationId(pub usize);

#[derive(Debug)]
pub struct Station {
    pub id: StationId,
    pub name: String,
}

/// A bare list of stations, in the order in which they were added.
#[derive(Debug)]
pub struct Network {
    stations: Vec<Station>,
}

impl Network {
    /// The names of the stations, in insertion order.
    pub closed spec fn station_names(&self) -> Seq<Seq<char>> {
        self.stations@.map_values(|s: Station| s.name@)
    }

    /// Every station's id is its position in the list.
    pub closed spec fn wf(&self) -> bool {
        forall|i: int| 0 <= i < self.stations@.len() ==> (#[trigger] self.stations@[i]).id.0 == i
    }

    pub fn new() -> (n: Self)
        ensures
            n.wf(),
            n.station_names() == Seq::<Seq<char>>::empty(),
    {
        let n = Self { stations: Vec::new() };
        assert(n.station_names() =~= Seq::<Seq<char>>::empty());
        n
    }

    /// Appends a station; its id is the number of stations before it.
    pub fn add_station(&mut self, name: &str) -> (id: StationId)
        ensures
            id.0 == old(self).station_names().len(),
            final(self).station_names() == old(self).station_names().push(name@),
            old(self).wf() ==> final(self).wf(),
    {
        let id = StationId(self.stations.len());
        let station = Station { id, name: name.to_string() };
        self.stations.push(station);
        assert(self.station_names() =~= old(self).station_names().push(name@));
        id
    }

    pub fn station_count(&self) -> (n: usize)
        ensures
            n == self.station_names().len(),
    {
        self.stations.len()
    }
}

/// After a sequence of station additions, the network holds its earlier
/// stations followed by the added names in order, so its station count has
/// grown by the number of stations added.
pub proof fn lemma_stations_accumulate(networks: Seq<Network>, names: Seq<Seq<char>>)
    requires
        networks.len() == names.len() + 1,
        forall|i: int|
            #![trigger names[i]]
            0 <= i < names.len() ==> networks[i + 1].station_names() == networks[i].station_names().push(names[i]),
    ensures
        networks.last().station_names() == networks[0].station_names() + names,
        networks.last().station_names().len() == networks[0].station_names().len() + names.len(),
    decreases names.len(),
{
    if names.len() > 0 {
        let n = names.len() - 1;
        let earlier = networks.subrange(0, n + 1);
        let first_names = names.subrange(0, n);
        assert forall|i: int|
            #![trigger first_names[i]]
            0 <= i < first_names.len() implies earlier[i + 1].station_names()
                == earlier[i].station_names().push(first_names[i]) by {
            assert(names[i] == first_names[i]);
        }
        lemma_stations_accumulate(earlier, first_names);
        assert(earlier.last() == networks[n]);
        assert(networks[n + 1].station_names() == networks[n].station_names().push(names[n]));
        assert(names == first_names.push(names[n]));
        assert(networks.last().station_names() =~= networks[0].station_names() + names);
    }
}

impl Default for Network {
    fn default() -> (n: Self)
        ensures
            n.wf(),
            n.station_names() == Seq::<Seq<char>>::empty(),
    {
        Self::new()
    }
}

} // verus!
