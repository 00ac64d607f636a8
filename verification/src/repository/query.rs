//! The store itself: the three tables and the access to their rows.
use vstd::prelude::*;
use crate::error::RepositoryError;
use crate::error::StorageFault;
use crate::models::location::Location;
use crate::models::reading::Reading;
use crate::repository::queries::station::StationRecord;
use crate::repository::tables::tables_of;
use crate::repository::tables::views;
use crate::repository::tables::Tables;

verus! {

/// The store. It owns the rows of the three tables; the statements in
/// [`crate::repository::queries`] read and write them.
///
/// A `Query` can only be made empty and changed through its statements, all
/// of which keep it consistent ([`Query::wf`]).
pub struct Query {
    stations: Vec<StationRecord>,
    locations: Vec<Location>,
    readings: Vec<Reading>,
}

impl View for Query {
    type V = Tables;

    closed spec fn view(&self) -> Tables {
        Tables {
            stations: views(self.stations@),
            locations: views(self.locations@),
            readings: self.readings@,
        }
    }
}

impl Query {
    /// Whether the store obeys the rules of [`Tables::wf`].
    pub open spec fn wf(&self) -> bool {
        self@.wf()
    }

    /// An empty store.
    pub fn new() -> (query: Self)
        ensures
            query@ == Tables::empty(),
            query.wf(),
    {
        let query = Query { stations: Vec::new(), locations: Vec::new(), readings: Vec::new() };
        assert(query@.stations =~= Seq::empty());
        assert(query@.locations =~= Seq::empty());
        query
    }

    /// The rows of the table of stations, in the order of insertion.
    pub(crate) fn station_rows(&self) -> (rows: &Vec<StationRecord>)
        ensures
            views(rows@) == self@.stations,
    {
        &self.stations
    }

    /// The rows of the table of locations, in the order of insertion.
    pub(crate) fn location_rows(&self) -> (rows: &Vec<Location>)
        ensures
            views(rows@) == self@.locations,
    {
        &self.locations
    }

    /// The rows of the table of readings, in the order of insertion.
    pub(crate) fn reading_rows(&self) -> (rows: &Vec<Reading>)
        ensures
            rows@ == self@.readings,
    {
        &self.readings
    }

    /// Appends a row to the table of stations.
    pub(crate) fn insert_station_row(&mut self, row: StationRecord)
        ensures
            final(self)@ == (Tables { stations: old(self)@.stations.push(row@), ..old(self)@ }),
    {
        self.stations.push(row);
        assert(views(self.stations@) =~= views(old(self).stations@).push(row@));
    }

    /// Replaces row `i` of the table of stations.
    pub(crate) fn replace_station_row(&mut self, i: usize, row: StationRecord)
        requires
            i < old(self)@.stations.len(),
        ensures
            final(self)@ == (Tables {
                stations: old(self)@.stations.update(i as int, row@),
                ..old(self)@
            }),
    {
        self.stations[i] = row;
        assert(views(self.stations@) =~= views(old(self).stations@).update(i as int, row@));
    }

    /// Appends a row to the table of locations.
    pub(crate) fn insert_location_row(&mut self, row: Location)
        ensures
            final(self)@ == (Tables { locations: old(self)@.locations.push(row@), ..old(self)@ }),
    {
        self.locations.push(row);
        assert(views(self.locations@) =~= views(old(self).locations@).push(row@));
    }

    /// Appends a row to the table of readings.
    pub(crate) fn insert_reading_row(&mut self, row: Reading)
        ensures
            final(self)@ == (Tables { readings: old(self)@.readings.push(row), ..old(self)@ }),
    {
        self.readings.push(row);
    }

    /// A copy of the table of stations, in the order of insertion.
    pub fn stations(&self) -> (rows: Vec<StationRecord>)
        ensures
            views(rows@) == self@.stations,
    {
        let mut rows: Vec<StationRecord> = Vec::new();
        let mut i: usize = 0;
        while i < self.stations.len()
            invariant
                i <= self.stations.len(),
                rows@ == self.stations@.take(i as int),
            decreases self.stations.len() - i,
        {
            rows.push(self.stations[i].clone());
            assert(rows@ =~= self.stations@.take(i + 1));
            i = i + 1;
        }
        assert(rows@ =~= self.stations@);
        rows
    }

    /// A copy of the table of locations, in the order of insertion.
    pub fn locations(&self) -> (rows: Vec<Location>)
        ensures
            views(rows@) == self@.locations,
    {
        let mut rows: Vec<Location> = Vec::new();
        let mut i: usize = 0;
        while i < self.locations.len()
            invariant
                i <= self.locations.len(),
                rows@ == self.locations@.take(i as int),
            decreases self.locations.len() - i,
        {
            rows.push(self.locations[i].clone());
            assert(rows@ =~= self.locations@.take(i + 1));
            i = i + 1;
        }
        assert(rows@ =~= self.locations@);
        rows
    }

    /// A copy of the table of readings, in the order of insertion.
    pub fn readings(&self) -> (rows: Vec<Reading>)
        ensures
            rows@ == self@.readings,
    {
        let mut rows: Vec<Reading> = Vec::new();
        let mut i: usize = 0;
        while i < self.readings.len()
            invariant
                i <= self.readings.len(),
                rows@ == self.readings@.take(i as int),
            decreases self.readings.len() - i,
        {
            rows.push(self.readings[i]);
            assert(rows@ =~= self.readings@.take(i + 1));
            i = i + 1;
        }
        assert(rows@ =~= self.readings@);
        rows
    }

    /// Whether the ids of the stations are positive and ascend, and no two
    /// stations share a token.
    fn stations_in_order(&self) -> (answer: bool)
        ensures
            answer ==> {
                &&& forall|i: int|
                    0 <= i < self@.stations.len() ==> (#[trigger] self@.stations[i]).id > 0
                &&& forall|i: int, j: int|
                    0 <= i < j < self@.stations.len() ==> (#[trigger] self@.stations[i]).id < (
                    #[trigger] self@.stations[j]).id
                &&& forall|i: int, j: int|
                    0 <= i < j < self@.stations.len() ==> (#[trigger] self@.stations[i]).token != (
                    #[trigger] self@.stations[j]).token
            },
            !answer ==> !self@.wf(),
    {
        let rows = &self.stations;
        let mut i: usize = 0;
        while i < rows.len()
            invariant
                rows@ == self.stations@,
                i <= rows.len(),
                forall|a: int| 0 <= a < i ==> (#[trigger] self@.stations[a]).id > 0,
                forall|a: int, b: int|
                    0 <= a < b < i ==> (#[trigger] self@.stations[a]).id < (
                    #[trigger] self@.stations[b]).id,
                forall|a: int, b: int|
                    0 <= a < b < i ==> (#[trigger] self@.stations[a]).token != (
                    #[trigger] self@.stations[b]).token,
            decreases rows.len() - i,
        {
            assert(self@.stations[i as int] == rows@[i as int]@);
            if rows[i].id <= 0 {
                return false;
            }
            if i > 0 {
                assert(self@.stations[i - 1] == rows@[i - 1]@);
                if rows[i - 1].id >= rows[i].id {
                    return false;
                }
                assert forall|a: int| 0 <= a < i implies (#[trigger] self@.stations[a]).id
                    < self@.stations[i as int].id by {
                    if a < i - 1 {
                        assert(self@.stations[a].id < self@.stations[i - 1].id);
                    }
                }
            }
            let mut j: usize = 0;
            while j < i
                invariant
                    rows@ == self.stations@,
                    j <= i < rows.len(),
                    forall|a: int|
                        0 <= a < j ==> (#[trigger] self@.stations[a]).token
                            != self@.stations[i as int].token,
                decreases i - j,
            {
                assert(self@.stations[j as int] == rows@[j as int]@);
                assert(self@.stations[i as int] == rows@[i as int]@);
                if rows[j].token == rows[i].token {
                    return false;
                }
                j = j + 1;
            }
            i = i + 1;
        }
        true
    }

    /// Whether the ids of the locations and those of the readings are
    /// positive and ascend.
    fn rows_in_order(&self) -> (answer: bool)
        ensures
            answer ==> {
                &&& forall|i: int|
                    0 <= i < self@.locations.len() ==> (#[trigger] self@.locations[i]).id > 0
                &&& forall|i: int, j: int|
                    0 <= i < j < self@.locations.len() ==> (#[trigger] self@.locations[i]).id < (
                    #[trigger] self@.locations[j]).id
                &&& forall|i: int|
                    0 <= i < self@.readings.len() ==> (#[trigger] self@.readings[i]).id > 0
                &&& forall|i: int, j: int|
                    0 <= i < j < self@.readings.len() ==> (#[trigger] self@.readings[i]).id < (
                    #[trigger] self@.readings[j]).id
            },
            !answer ==> !self@.wf(),
    {
        let locations = &self.locations;
        let mut i: usize = 0;
        while i < locations.len()
            invariant
                locations@ == self.locations@,
                i <= locations.len(),
                forall|a: int| 0 <= a < i ==> (#[trigger] self@.locations[a]).id > 0,
                forall|a: int, b: int|
                    0 <= a < b < i ==> (#[trigger] self@.locations[a]).id < (
                    #[trigger] self@.locations[b]).id,
            decreases locations.len() - i,
        {
            assert(self@.locations[i as int] == locations@[i as int]@);
            if locations[i].id <= 0 {
                return false;
            }
            if i > 0 {
                assert(self@.locations[i - 1] == locations@[i - 1]@);
                if locations[i - 1].id >= locations[i].id {
                    return false;
                }
                assert forall|a: int| 0 <= a < i implies (#[trigger] self@.locations[a]).id
                    < self@.locations[i as int].id by {
                    if a < i - 1 {
                        assert(self@.locations[a].id < self@.locations[i - 1].id);
                    }
                }
            }
            i = i + 1;
        }
        let readings = &self.readings;
        let mut k: usize = 0;
        while k < readings.len()
            invariant
                readings@ == self@.readings,
                k <= readings.len(),
                forall|a: int| 0 <= a < k ==> (#[trigger] self@.readings[a]).id > 0,
                forall|a: int, b: int|
                    0 <= a < b < k ==> (#[trigger] self@.readings[a]).id < (
                    #[trigger] self@.readings[b]).id,
            decreases readings.len() - k,
        {
            if readings[k].id <= 0 {
                return false;
            }
            if k > 0 {
                if readings[k - 1].id >= readings[k].id {
                    return false;
                }
                assert forall|a: int| 0 <= a < k implies (#[trigger] self@.readings[a]).id
                    < self@.readings[k as int].id by {
                    if a < k - 1 {
                        assert(self@.readings[a].id < self@.readings[k - 1].id);
                    }
                }
            }
            k = k + 1;
        }
        true
    }

    /// Whether every station and every reading refers to rows that exist.
    fn rows_refer_home(&self) -> (answer: bool)
        ensures
            answer ==> {
                &&& forall|i: int|
                    0 <= i < self@.stations.len() ==> ((
                    #[trigger] self@.stations[i]).location_id matches Some(l)
                        ==> self@.has_location(l))
                &&& forall|i: int|
                    0 <= i < self@.readings.len() ==> self@.has_station_id(
                        (#[trigger] self@.readings[i]).station_id,
                    )
                &&& forall|i: int|
                    0 <= i < self@.readings.len() ==> ((
                    #[trigger] self@.readings[i]).location_id matches Some(l)
                        ==> self@.has_location(l))
            },
            !answer ==> !self@.wf(),
    {
        let stations = &self.stations;
        let mut i: usize = 0;
        while i < stations.len()
            invariant
                stations@ == self.stations@,
                i <= stations.len(),
                forall|a: int|
                    0 <= a < i ==> ((#[trigger] self@.stations[a]).location_id matches Some(l)
                        ==> self@.has_location(l)),
            decreases stations.len() - i,
        {
            assert(self@.stations[i as int] == stations@[i as int]@);
            if let Some(location_id) = stations[i].location_id {
                if self.find_location(location_id).is_none() {
                    return false;
                }
            }
            i = i + 1;
        }
        let readings = &self.readings;
        let mut k: usize = 0;
        while k < readings.len()
            invariant
                readings@ == self@.readings,
                k <= readings.len(),
                forall|a: int|
                    0 <= a < k ==> self@.has_station_id((#[trigger] self@.readings[a]).station_id),
                forall|a: int|
                    0 <= a < k ==> ((#[trigger] self@.readings[a]).location_id matches Some(l)
                        ==> self@.has_location(l)),
            decreases readings.len() - k,
        {
            if self.find_station_by_id(readings[k].station_id).is_none() {
                return false;
            }
            if let Some(location_id) = readings[k].location_id {
                if self.find_location(location_id).is_none() {
                    return false;
                }
            }
            k = k + 1;
        }
        true
    }

    /// Checks at run time whether the store obeys the rules of
    /// [`Tables::wf`].
    pub fn is_consistent(&self) -> (answer: bool)
        ensures
            answer == self.wf(),
    {
        self.stations_in_order() && self.rows_in_order() && self.rows_refer_home()
    }

    /// Rebuilds a store from rows that were read back from durable storage,
    /// each table in the order of its ids.
    ///
    /// Succeeds exactly when the rows obey the rules of [`Tables::wf`];
    /// fails with `StorageError(Malformed)` otherwise.
    pub fn restore(stations: Vec<StationRecord>, locations: Vec<Location>, readings: Vec<Reading>) -> (answer:
        Result<Query, RepositoryError>)
        ensures
            match answer {
                Ok(query) => query.wf() && query@ == tables_of(stations@, locations@, readings@),
                Err(e) => e == RepositoryError::StorageError(StorageFault::Malformed) && !tables_of(
                    stations@,
                    locations@,
                    readings@,
                ).wf(),
            },
    {
        let query = Query { stations, locations, readings };
        if query.is_consistent() {
            Ok(query)
        } else {
            Err(RepositoryError::StorageError(StorageFault::Malformed))
        }
    }
}

} // verus!
