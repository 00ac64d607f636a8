//! The mathematical model of the store: three tables of rows, the rules
//! that keep them consistent, and what each statement means on them.
use vstd::prelude::*;
use crate::api::reading::AddReadingRequest;
use crate::api::station::UpdateStationRequest;
use crate::clock::window_start;
use crate::clock::HOUR_MILLIS;
use crate::error::RepositoryError;
use crate::error::StorageFault;
use crate::models::location::Location;
use crate::models::location::LocationView;
use crate::models::reading::AverageReading;
use crate::models::reading::AverageReadingValues;
use crate::models::reading::Reading;
use crate::models::station::StationView;
use crate::repository::queries::station::StationRecord;
use crate::repository::queries::station::StationRecordView;

verus! {

/// The views of the elements of `s`, in the same order.
pub open spec fn views<T: View>(s: Seq<T>) -> Seq<T::V> {
    Seq::new(s.len(), |i: int| s[i]@)
}

/// The contents of the store. Rows stand in the order in which they were
/// inserted.
pub struct Tables {
    pub stations: Seq<StationRecordView>,
    pub locations: Seq<LocationView>,
    pub readings: Seq<Reading>,
}

/// Whether `a` is more recent than `b`. Two readings taken at the same
/// instant are ordered by their ids, the higher one counting as more recent,
/// so that among readings with distinct ids exactly one is the latest.
pub open spec fn newer(a: Reading, b: Reading) -> bool {
    a.date > b.date || (a.date == b.date && a.id > b.id)
}

/// Whether `r` is selected by a query for the readings of `station` (of
/// every station when `None`) that were taken from `start` to `end`, both
/// ends included.
pub open spec fn in_window(r: Reading, station: Option<i32>, start: int, end: int) -> bool {
    &&& station matches Some(id) ==> r.station_id == id
    &&& start <= r.date <= end
}

/// The test that selects what [`in_window`] accepts.
pub open spec fn window(station: Option<i32>, start: int, end: int) -> spec_fn(Reading) -> bool {
    |r: Reading| in_window(r, station, start, end)
}

/// The test that selects the stations last seen at `cutoff` or later.
pub open spec fn seen_since(cutoff: int) -> spec_fn(StationRecordView) -> bool {
    |s: StationRecordView| s.last_online >= cutoff
}

/// The store that holds exactly the given rows.
pub open spec fn tables_of(
    stations: Seq<StationRecord>,
    locations: Seq<Location>,
    readings: Seq<Reading>,
) -> Tables {
    Tables { stations: views(stations), locations: views(locations), readings }
}

/// The stations that the rows describe, without their locations.
pub open spec fn stations_of(rows: Seq<StationRecordView>) -> Seq<StationView> {
    Seq::new(rows.len(), |i: int| rows[i].station())
}

impl Tables {
    /// The store without any rows.
    pub open spec fn empty() -> Tables {
        Tables { stations: Seq::empty(), locations: Seq::empty(), readings: Seq::empty() }
    }

    /// The id that the next station will get: ids are handed out in
    /// ascending order, starting at 1.
    pub open spec fn next_station_id(self) -> int {
        if self.stations.len() == 0 {
            1
        } else {
            self.stations.last().id + 1
        }
    }

    /// The id that the next location will get.
    pub open spec fn next_location_id(self) -> int {
        if self.locations.len() == 0 {
            1
        } else {
            self.locations.last().id + 1
        }
    }

    /// The id that the next reading will get.
    pub open spec fn next_reading_id(self) -> int {
        if self.readings.len() == 0 {
            1
        } else {
            self.readings.last().id + 1
        }
    }

    /// Whether a station is registered under `token`.
    pub open spec fn has_station(self, token: Seq<char>) -> bool {
        exists|i: int| 0 <= i < self.stations.len() && (#[trigger] self.stations[i]).token == token
    }

    /// The row of the station registered under `token`.
    pub open spec fn station(self, token: Seq<char>) -> StationRecordView
        recommends
            self.has_station(token),
    {
        let i = choose|i: int|
            0 <= i < self.stations.len() && (#[trigger] self.stations[i]).token == token;
        self.stations[i]
    }

    /// Whether a station has the id `id`.
    pub open spec fn has_station_id(self, id: i32) -> bool {
        exists|i: int| 0 <= i < self.stations.len() && (#[trigger] self.stations[i]).id == id
    }

    /// Whether a location has the id `id`.
    pub open spec fn has_location(self, id: i32) -> bool {
        exists|i: int| 0 <= i < self.locations.len() && (#[trigger] self.locations[i]).id == id
    }

    /// The location with the id `id`.
    pub open spec fn location(self, id: i32) -> LocationView
        recommends
            self.has_location(id),
    {
        let i = choose|i: int|
            0 <= i < self.locations.len() && (#[trigger] self.locations[i]).id == id;
        self.locations[i]
    }

    /// The rules that every store obeys:
    /// ids are positive and ascend with the order of insertion, so no two
    /// rows of a table share one; no two stations share a token; a station's
    /// location exists; a reading's station exists, and so does the location
    /// it was tagged with.
    pub open spec fn wf(self) -> bool {
        &&& forall|i: int| 0 <= i < self.stations.len() ==> (#[trigger] self.stations[i]).id > 0
        &&& forall|i: int, j: int|
            0 <= i < j < self.stations.len() ==> (#[trigger] self.stations[i]).id < (
            #[trigger] self.stations[j]).id
        &&& forall|i: int, j: int|
            0 <= i < j < self.stations.len() ==> (#[trigger] self.stations[i]).token != (
            #[trigger] self.stations[j]).token
        &&& forall|i: int| 0 <= i < self.locations.len() ==> (#[trigger] self.locations[i]).id > 0
        &&& forall|i: int, j: int|
            0 <= i < j < self.locations.len() ==> (#[trigger] self.locations[i]).id < (
            #[trigger] self.locations[j]).id
        &&& forall|i: int| 0 <= i < self.readings.len() ==> (#[trigger] self.readings[i]).id > 0
        &&& forall|i: int, j: int|
            0 <= i < j < self.readings.len() ==> (#[trigger] self.readings[i]).id < (
            #[trigger] self.readings[j]).id
        &&& forall|i: int|
            0 <= i < self.stations.len() ==> ((#[trigger] self.stations[i]).location_id matches Some(
                l,
            ) ==> self.has_location(l))
        &&& forall|i: int|
            0 <= i < self.readings.len() ==> self.has_station_id(
                (#[trigger] self.readings[i]).station_id,
            )
        &&& forall|i: int|
            0 <= i < self.readings.len() ==> ((#[trigger] self.readings[i]).location_id matches Some(
                l,
            ) ==> self.has_location(l))
    }

    // Locations

    /// What inserting a location returns: its new id, unless the ids have
    /// run out.
    pub open spec fn put_location_result(self) -> Result<i32, RepositoryError> {
        if self.next_location_id() > i32::MAX {
            Err(RepositoryError::StorageError(StorageFault::Exhausted))
        } else {
            Ok(self.next_location_id() as i32)
        }
    }

    /// The store after inserting `location`, whose own `id` is ignored.
    pub open spec fn after_put_location(self, location: LocationView) -> Tables {
        match self.put_location_result() {
            Ok(id) => Tables { locations: self.locations.push(location.with_id(id)), ..self },
            Err(_) => self,
        }
    }

    // Stations

    /// What inserting a station returns. The checks are made in this order:
    /// an id must be left, the token must be free, and the location that the
    /// station names must exist.
    pub open spec fn put_station_result(self, station: StationRecordView) -> Result<
        i32,
        RepositoryError,
    > {
        if self.next_station_id() > i32::MAX {
            Err(RepositoryError::StorageError(StorageFault::Exhausted))
        } else if self.has_station(station.token) {
            Err(RepositoryError::StorageError(StorageFault::Conflict))
        } else if station.location_id matches Some(l) && !self.has_location(l) {
            Err(RepositoryError::StorageError(StorageFault::ForeignKey))
        } else {
            Ok(self.next_station_id() as i32)
        }
    }

    /// The store after inserting `station`, whose own `id` is ignored.
    pub open spec fn after_put_station(self, station: StationRecordView) -> Tables {
        match self.put_station_result(station) {
            Ok(id) => Tables {
                stations: self.stations.push(StationRecordView { id, ..station }),
                ..self
            },
            Err(_) => self,
        }
    }

    /// What writing the versions, the location and the last-online time of
    /// the station with `station.id` returns. Without such a station nothing
    /// is written and nothing fails.
    pub open spec fn update_station_result(self, station: StationRecordView) -> Result<
        (),
        RepositoryError,
    > {
        if self.has_station_id(station.id) && (station.location_id matches Some(l)
            && !self.has_location(l)) {
            Err(RepositoryError::StorageError(StorageFault::ForeignKey))
        } else {
            Ok(())
        }
    }

    /// The row `row` after the update `station` has been written to it.
    pub open spec fn overwrite(row: StationRecordView, station: StationRecordView) -> StationRecordView {
        StationRecordView {
            hw_version: station.hw_version,
            sw_version: station.sw_version,
            location_id: station.location_id,
            last_online: station.last_online,
            ..row
        }
    }

    /// The store after the update: the row with `station.id` takes the
    /// versions, the location and the last-online time of `station`, and
    /// keeps its `uid` and token.
    pub open spec fn after_update_station(self, station: StationRecordView) -> Tables {
        match self.update_station_result(station) {
            Ok(_) => Tables {
                stations: Seq::new(
                    self.stations.len(),
                    |i: int|
                        if self.stations[i].id == station.id {
                            Tables::overwrite(self.stations[i], station)
                        } else {
                            self.stations[i]
                        },
                ),
                ..self
            },
            Err(_) => self,
        }
    }

    /// What pointing the station with `token` at the location `location_id`
    /// returns. Without such a station nothing is written and nothing fails.
    pub open spec fn update_location_id_result(self, location_id: i32, token: Seq<char>) -> Result<
        (),
        RepositoryError,
    > {
        if self.has_station(token) && !self.has_location(location_id) {
            Err(RepositoryError::StorageError(StorageFault::ForeignKey))
        } else {
            Ok(())
        }
    }

    /// The store after the station with `token` has been pointed at the
    /// location `location_id`. The location it pointed to before stays in
    /// the table.
    pub open spec fn after_update_location_id(self, location_id: i32, token: Seq<char>) -> Tables {
        match self.update_location_id_result(location_id, token) {
            Ok(_) => Tables {
                stations: Seq::new(
                    self.stations.len(),
                    |i: int|
                        if self.stations[i].token == token {
                            StationRecordView { location_id: Some(location_id), ..self.stations[i] }
                        } else {
                            self.stations[i]
                        },
                ),
                ..self
            },
            Err(_) => self,
        }
    }

    /// The station registered under `token` as a lookup reports it: with
    /// its location embedded when the caller asks for it and the station has
    /// one, without a location otherwise.
    pub open spec fn lookup(self, token: Seq<char>, include_location: bool) -> StationView {
        let row = self.station(token);
        StationView {
            location: if include_location && row.location_id is Some {
                Some(self.location(row.location_id->0))
            } else {
                None
            },
            ..row.station()
        }
    }

    /// The row that registering `station` inserts: the station's columns,
    /// pointing at the location it brings along, if it brings one.
    pub open spec fn register_row(self, station: StationView) -> StationRecordView {
        if station.location is Some && self.put_location_result() is Ok {
            StationRecordView {
                location_id: Some(self.put_location_result()->Ok_0),
                ..station.record()
            }
        } else {
            station.record()
        }
    }

    /// What registering `station` returns. A station that brings a location
    /// along has the location inserted first; the station is then inserted
    /// pointing at it.
    pub open spec fn register_result(self, station: StationView) -> Result<i32, RepositoryError> {
        match station.location {
            Some(location) => match self.put_location_result() {
                Ok(_) => self.after_put_location(location).put_station_result(
                    self.register_row(station),
                ),
                Err(e) => Err(e),
            },
            None => self.put_station_result(station.record()),
        }
    }

    /// The store after registering `station`. The two inserts are not
    /// undone together: when the station is refused, the location that it
    /// brought along stays in the table.
    pub open spec fn after_register(self, station: StationView) -> Tables {
        match station.location {
            Some(location) => match self.put_location_result() {
                Ok(_) => self.after_put_location(location).after_put_station(
                    self.register_row(station),
                ),
                Err(_) => self,
            },
            None => self.after_put_station(station.record()),
        }
    }

    /// What attaching a new location to the station it names returns: only
    /// running out of ids makes it fail.
    pub open spec fn attach_result(self) -> Result<(), RepositoryError> {
        match self.put_location_result() {
            Ok(_) => Ok(()),
            Err(e) => Err(e),
        }
    }

    /// The store after attaching `location`: the location is inserted, and
    /// the station registered under `location.station_token`, if there is
    /// one, points at it.
    pub open spec fn after_attach(self, location: LocationView) -> Tables {
        match self.put_location_result() {
            Ok(id) => self.after_put_location(location).after_update_location_id(
                id,
                location.station_token,
            ),
            Err(_) => self,
        }
    }

    /// What a partial update of the station registered under `token`
    /// returns.
    pub open spec fn modify_result(self, token: Seq<char>) -> Result<(), RepositoryError> {
        if self.has_station(token) {
            Ok(())
        } else {
            Err(RepositoryError::NotFound)
        }
    }

    /// The store after a partial update of the station registered under
    /// `token`.
    pub open spec fn after_modify(self, token: Seq<char>, update: UpdateStationRequest) -> Tables {
        if self.has_station(token) {
            self.after_update_station(self.station(token).station().updated(update).record())
        } else {
            self
        }
    }

    /// The store after the station registered under `token` has been seen at
    /// `now`.
    pub open spec fn touched(self, token: Seq<char>, now: i64) -> Tables {
        self.after_update_station(StationRecordView { last_online: now, ..self.station(token) })
    }

    /// The reading that ingesting `request` at `now` stores: it belongs to
    /// the station that the request names and is tagged with the location
    /// that the station has at that moment.
    pub open spec fn ingest_reading(self, request: AddReadingRequest, now: i64) -> Reading {
        Reading {
            station_id: self.station(request.station_token@).id,
            location_id: self.station(request.station_token@).location_id,
            ..Reading::of_request(request, now)
        }
    }

    /// What ingesting `request` at `now` returns: the id of the new reading;
    /// `NotFound` when the request names no registered station;
    /// `StorageError(Exhausted)` when no reading id is left.
    pub open spec fn ingest_result(self, request: AddReadingRequest, now: i64) -> Result<
        i32,
        RepositoryError,
    > {
        if !self.has_station(request.station_token@) {
            Err(RepositoryError::NotFound)
        } else if self.next_reading_id() > i32::MAX {
            Err(RepositoryError::StorageError(StorageFault::Exhausted))
        } else {
            Ok(self.next_reading_id() as i32)
        }
    }

    /// The store after ingesting `request` at `now`. The station is marked
    /// as seen at `now` first, whatever time the reading itself carries, and
    /// stays so when the reading is then refused.
    pub open spec fn after_ingest(self, request: AddReadingRequest, now: i64) -> Tables {
        if self.has_station(request.station_token@) {
            self.touched(request.station_token@, now).after_put_reading(
                self.ingest_reading(request, now),
            )
        } else {
            self
        }
    }

    /// The most recent reading of the station registered under `token`, if
    /// there is such a station and it has a reading.
    pub open spec fn last_reading(self, token: Seq<char>) -> Option<Reading> {
        if self.has_station(token) && self.has_reading(self.station(token).id) {
            Some(self.latest(self.station(token).id))
        } else {
            None
        }
    }

    /// The stations that were last seen at `cutoff` or later.
    pub open spec fn active_stations(self, cutoff: int) -> Seq<StationRecordView> {
        self.stations.filter(seen_since(cutoff))
    }

    // Readings

    /// What inserting a reading returns. An id must be left, the station
    /// must exist, and so must the location that the reading is tagged with.
    pub open spec fn put_reading_result(self, reading: Reading) -> Result<i32, RepositoryError> {
        if self.next_reading_id() > i32::MAX {
            Err(RepositoryError::StorageError(StorageFault::Exhausted))
        } else if !self.has_station_id(reading.station_id) {
            Err(RepositoryError::StorageError(StorageFault::ForeignKey))
        } else if reading.location_id matches Some(l) && !self.has_location(l) {
            Err(RepositoryError::StorageError(StorageFault::ForeignKey))
        } else {
            Ok(self.next_reading_id() as i32)
        }
    }

    /// The store after inserting `reading`, whose own `id` is ignored.
    pub open spec fn after_put_reading(self, reading: Reading) -> Tables {
        match self.put_reading_result(reading) {
            Ok(id) => Tables { readings: self.readings.push(Reading { id, ..reading }), ..self },
            Err(_) => self,
        }
    }

    /// The readings of `station` (of every station when `None`) taken from
    /// `start` to `end`, both ends included, in the order of insertion.
    pub open spec fn select(self, station: Option<i32>, start: int, end: int) -> Seq<Reading> {
        self.readings.filter(window(station, start, end))
    }

    /// The readings of station `station_id` taken from `start` to `end`,
    /// both ends included.
    pub open spec fn readings_between(self, station_id: i32, start: i64, end: i64) -> Seq<Reading> {
        self.select(Some(station_id), start as int, end as int)
    }

    /// All readings of station `station_id`.
    pub open spec fn station_readings(self, station_id: i32) -> Seq<Reading> {
        self.select(Some(station_id), i64::MIN as int, i64::MAX as int)
    }

    /// The readings of station `station_id` taken at `cutoff` or later.
    pub open spec fn station_readings_since(self, station_id: i32, cutoff: int) -> Seq<Reading> {
        self.select(Some(station_id), cutoff, i64::MAX as int)
    }

    /// The readings of all stations taken at `cutoff` or later.
    pub open spec fn readings_since(self, cutoff: int) -> Seq<Reading> {
        self.select(None, cutoff, i64::MAX as int)
    }

    /// The means of the metrics of station `station_id` over the hour and
    /// over the 24 hours before `now`.
    pub open spec fn average_reading(self, station_id: i32, now: i64) -> AverageReading {
        AverageReading {
            hour: AverageReadingValues::of(
                self.station_readings_since(station_id, window_start(now, 1, HOUR_MILLIS)),
            ),
            day: AverageReadingValues::of(
                self.station_readings_since(station_id, window_start(now, 24, HOUR_MILLIS)),
            ),
        }
    }

    /// Whether station `station_id` has any reading.
    pub open spec fn has_reading(self, station_id: i32) -> bool {
        exists|i: int|
            0 <= i < self.readings.len() && (#[trigger] self.readings[i]).station_id == station_id
    }

    /// Whether `r` is the most recent reading of station `station_id`: it is
    /// one of the station's readings, and more recent than every other.
    pub open spec fn is_latest(self, station_id: i32, r: Reading) -> bool {
        &&& self.readings.contains(r)
        &&& r.station_id == station_id
        &&& forall|i: int|
            0 <= i < self.readings.len() && (#[trigger] self.readings[i]).station_id == station_id
                && self.readings[i] != r ==> newer(r, self.readings[i])
    }

    /// The most recent reading of station `station_id`.
    pub open spec fn latest(self, station_id: i32) -> Reading
        recommends
            self.has_reading(station_id),
    {
        choose|r: Reading| self.is_latest(station_id, r)
    }

    /// Whether `out` holds the most recent readings of station `station_id`,
    /// at most `count` of them, the most recent first: every reading of the
    /// station that is left out is older than all that are in, and none is
    /// left out while there is room.
    pub open spec fn is_latest_run(self, station_id: i32, count: int, out: Seq<Reading>) -> bool {
        &&& out.len() <= count
        &&& forall|i: int|
            0 <= i < out.len() ==> self.readings.contains(#[trigger] out[i]) && out[i].station_id
                == station_id
        &&& forall|i: int, j: int| 0 <= i < j < out.len() ==> newer(#[trigger] out[i], #[trigger] out[j])
        &&& forall|k: int, i: int|
            0 <= k < self.readings.len() && (#[trigger] self.readings[k]).station_id == station_id
                && !out.contains(self.readings[k]) && 0 <= i < out.len() ==> newer(
                #[trigger] out[i],
                self.readings[k],
            )
        &&& out.len() < count ==> forall|k: int|
            0 <= k < self.readings.len() && (#[trigger] self.readings[k]).station_id == station_id
                ==> out.contains(self.readings[k])
    }

    /// How many readings a query for the `count` latest readings of station
    /// `station_id` returns: `count`, or as many as the station has when
    /// those are fewer.
    pub open spec fn latest_count(self, station_id: i32, count: int) -> int {
        if count <= self.station_readings(station_id).len() {
            count
        } else {
            self.station_readings(station_id).len() as int
        }
    }

    /// For each station its most recent reading, if that was taken at
    /// `cutoff` or later; in the order of insertion.
    pub open spec fn latest_per_station(self, cutoff: int) -> Seq<Reading> {
        self.readings.filter(self.latest_since(cutoff))
    }

    /// The test that selects the readings of [`Tables::latest_per_station`].
    pub open spec fn latest_since(self, cutoff: int) -> spec_fn(Reading) -> bool {
        |r: Reading| r.date >= cutoff && self.is_latest(r.station_id, r)
    }
}

// Facts about the model that the statements rest on.

/// Filtering one more element of a sequence either appends it or changes
/// nothing.
pub proof fn lemma_filter_step<T>(s: Seq<T>, p: spec_fn(T) -> bool, i: int)
    requires
        0 <= i < s.len(),
    ensures
        s.take(i + 1).filter(p) == if p(s[i]) {
            s.take(i).filter(p).push(s[i])
        } else {
            s.take(i).filter(p)
        },
{
    assert(s.take(i + 1) =~= s.take(i).push(s[i]));
    s.take(i).lemma_filter_push(s[i], p);
}

/// In a consistent store a token names one row only.
pub proof fn lemma_station_at(t: Tables, i: int)
    requires
        t.wf(),
        0 <= i < t.stations.len(),
    ensures
        t.has_station(t.stations[i].token),
        t.station(t.stations[i].token) == t.stations[i],
        t.has_station_id(t.stations[i].id),
{
    let token = t.stations[i].token;
    let j = choose|j: int| 0 <= j < t.stations.len() && (#[trigger] t.stations[j]).token == token;
    if j < i {
        assert(t.stations[j].token != t.stations[i].token);
    }
    if i < j {
        assert(t.stations[i].token != t.stations[j].token);
    }
}

/// In a consistent store an id names one location only.
pub proof fn lemma_location_at(t: Tables, i: int)
    requires
        t.wf(),
        0 <= i < t.locations.len(),
    ensures
        t.has_location(t.locations[i].id),
        t.location(t.locations[i].id) == t.locations[i],
{
    let id = t.locations[i].id;
    let j = choose|j: int| 0 <= j < t.locations.len() && (#[trigger] t.locations[j]).id == id;
    if j < i {
        assert(t.locations[j].id < t.locations[i].id);
    }
    if i < j {
        assert(t.locations[i].id < t.locations[j].id);
    }
}

/// Every id in a table lies below the next id.
pub proof fn lemma_ids_below_next(t: Tables)
    requires
        t.wf(),
    ensures
        t.next_station_id() > 0,
        t.next_location_id() > 0,
        t.next_reading_id() > 0,
        forall|i: int| 0 <= i < t.stations.len() ==> (#[trigger] t.stations[i]).id < t.next_station_id(),
        forall|i: int|
            0 <= i < t.locations.len() ==> (#[trigger] t.locations[i]).id < t.next_location_id(),
        forall|i: int| 0 <= i < t.readings.len() ==> (#[trigger] t.readings[i]).id < t.next_reading_id(),
{
    assert forall|i: int| 0 <= i < t.stations.len() implies (#[trigger] t.stations[i]).id
        < t.next_station_id() by {
        if i < t.stations.len() - 1 {
            assert(t.stations[i].id < t.stations[t.stations.len() - 1].id);
        }
    }
    assert forall|i: int| 0 <= i < t.locations.len() implies (#[trigger] t.locations[i]).id
        < t.next_location_id() by {
        if i < t.locations.len() - 1 {
            assert(t.locations[i].id < t.locations[t.locations.len() - 1].id);
        }
    }
    assert forall|i: int| 0 <= i < t.readings.len() implies (#[trigger] t.readings[i]).id
        < t.next_reading_id() by {
        if i < t.readings.len() - 1 {
            assert(t.readings[i].id < t.readings[t.readings.len() - 1].id);
        }
    }
    if t.stations.len() > 0 {
        assert(t.stations[t.stations.len() - 1].id > 0);
    }
    if t.locations.len() > 0 {
        assert(t.locations[t.locations.len() - 1].id > 0);
    }
    if t.readings.len() > 0 {
        assert(t.readings[t.readings.len() - 1].id > 0);
    }
}

/// Locations are never removed: whatever the second store adds to the
/// locations of the first, every location of the first is still there.
pub proof fn lemma_locations_kept(before: Tables, after: Tables)
    requires
        before.locations.len() <= after.locations.len(),
        forall|i: int|
            0 <= i < before.locations.len() ==> (#[trigger] after.locations[i])
                == before.locations[i],
    ensures
        forall|id: i32| before.has_location(id) ==> after.has_location(id),
{
    assert forall|id: i32| before.has_location(id) implies after.has_location(id) by {
        let i = choose|i: int|
            0 <= i < before.locations.len() && (#[trigger] before.locations[i]).id == id;
        assert(after.locations[i].id == id);
    }
}

/// Station ids are never removed or changed.
pub proof fn lemma_station_ids_kept(before: Tables, after: Tables)
    requires
        before.stations.len() <= after.stations.len(),
        forall|i: int|
            0 <= i < before.stations.len() ==> (#[trigger] after.stations[i]).id
                == before.stations[i].id,
    ensures
        forall|id: i32| before.has_station_id(id) ==> after.has_station_id(id),
{
    assert forall|id: i32| before.has_station_id(id) implies after.has_station_id(id) by {
        let i = choose|i: int|
            0 <= i < before.stations.len() && (#[trigger] before.stations[i]).id == id;
        assert(after.stations[i].id == id);
    }
}

/// Inserting a location keeps the store consistent.
pub proof fn lemma_put_location_wf(t: Tables, location: LocationView)
    requires
        t.wf(),
    ensures
        t.after_put_location(location).wf(),
{
    let after = t.after_put_location(location);
    if t.put_location_result() is Ok {
        lemma_ids_below_next(t);
        lemma_locations_kept(t, after);
        lemma_station_ids_kept(t, after);
        assert forall|i: int| 0 <= i < after.stations.len() implies ((
        #[trigger] after.stations[i]).location_id matches Some(l) ==> after.has_location(l)) by {
            assert(after.stations[i] == t.stations[i]);
        }
        assert forall|i: int| 0 <= i < after.readings.len() implies ((
        #[trigger] after.readings[i]).location_id matches Some(l) ==> after.has_location(l)) by {
            assert(after.readings[i] == t.readings[i]);
        }
        assert forall|i: int| 0 <= i < after.readings.len() implies after.has_station_id(
            (#[trigger] after.readings[i]).station_id,
        ) by {
            assert(after.readings[i] == t.readings[i]);
        }
    }
}

/// Inserting a station keeps the store consistent.
pub proof fn lemma_put_station_wf(t: Tables, station: StationRecordView)
    requires
        t.wf(),
    ensures
        t.after_put_station(station).wf(),
{
    let after = t.after_put_station(station);
    if t.put_station_result(station) is Ok {
        lemma_ids_below_next(t);
        lemma_locations_kept(t, after);
        lemma_station_ids_kept(t, after);
        let n = t.stations.len() as int;
        assert forall|i: int, j: int| 0 <= i < j < after.stations.len() implies (
        #[trigger] after.stations[i]).token != (#[trigger] after.stations[j]).token by {
            if j == n {
                assert(t.stations[i].token != station.token);
            } else {
                assert(t.stations[i].token != t.stations[j].token);
            }
        }
        assert forall|i: int| 0 <= i < after.readings.len() implies after.has_station_id(
            (#[trigger] after.readings[i]).station_id,
        ) by {
            assert(after.readings[i] == t.readings[i]);
        }
    }
}

/// Updating a station keeps the store consistent.
pub proof fn lemma_update_station_wf(t: Tables, station: StationRecordView)
    requires
        t.wf(),
    ensures
        t.after_update_station(station).wf(),
{
    let after = t.after_update_station(station);
    if t.update_station_result(station) is Ok {
        lemma_locations_kept(t, after);
        lemma_station_ids_kept(t, after);
        assert forall|i: int| 0 <= i < after.stations.len() implies (#[trigger] after.stations[i]).id
            > 0 by {
            assert(t.stations[i].id > 0);
        }
        assert forall|i: int, j: int| 0 <= i < j < after.stations.len() implies (
        #[trigger] after.stations[i]).id < (#[trigger] after.stations[j]).id by {
            assert(t.stations[i].id < t.stations[j].id);
        }
        assert forall|i: int, j: int| 0 <= i < j < after.stations.len() implies (
        #[trigger] after.stations[i]).token != (#[trigger] after.stations[j]).token by {
            assert(t.stations[i].token != t.stations[j].token);
        }
        assert forall|i: int| 0 <= i < after.stations.len() implies ((
        #[trigger] after.stations[i]).location_id matches Some(l) ==> after.has_location(l)) by {
            if t.stations[i].id == station.id {
                assert(t.has_station_id(station.id));
            } else {
                assert(after.stations[i] == t.stations[i]);
            }
        }
        assert forall|i: int| 0 <= i < after.readings.len() implies after.has_station_id(
            (#[trigger] after.readings[i]).station_id,
        ) by {
            assert(after.readings[i] == t.readings[i]);
        }
    }
}

/// Pointing a station at a location keeps the store consistent.
pub proof fn lemma_update_location_id_wf(t: Tables, location_id: i32, token: Seq<char>)
    requires
        t.wf(),
    ensures
        t.after_update_location_id(location_id, token).wf(),
{
    let after = t.after_update_location_id(location_id, token);
    if t.update_location_id_result(location_id, token) is Ok {
        lemma_locations_kept(t, after);
        lemma_station_ids_kept(t, after);
        assert forall|i: int| 0 <= i < after.stations.len() implies (#[trigger] after.stations[i]).id
            > 0 by {
            assert(t.stations[i].id > 0);
        }
        assert forall|i: int, j: int| 0 <= i < j < after.stations.len() implies (
        #[trigger] after.stations[i]).id < (#[trigger] after.stations[j]).id by {
            assert(t.stations[i].id < t.stations[j].id);
        }
        assert forall|i: int, j: int| 0 <= i < j < after.stations.len() implies (
        #[trigger] after.stations[i]).token != (#[trigger] after.stations[j]).token by {
            assert(t.stations[i].token != t.stations[j].token);
        }
        assert forall|i: int| 0 <= i < after.stations.len() implies ((
        #[trigger] after.stations[i]).location_id matches Some(l) ==> after.has_location(l)) by {
            if t.stations[i].token == token {
                assert(t.has_station(token));
            } else {
                assert(after.stations[i] == t.stations[i]);
            }
        }
        assert forall|i: int| 0 <= i < after.readings.len() implies after.has_station_id(
            (#[trigger] after.readings[i]).station_id,
        ) by {
            assert(after.readings[i] == t.readings[i]);
        }
    }
}

/// Inserting a reading keeps the store consistent.
pub proof fn lemma_put_reading_wf(t: Tables, reading: Reading)
    requires
        t.wf(),
    ensures
        t.after_put_reading(reading).wf(),
{
    let after = t.after_put_reading(reading);
    if t.put_reading_result(reading) is Ok {
        lemma_ids_below_next(t);
        lemma_locations_kept(t, after);
        lemma_station_ids_kept(t, after);
        let n = t.readings.len() as int;
        assert forall|i: int| 0 <= i < after.readings.len() implies after.has_station_id(
            (#[trigger] after.readings[i]).station_id,
        ) by {
            if i < n {
                assert(after.readings[i] == t.readings[i]);
            }
        }
        assert forall|i: int| 0 <= i < after.readings.len() implies ((
        #[trigger] after.readings[i]).location_id matches Some(l) ==> after.has_location(l)) by {
            if i < n {
                assert(after.readings[i] == t.readings[i]);
            }
        }
    }
}

/// A station has at most one latest reading.
pub proof fn lemma_latest_unique(t: Tables, station_id: i32, a: Reading, b: Reading)
    requires
        t.is_latest(station_id, a),
        t.is_latest(station_id, b),
    ensures
        a == b,
        t.latest(station_id) == a,
{
    if a != b {
        let i = choose|i: int| 0 <= i < t.readings.len() && t.readings[i] == a;
        let j = choose|j: int| 0 <= j < t.readings.len() && t.readings[j] == b;
        assert(newer(a, t.readings[j]));
        assert(newer(b, t.readings[i]));
    }
    let c = t.latest(station_id);
    if c != a {
        let i = choose|i: int| 0 <= i < t.readings.len() && t.readings[i] == a;
        let j = choose|j: int| 0 <= j < t.readings.len() && t.readings[j] == c;
        assert(newer(a, t.readings[j]));
        assert(newer(c, t.readings[i]));
    }
}

/// A station's row can always be written back with other versions or
/// another last-online time: its location is known to exist.
pub proof fn lemma_rewrite_accepted(t: Tables, token: Seq<char>, row: StationRecordView)
    requires
        t.wf(),
        t.has_station(token),
        row.id == t.station(token).id,
        row.location_id == t.station(token).location_id,
    ensures
        t.update_station_result(row) is Ok,
        t.has_station_id(row.id),
        row.location_id matches Some(l) ==> t.has_location(l),
{
    let i = choose|i: int| 0 <= i < t.stations.len() && (#[trigger] t.stations[i]).token == token;
    assert(t.stations[i].location_id matches Some(l) ==> t.has_location(l));
}

/// Writing a station's row leaves the other tables, and what they make of a
/// new reading, as they were.
pub proof fn lemma_update_keeps_readings(t: Tables, row: StationRecordView, reading: Reading)
    requires
        t.wf(),
        t.has_station_id(reading.station_id),
    ensures
        t.after_update_station(row).readings == t.readings,
        t.after_update_station(row).locations == t.locations,
        t.after_update_station(row).put_reading_result(reading) == t.put_reading_result(reading),
{
    let after = t.after_update_station(row);
    lemma_station_ids_kept(t, after);
    lemma_locations_kept(t, after);
    lemma_locations_kept(after, t);
}

/// Writing the row of the station registered under `token` changes that
/// row as asked and leaves the station findable under the same token.
pub proof fn lemma_updated_station(t: Tables, token: Seq<char>, row: StationRecordView)
    requires
        t.wf(),
        t.has_station(token),
        row.id == t.station(token).id,
        t.update_station_result(row) is Ok,
    ensures
        t.after_update_station(row).wf(),
        t.after_update_station(row).has_station(token),
        t.after_update_station(row).station(token) == Tables::overwrite(t.station(token), row),
{
    let after = t.after_update_station(row);
    lemma_update_station_wf(t, row);
    let i = choose|i: int| 0 <= i < t.stations.len() && (#[trigger] t.stations[i]).token == token;
    assert(after.stations[i] == Tables::overwrite(t.stations[i], row));
    lemma_station_at(after, i);
}

/// Pointing the station registered under `token` at a location changes
/// that row's location and nothing else of it.
pub proof fn lemma_relinked_station(t: Tables, location_id: i32, token: Seq<char>)
    requires
        t.wf(),
        t.has_station(token),
        t.has_location(location_id),
    ensures
        t.after_update_location_id(location_id, token).wf(),
        t.after_update_location_id(location_id, token).has_station(token),
        t.after_update_location_id(location_id, token).station(token) == (StationRecordView {
            location_id: Some(location_id),
            ..t.station(token)
        }),
        t.after_update_location_id(location_id, token).locations == t.locations,
        t.after_update_location_id(location_id, token).readings == t.readings,
{
    let after = t.after_update_location_id(location_id, token);
    lemma_update_location_id_wf(t, location_id, token);
    let i = choose|i: int| 0 <= i < t.stations.len() && (#[trigger] t.stations[i]).token == token;
    assert(after.stations[i] == (StationRecordView {
        location_id: Some(location_id),
        ..t.stations[i]
    }));
    lemma_station_at(after, i);
}

/// A location that has just been inserted is found under the id it was
/// given, and every location that was there before is found as before.
pub proof fn lemma_inserted_location(t: Tables, location: LocationView)
    requires
        t.wf(),
        t.put_location_result() is Ok,
    ensures
        t.after_put_location(location).wf(),
        t.after_put_location(location).has_location(t.put_location_result()->Ok_0),
        t.after_put_location(location).location(t.put_location_result()->Ok_0)
            == location.with_id(t.put_location_result()->Ok_0),
        !t.has_location(t.put_location_result()->Ok_0),
        forall|id: i32|
            t.has_location(id) ==> t.after_put_location(location).has_location(id)
                && t.after_put_location(location).location(id) == t.location(id),
        t.after_put_location(location).stations == t.stations,
        t.after_put_location(location).readings == t.readings,
{
    let after = t.after_put_location(location);
    let n = t.locations.len() as int;
    lemma_put_location_wf(t, location);
    lemma_ids_below_next(t);
    lemma_location_at(after, n);
    assert forall|id: i32| t.has_location(id) implies after.has_location(id) && after.location(id)
        == t.location(id) by {
        let i = choose|i: int| 0 <= i < t.locations.len() && (#[trigger] t.locations[i]).id == id;
        assert(after.locations[i] == t.locations[i]);
        lemma_location_at(after, i);
        lemma_location_at(t, i);
    }
}

} // verus!
