//! The repository: the store together with the rules that span its tables.
use vstd::prelude::*;
use crate::clock::window_start;
use crate::clock::HOUR_MILLIS;
use crate::clock::MINUTE_MILLIS;
use crate::error::RepositoryError;
use crate::error::StorageFault;
use crate::models::location::Location;
use crate::models::reading::AverageReading;
use crate::models::reading::Reading;
use crate::models::station::Station;
use crate::repository::queries::station::StationRecord;
use crate::repository::query::Query;
use crate::repository::tables::lemma_put_location_wf;
use crate::repository::tables::stations_of;
use crate::repository::tables::tables_of;
use crate::repository::tables::views;
use crate::repository::tables::Tables;

verus! {

/// The telemetry repository. It links stations to locations, tags readings
/// with the station's location, and answers the queries over them.
pub struct DBRepository {
    query: Query,
}

impl View for DBRepository {
    type V = Tables;

    closed spec fn view(&self) -> Tables {
        self.query@
    }
}

impl DBRepository {
    /// Whether the repository obeys the rules of [`Tables::wf`]. Every
    /// repository that this crate hands out does.
    pub open spec fn wf(&self) -> bool {
        self@.wf()
    }

    /// A repository without any rows.
    pub fn new() -> (db: Self)
        ensures
            db@ == Tables::empty(),
            db.wf(),
    {
        DBRepository { query: Query::new() }
    }

    /// Rebuilds a repository from rows that were read back from durable
    /// storage, each table in the order of its ids. Succeeds exactly when
    /// the rows obey the rules of [`Tables::wf`]; fails with
    /// `StorageError(Malformed)` otherwise.
    pub fn restore(stations: Vec<StationRecord>, locations: Vec<Location>, readings: Vec<Reading>) -> (answer:
        Result<DBRepository, RepositoryError>)
        ensures
            match answer {
                Ok(db) => db.wf() && db@ == tables_of(stations@, locations@, readings@),
                Err(e) => e == RepositoryError::StorageError(StorageFault::Malformed) && !tables_of(
                    stations@,
                    locations@,
                    readings@,
                ).wf(),
            },
    {
        match Query::restore(stations, locations, readings) {
            Ok(query) => Ok(DBRepository { query }),
            Err(e) => Err(e),
        }
    }

    /// Checks at run time whether the repository obeys the rules of
    /// [`Tables::wf`].
    pub fn is_consistent(&self) -> (answer: bool)
        ensures
            answer == self.wf(),
    {
        self.query.is_consistent()
    }

    /// A copy of the table of stations, in the order of insertion.
    pub fn stations(&self) -> (rows: Vec<StationRecord>)
        ensures
            views(rows@) == self@.stations,
    {
        self.query.stations()
    }

    /// A copy of the table of locations, in the order of insertion.
    pub fn locations(&self) -> (rows: Vec<Location>)
        ensures
            views(rows@) == self@.locations,
    {
        self.query.locations()
    }

    /// A copy of the table of readings, in the order of insertion.
    pub fn readings(&self) -> (rows: Vec<Reading>)
        ensures
            rows@ == self@.readings,
    {
        self.query.readings()
    }

    /// Looks a station up by its token. With `include_location` the
    /// station's location, if it has one, is looked up too and embedded.
    ///
    /// Fails with `NotFound` exactly when no station is registered under the
    /// token. A station never points at a missing location, so the second
    /// lookup cannot fail.
    pub fn get_station(&self, token: String, include_location: bool) -> (answer: Result<
        Station,
        RepositoryError,
    >)
        requires
            self.wf(),
        ensures
            match answer {
                Ok(station) => self@.has_station(token@) && station@ == self@.lookup(
                    token@,
                    include_location,
                ),
                Err(e) => e == RepositoryError::NotFound && !self@.has_station(token@),
            },
    {
        let ghost key = token@;
        let rec = match self.query.get_station(token) {
            Ok(rec) => rec,
            Err(e) => {
                return Err(e);
            },
        };
        proof {
            let i = choose|i: int|
                0 <= i < self@.stations.len() && (#[trigger] self@.stations[i]).token == key;
            assert(self@.stations[i] == rec@);
        }
        let location = match rec.location_id {
            Some(id) => {
                if include_location {
                    match self.get_location(id) {
                        Ok(location) => Some(location),
                        Err(e) => {
                            return Err(e);
                        },
                    }
                } else {
                    None
                }
            },
            None => None,
        };
        let mut station = Station::from(&rec);
        station.location = location;
        Ok(station)
    }

    /// The stations that were last seen within the hour before `now`, the
    /// instant exactly one hour before `now` included. Their locations are
    /// not embedded. Never fails.
    pub fn get_active_stations(&self, now: i64) -> (answer: Result<Vec<Station>, RepositoryError>)
        ensures
            answer matches Ok(stations) && views(stations@) == stations_of(
                self@.active_stations(window_start(now, 1, HOUR_MILLIS)),
            ),
    {
        let rows: Vec<StationRecord> = match self.query.get_active_stations(now) {
            Ok(rows) => rows,
            Err(e) => {
                return Err(e);
            },
        };
        let ghost active = self@.active_stations(window_start(now, 1, HOUR_MILLIS));
        let mut out: Vec<Station> = Vec::new();
        let mut i: usize = 0;
        while i < rows.len()
            invariant
                views(rows@) == active,
                i <= rows.len(),
                out.len() == i,
                forall|k: int| 0 <= k < i ==> (#[trigger] out@[k])@ == active[k].station(),
            decreases rows.len() - i,
        {
            assert(active[i as int] == rows@[i as int]@);
            let station = Station::from(&rows[i]);
            out.push(station);
            i = i + 1;
        }
        assert(views(out@) =~= stations_of(active));
        Ok(out)
    }

    /// Registers a station and returns its id. A station that brings a
    /// location along has the location inserted first and is then inserted
    /// pointing at it. No check is made beforehand: a taken token is refused
    /// by the store.
    ///
    /// Fails with `StorageError`: `Exhausted` when no id is left for the
    /// location or for the station, `Conflict` when the token is taken,
    /// `ForeignKey` when the station brings no location and names one that
    /// does not exist. The two inserts are not undone together: when the
    /// station is refused, the location that it brought along stays.
    pub fn put_station(&mut self, station: Station) -> (answer: Result<i32, RepositoryError>)
        requires
            old(self).wf(),
        ensures
            final(self).wf(),
            answer == old(self)@.register_result(station@),
            final(self)@ == old(self)@.after_register(station@),
    {
        let ghost before = self@;
        let ghost given = station@;
        let mut station = station;
        if let Some(location) = &station.location {
            proof {
                lemma_put_location_wf(before, location@);
            }
            match self.put_location(location) {
                Ok(id) => {
                    station.location_id = Some(id);
                },
                Err(e) => {
                    return Err(e);
                },
            }
        }
        assert(station@.record() == before.register_row(given));
        match self.query.put_station(station) {
            Ok(rec) => Ok(rec.id),
            Err(e) => Err(e),
        }
    }

    /// Writes the versions, the location and the last-online time of
    /// `station` to the row with the id `station.id`: see
    /// [`Query::update_station`].
    pub fn update_station(&mut self, station: &Station) -> (answer: Result<(), RepositoryError>)
        requires
            old(self).wf(),
        ensures
            final(self).wf(),
            answer == old(self)@.update_station_result(station@.record()),
            final(self)@ == old(self)@.after_update_station(station@.record()),
    {
        self.query.update_station(station)
    }

    /// Points the station registered under `token` at the location
    /// `location_id`: see [`Query::update_location_id`].
    pub fn update_location_id(&mut self, location_id: i32, token: String) -> (answer: Result<
        (),
        RepositoryError,
    >)
        requires
            old(self).wf(),
        ensures
            final(self).wf(),
            answer == old(self)@.update_location_id_result(location_id, token@),
            final(self)@ == old(self)@.after_update_location_id(location_id, token@),
    {
        self.query.update_location_id(location_id, token)
    }

    /// Looks a location up by its id. Fails with `NotFound` exactly when no
    /// location has the id.
    pub fn get_location(&self, location_id: i32) -> (answer: Result<Location, RepositoryError>)
        requires
            self.wf(),
        ensures
            match answer {
                Ok(location) => self@.has_location(location_id) && location@ == self@.location(
                    location_id,
                ),
                Err(e) => e == RepositoryError::NotFound && !self@.has_location(location_id),
            },
    {
        self.query.get_location(location_id)
    }

    /// Inserts a location and returns its id. Fails with
    /// `StorageError(Exhausted)` exactly when no id is left.
    pub fn put_location(&mut self, location: &Location) -> (answer: Result<i32, RepositoryError>)
        requires
            old(self).wf(),
        ensures
            final(self).wf(),
            answer == old(self)@.put_location_result(),
            final(self)@ == old(self)@.after_put_location(location@),
    {
        match self.query.put_location(location) {
            Ok(rec) => Ok(rec.id),
            Err(e) => Err(e),
        }
    }

    /// The readings of `station` taken from `start` to `end`, both ends
    /// included, in the order of insertion. Never fails: when no reading
    /// matches, the answer is empty.
    pub fn get_readings_between(&self, station: Station, start: i64, end: i64) -> (answer: Result<
        Vec<Reading>,
        RepositoryError,
    >)
        ensures
            answer matches Ok(rows) && rows@ == self@.readings_between(station.id, start, end),
    {
        self.query.get_readings_between(station.id, start, end)
    }

    /// The most recent reading of `station`. Fails with `NoData` exactly
    /// when the station has no reading.
    pub fn get_latest_reading(&self, station: Station) -> (answer: Result<Reading, RepositoryError>)
        requires
            self.wf(),
        ensures
            match answer {
                Ok(reading) => {
                    &&& self@.has_reading(station.id)
                    &&& self@.is_latest(station.id, reading)
                    &&& reading == self@.latest(station.id)
                },
                Err(e) => e == RepositoryError::NoData && !self@.has_reading(station.id),
            },
    {
        self.query.get_latest_reading(station.id)
    }

    /// The `count` most recent readings of `station`, the most recent
    /// first; all of them when the station has fewer. Fails with
    /// `StorageError(InvalidLimit)` exactly when `count` is negative.
    pub fn get_latest_readings(&self, station: Station, count: i64) -> (answer: Result<
        Vec<Reading>,
        RepositoryError,
    >)
        requires
            self.wf(),
        ensures
            match answer {
                Ok(rows) => {
                    &&& count >= 0
                    &&& self@.is_latest_run(station.id, count as int, rows@)
                    &&& rows@.len() == self@.latest_count(station.id, count as int)
                },
                Err(e) => e == RepositoryError::StorageError(StorageFault::InvalidLimit) && count
                    < 0,
            },
    {
        self.query.get_latest_readings(station.id, count)
    }

    /// The means of the metrics of `station` over the hour and over the 24
    /// hours before `now`. A window without readings has every mean 0.
    /// Never fails.
    pub fn get_average_reading(&self, station: Station, now: i64) -> (answer: Result<
        AverageReading,
        RepositoryError,
    >)
        ensures
            answer matches Ok(average) && average == self@.average_reading(station.id, now),
    {
        self.query.get_average_reading(station.id, now)
    }

    /// The readings of all stations taken within the `hours` hours before
    /// `now`, or later. Never fails.
    pub fn get_past_hour_readings(&self, hours: i64, now: i64) -> (answer: Result<
        Vec<Reading>,
        RepositoryError,
    >)
        ensures
            answer matches Ok(rows) && rows@ == self@.readings_since(
                window_start(now, hours, HOUR_MILLIS),
            ),
    {
        self.query.get_past_hour_readings(hours, now)
    }

    /// For each station its most recent reading, if that was taken within
    /// the `minutes` minutes before `now`, or later. Never fails.
    pub fn get_past_minutes_readings(&self, minutes: i64, now: i64) -> (answer: Result<
        Vec<Reading>,
        RepositoryError,
    >)
        requires
            self.wf(),
        ensures
            answer matches Ok(rows) && rows@ == self@.latest_per_station(
                window_start(now, minutes, MINUTE_MILLIS),
            ),
    {
        self.query.get_past_minutes_readings(minutes, now)
    }

    /// Inserts a reading and returns its id: see [`Query::put_reading`].
    pub fn put_reading(&mut self, reading: &Reading) -> (answer: Result<i32, RepositoryError>)
        requires
            old(self).wf(),
        ensures
            final(self).wf(),
            answer == old(self)@.put_reading_result(*reading),
            final(self)@ == old(self)@.after_put_reading(*reading),
    {
        match self.query.put_reading(reading) {
            Ok(rec) => Ok(rec.id),
            Err(e) => Err(e),
        }
    }
}

} // verus!
