//! Use cases about readings: ingestion and the queries by station token.
use vstd::prelude::*;
use crate::api::reading::AddReadingRequest;
use crate::clock::now_millis;
use crate::clock::window_start;
use crate::clock::HOUR_MILLIS;
use crate::clock::MINUTE_MILLIS;
use crate::error::RepositoryError;
use crate::error::StorageFault;
use crate::guarantees::lemma_ingest_rewrites_one;
use crate::models::reading::AverageReading;
use crate::models::reading::Reading;
use crate::repository::db::DBRepository;
use crate::repository::tables::lemma_rewrite_accepted;
use crate::repository::tables::lemma_update_keeps_readings;
use crate::repository::tables::Tables;

verus! {

/// How far back "what every station reports right now" looks, in minutes.
pub const RECENT_MINUTES: i64 = 5;

/// The use cases about readings. Stations are always named by their token.
pub struct ReadingService {
    db: DBRepository,
}

impl View for ReadingService {
    type V = Tables;

    closed spec fn view(&self) -> Tables {
        self.db@
    }
}

impl ReadingService {
    /// Whether the repository behind the service is consistent.
    pub open spec fn wf(&self) -> bool {
        self@.wf()
    }

    /// A service on the repository `db`.
    pub fn new(db: DBRepository) -> (service: Self)
        ensures
            service@ == db@,
    {
        ReadingService { db }
    }

    /// The repository behind the service.
    pub fn repository(&self) -> (db: &DBRepository)
        ensures
            db@ == self@,
    {
        &self.db
    }

    /// Gives the repository back.
    pub fn into_repository(self) -> (db: DBRepository)
        ensures
            db@ == self@,
    {
        self.db
    }

    /// The readings of the station registered under `token` taken from
    /// `start` to `end`, both ends included. When none matches the answer is
    /// empty. Fails with `NotFound` exactly when no station is registered
    /// under the token.
    pub fn get_readings_between(&self, token: String, start: i64, end: i64) -> (answer: Result<
        Vec<Reading>,
        RepositoryError,
    >)
        requires
            self.wf(),
        ensures
            match answer {
                Ok(rows) => self@.has_station(token@) && rows@ == self@.readings_between(
                    self@.station(token@).id,
                    start,
                    end,
                ),
                Err(e) => e == RepositoryError::NotFound && !self@.has_station(token@),
            },
    {
        match self.db.get_station(token, false) {
            Ok(station) => self.db.get_readings_between(station, start, end),
            Err(e) => Err(e),
        }
    }

    /// The most recent reading of the station registered under `token`.
    /// Fails with `NotFound` exactly when no station is registered under the
    /// token, and with `NoData` exactly when the station has no reading.
    pub fn get_latest_reading(&self, token: String) -> (answer: Result<Reading, RepositoryError>)
        requires
            self.wf(),
        ensures
            answer.ok() == self@.last_reading(token@),
            match answer {
                Ok(reading) => self@.is_latest(self@.station(token@).id, reading),
                Err(e) => if self@.has_station(token@) {
                    e == RepositoryError::NoData
                } else {
                    e == RepositoryError::NotFound
                },
            },
    {
        match self.db.get_station(token, false) {
            Ok(station) => self.db.get_latest_reading(station),
            Err(e) => Err(e),
        }
    }

    /// The `count` most recent readings of the station registered under
    /// `token`, the most recent first; all of them when the station has
    /// fewer. Fails with `NotFound` exactly when no station is registered
    /// under the token, else with `StorageError(InvalidLimit)` exactly when
    /// `count` is negative.
    pub fn get_latest_readings(&self, token: String, count: i64) -> (answer: Result<
        Vec<Reading>,
        RepositoryError,
    >)
        requires
            self.wf(),
        ensures
            match answer {
                Ok(rows) => {
                    &&& self@.has_station(token@)
                    &&& count >= 0
                    &&& self@.is_latest_run(self@.station(token@).id, count as int, rows@)
                    &&& rows@.len() == self@.latest_count(self@.station(token@).id, count as int)
                },
                Err(e) => if self@.has_station(token@) {
                    e == RepositoryError::StorageError(StorageFault::InvalidLimit) && count < 0
                } else {
                    e == RepositoryError::NotFound
                },
            },
    {
        match self.db.get_station(token, false) {
            Ok(station) => self.db.get_latest_readings(station, count),
            Err(e) => Err(e),
        }
    }

    /// The means of the metrics of the station registered under `token` over
    /// the hour and over the 24 hours before `now`. A window without
    /// readings has every mean 0. Fails with `NotFound` exactly when no
    /// station is registered under the token.
    pub fn get_average_reading_at(&self, token: String, now: i64) -> (answer: Result<
        AverageReading,
        RepositoryError,
    >)
        requires
            self.wf(),
        ensures
            match answer {
                Ok(average) => self@.has_station(token@) && average == self@.average_reading(
                    self@.station(token@).id,
                    now,
                ),
                Err(e) => e == RepositoryError::NotFound && !self@.has_station(token@),
            },
    {
        match self.db.get_station(token, false) {
            Ok(station) => self.db.get_average_reading(station, now),
            Err(e) => Err(e),
        }
    }

    /// [`ReadingService::get_average_reading_at`] at the time of the call.
    pub fn get_average_reading(&self, token: String) -> (answer: Result<
        AverageReading,
        RepositoryError,
    >)
        requires
            self.wf(),
        ensures
            match answer {
                Ok(average) => self@.has_station(token@) && exists|now: i64|
                    average == #[trigger] self@.average_reading(self@.station(token@).id, now),
                Err(e) => e == RepositoryError::NotFound && !self@.has_station(token@),
            },
    {
        let now: i64 = now_millis();
        self.get_average_reading_at(token, now)
    }

    /// The readings of all stations taken within the hour before `now`, or
    /// later. Never fails.
    pub fn get_past_hour_readings_at(&self, now: i64) -> (answer: Result<
        Vec<Reading>,
        RepositoryError,
    >)
        ensures
            answer matches Ok(rows) && rows@ == self@.readings_since(
                window_start(now, 1, HOUR_MILLIS),
            ),
    {
        self.db.get_past_hour_readings(1, now)
    }

    /// [`ReadingService::get_past_hour_readings_at`] at the time of the
    /// call.
    pub fn get_past_hour_readings(&self) -> (answer: Result<Vec<Reading>, RepositoryError>)
        ensures
            answer matches Ok(rows) && exists|now: i64|
                rows@ == self@.readings_since(#[trigger] window_start(now, 1, HOUR_MILLIS)),
    {
        let now: i64 = now_millis();
        self.get_past_hour_readings_at(now)
    }

    /// What every station reports right now: for each station its most
    /// recent reading, if that was taken within the five minutes before
    /// `now`, or later. Never fails.
    pub fn get_past_minute_readings_at(&self, now: i64) -> (answer: Result<
        Vec<Reading>,
        RepositoryError,
    >)
        requires
            self.wf(),
        ensures
            answer matches Ok(rows) && rows@ == self@.latest_per_station(
                window_start(now, RECENT_MINUTES, MINUTE_MILLIS),
            ),
    {
        self.db.get_past_minutes_readings(RECENT_MINUTES, now)
    }

    /// [`ReadingService::get_past_minute_readings_at`] at the time of the
    /// call.
    pub fn get_past_minute_readings(&self) -> (answer: Result<Vec<Reading>, RepositoryError>)
        requires
            self.wf(),
        ensures
            answer matches Ok(rows) && exists|now: i64|
                rows@ == self@.latest_per_station(
                    #[trigger] window_start(now, RECENT_MINUTES, MINUTE_MILLIS),
                ),
    {
        let now: i64 = now_millis();
        self.get_past_minute_readings_at(now)
    }

    /// Ingests a reading at the instant `now` and returns its id.
    ///
    /// The station that the request names is looked up; it is marked as seen
    /// at `now`, whatever time the reading itself carries; the reading is
    /// stored for that station, tagged with the station's location, with the
    /// request's time, or `now` when the request carries none.
    ///
    /// Fails with `NotFound` exactly when the request names no registered
    /// station: nothing is written then, and no station is registered on
    /// the way. Else fails with `StorageError(Exhausted)` exactly when no
    /// reading id is left: the station then stays marked as seen, for the
    /// two writes are not undone together.
    pub fn put_reading_at(&mut self, request: AddReadingRequest, now: i64) -> (answer: Result<
        i32,
        RepositoryError,
    >)
        requires
            old(self).wf(),
        ensures
            final(self).wf(),
            answer == old(self)@.ingest_result(request, now),
            final(self)@ == old(self)@.after_ingest(request, now),
            old(self)@.written_to(final(self)@, request.station_token@),
    {
        let ghost before = self@;
        proof {
            lemma_ingest_rewrites_one(before, request, now);
        }
        let ghost token = request.station_token@;
        let mut station = match self.db.get_station(request.station_token.clone(), false) {
            Ok(station) => station,
            Err(e) => {
                return Err(e);
            },
        };
        station.last_online = now;
        let mut reading = Reading::from_request(&request, now);
        reading.station_id = station.id;
        reading.location_id = station.location_id;
        proof {
            lemma_rewrite_accepted(before, token, station@.record());
            lemma_update_keeps_readings(before, station@.record(), reading);
        }
        match self.db.update_station(&station) {
            Ok(_) => {},
            Err(e) => {
                return Err(e);
            },
        }
        self.db.put_reading(&reading)
    }

    /// [`ReadingService::put_reading_at`] at the time of the call.
    pub fn put_reading(&mut self, request: AddReadingRequest) -> (answer: Result<
        i32,
        RepositoryError,
    >)
        requires
            old(self).wf(),
        ensures
            final(self).wf(),
            exists|now: i64|
                answer == old(self)@.ingest_result(request, now) && final(self)@ == #[trigger] old(
                    self,
                )@.after_ingest(request, now),
            old(self)@.written_to(final(self)@, request.station_token@),
    {
        let now: i64 = now_millis();
        self.put_reading_at(request, now)
    }
}

} // verus!
