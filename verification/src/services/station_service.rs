//! Use cases about stations: registration, lookup, update and re-linking.
use vstd::prelude::*;
use crate::api::station::AddLocationRequest;
use crate::api::station::UpdateStationRequest;
use crate::clock::now_millis;
use crate::clock::window_start;
use crate::clock::HOUR_MILLIS;
use crate::error::RepositoryError;
use crate::guarantees::lemma_attach_rewrites_one;
use crate::guarantees::lemma_modify_rewrites_one;
use crate::guarantees::lemma_register_appends;
use crate::models::location::Location;
use crate::models::station::Station;
use crate::repository::db::DBRepository;
use crate::repository::tables::lemma_rewrite_accepted;
use crate::repository::tables::stations_of;
use crate::repository::tables::views;
use crate::repository::tables::Tables;

verus! {

/// The use cases about stations. Stations are always named by their token.
pub struct StationService {
    db: DBRepository,
}

impl View for StationService {
    type V = Tables;

    closed spec fn view(&self) -> Tables {
        self.db@
    }
}

impl StationService {
    /// Whether the repository behind the service is consistent.
    pub open spec fn wf(&self) -> bool {
        self@.wf()
    }

    /// A service on the repository `db`.
    pub fn new(db: DBRepository) -> (service: Self)
        ensures
            service@ == db@,
    {
        StationService { db }
    }

    /// The repository behind the service.
    pub fn repository(&self) -> (db: &DBRepository)
        ensures
            db@ == self@,
    {
        &self.db
    }

    /// Gives the repository back.
    pub fn into_repository(self) -> (db: DBRepository)
        ensures
            db@ == self@,
    {
        self.db
    }

    /// The station registered under `token`, with its location embedded if
    /// it has one. Fails with `NotFound` exactly when no station is
    /// registered under the token.
    pub fn get_station(&self, token: String) -> (answer: Result<Station, RepositoryError>)
        requires
            self.wf(),
        ensures
            match answer {
                Ok(station) => self@.has_station(token@) && station@ == self@.lookup(token@, true),
                Err(e) => e == RepositoryError::NotFound && !self@.has_station(token@),
            },
    {
        self.db.get_station(token, true)
    }

    /// The stations that were last seen within the hour before `now`, the
    /// instant exactly one hour before `now` included. Their locations are
    /// not embedded. Never fails.
    pub fn get_active_stations_at(&self, now: i64) -> (answer: Result<
        Vec<Station>,
        RepositoryError,
    >)
        ensures
            answer matches Ok(stations) && views(stations@) == stations_of(
                self@.active_stations(window_start(now, 1, HOUR_MILLIS)),
            ),
    {
        self.db.get_active_stations(now)
    }

    /// [`StationService::get_active_stations_at`] at the time of the call.
    pub fn get_active_stations(&self) -> (answer: Result<Vec<Station>, RepositoryError>)
        ensures
            answer matches Ok(stations) && exists|now: i64|
                views(stations@) == stations_of(
                    self@.active_stations(#[trigger] window_start(now, 1, HOUR_MILLIS)),
                ),
    {
        let now: i64 = now_millis();
        self.get_active_stations_at(now)
    }

    /// Registers a station and returns its id: see
    /// [`DBRepository::put_station`].
    pub fn put_station(&mut self, station: Station) -> (answer: Result<i32, RepositoryError>)
        requires
            old(self).wf(),
        ensures
            final(self).wf(),
            answer == old(self)@.register_result(station@),
            final(self)@ == old(self)@.after_register(station@),
            old(self)@.written_to(final(self)@, station.token@),
    {
        proof {
            lemma_register_appends(self@, station@);
        }
        self.db.put_station(station)
    }

    /// Applies a partial update to the station registered under `token`:
    /// each field that the request names is written, every other field
    /// stays. Fails with `NotFound` exactly when no station is registered
    /// under the token; nothing is written then.
    pub fn update_station(&mut self, token: String, request: UpdateStationRequest) -> (answer:
        Result<(), RepositoryError>)
        requires
            old(self).wf(),
        ensures
            final(self).wf(),
            answer == old(self)@.modify_result(token@),
            final(self)@ == old(self)@.after_modify(token@, request),
            old(self)@.written_to(final(self)@, token@),
    {
        let ghost before = self@;
        let ghost key = token@;
        proof {
            lemma_modify_rewrites_one(before, key, request);
        }
        let mut station = match self.db.get_station(token, false) {
            Ok(station) => station,
            Err(e) => {
                return Err(e);
            },
        };
        station.apply_update(request);
        proof {
            lemma_rewrite_accepted(before, key, station@.record());
        }
        self.db.update_station(&station)
    }

    /// Attaches a new location to the station that the request names: the
    /// location is inserted, and the station's row is pointed at it without
    /// being read first. The location that the station pointed to before
    /// stays in the table and can still be fetched by its id. When no
    /// station is registered under the request's token, the location is
    /// inserted all the same and no station changes.
    ///
    /// Fails with `StorageError(Exhausted)` exactly when no location id is
    /// left; nothing is written then.
    pub fn update_location(&mut self, request: AddLocationRequest) -> (answer: Result<
        (),
        RepositoryError,
    >)
        requires
            old(self).wf(),
        ensures
            final(self).wf(),
            answer == old(self)@.attach_result(),
            final(self)@ == old(self)@.after_attach(Location::of_request(request)@),
            old(self)@.written_to(final(self)@, request.station_token@),
    {
        let ghost before = self@;
        proof {
            lemma_attach_rewrites_one(before, Location::of_request(request)@);
        }
        let location = Location::from(request);
        let location_id: i32 = match self.db.put_location(&location) {
            Ok(id) => id,
            Err(e) => {
                return Err(e);
            },
        };
        proof {
            let n = before.locations.len() as int;
            assert(self@.locations[n].id == location_id);
            assert(self@.has_location(location_id));
        }
        self.db.update_location_id(location_id, location.station_token)
    }
}

} // verus!
