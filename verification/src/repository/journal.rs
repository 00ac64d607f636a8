//! What a durable copy of the repository has to be told after a write, and
//! how to go back to an earlier moment.
use vstd::prelude::*;
use crate::error::RepositoryError;
use crate::error::StorageFault;
use crate::models::location::Location;
use crate::models::location::LocationView;
use crate::models::reading::Reading;
use crate::repository::db::DBRepository;
use crate::repository::queries::station::StationRecord;
use crate::repository::queries::station::StationRecordView;
use crate::repository::tables::tables_of;
use crate::repository::tables::views;
use crate::repository::tables::Tables;

verus! {

/// The rows of a repository at one moment.
pub struct Mark {
    stations: Vec<StationRecord>,
    locations: Vec<Location>,
    readings: Vec<Reading>,
}

impl View for Mark {
    type V = Tables;

    closed spec fn view(&self) -> Tables {
        tables_of(self.stations@, self.locations@, self.readings@)
    }
}

/// The rows that a write made or may have changed: the rows appended to
/// each table, and the row of the station that the write was about.
pub struct Changes {
    pub locations: Vec<Location>,
    pub stations: Vec<StationRecord>,
    pub rewritten: Option<StationRecord>,
    pub readings: Vec<Reading>,
}

/// The mathematical value of [`Changes`].
pub struct ChangesView {
    pub locations: Seq<LocationView>,
    pub stations: Seq<StationRecordView>,
    pub rewritten: Option<StationRecordView>,
    pub readings: Seq<Reading>,
}

impl View for Changes {
    type V = ChangesView;

    open spec fn view(&self) -> ChangesView {
        ChangesView {
            locations: views(self.locations@),
            stations: views(self.stations@),
            rewritten: match self.rewritten {
                Some(row) => Some(row@),
                None => None,
            },
            readings: self.readings@,
        }
    }
}

/// The elements of `s` from place `n` on; none when `s` is shorter.
pub open spec fn rows_from<T>(s: Seq<T>, n: int) -> Seq<T> {
    if 0 <= n <= s.len() {
        s.skip(n)
    } else {
        Seq::empty()
    }
}

impl Tables {
    /// Whether `after` can have come from this store by writes about the
    /// station registered under `token`: rows were only appended, and of
    /// the rows that were there only the one of that station may differ, in
    /// its versions, its location and its last-online time.
    pub open spec fn written_to(self, after: Tables, token: Seq<char>) -> bool {
        &&& self.locations.len() <= after.locations.len()
        &&& forall|i: int|
            0 <= i < self.locations.len() ==> (#[trigger] after.locations[i]) == self.locations[i]
        &&& self.readings.len() <= after.readings.len()
        &&& forall|i: int|
            0 <= i < self.readings.len() ==> (#[trigger] after.readings[i]) == self.readings[i]
        &&& self.stations.len() <= after.stations.len()
        &&& forall|i: int|
            0 <= i < self.stations.len() ==> (#[trigger] after.stations[i]) == self.stations[i] || (
            after.stations[i].token == token && after.stations[i] == Tables::overwrite(
                self.stations[i],
                after.stations[i],
            ))
    }

    /// What a durable copy that holds this store has to be told to hold
    /// `after`.
    pub open spec fn changes_to(self, after: Tables, token: Seq<char>) -> ChangesView {
        ChangesView {
            locations: rows_from(after.locations, self.locations.len() as int),
            stations: rows_from(after.stations, self.stations.len() as int),
            rewritten: if after.has_station(token) {
                Some(after.station(token))
            } else {
                None
            },
            readings: rows_from(after.readings, self.readings.len() as int),
        }
    }

    /// The store that a durable copy holds after it has been told
    /// `changes`: the appended rows are inserted, and the versions, the
    /// location and the last-online time of the rewritten row are written
    /// to the row with its id.
    pub open spec fn replay(self, changes: ChangesView) -> Tables {
        Tables {
            locations: self.locations + changes.locations,
            stations: Seq::new(
                self.stations.len(),
                |i: int|
                    if changes.rewritten is Some && self.stations[i].id == changes.rewritten->0.id {
                        Tables::overwrite(self.stations[i], changes.rewritten->0)
                    } else {
                        self.stations[i]
                    },
            ) + changes.stations,
            readings: self.readings + changes.readings,
        }
    }
}

impl Mark {
    /// The rows of `db` as they are now.
    pub fn of(db: &DBRepository) -> (mark: Self)
        ensures
            mark@ == db@,
    {
        Mark { stations: db.stations(), locations: db.locations(), readings: db.readings() }
    }

    /// The repository as it was at this mark. Fails with
    /// `StorageError(Malformed)` exactly when the marked rows are not
    /// consistent, which a mark of a repository never is.
    pub fn rewind(self) -> (answer: Result<DBRepository, RepositoryError>)
        ensures
            match answer {
                Ok(db) => db.wf() && db@ == self@,
                Err(e) => e == RepositoryError::StorageError(StorageFault::Malformed)
                    && !self@.wf(),
            },
    {
        DBRepository::restore(self.stations, self.locations, self.readings)
    }
}

impl Mark {
    /// Decides what the repository holds once the durable copy has
    /// answered: `db` when the changes were stored, the rows of this mark
    /// when they were not. A mark whose rows are not consistent cannot be
    /// gone back to, and `db` is kept.
    pub fn settle(self, db: DBRepository, stored: bool) -> (kept: DBRepository)
        ensures
            kept@ == if stored || !self@.wf() {
                db@
            } else {
                self@
            },
            db.wf() ==> kept.wf(),
    {
        if stored {
            db
        } else {
            match self.rewind() {
                Ok(before) => before,
                Err(_) => db,
            }
        }
    }
}

impl Changes {
    /// What a durable copy that holds the rows of `mark` has to be told to
    /// hold the rows of `db`, after writes about the station registered
    /// under `token`.
    pub fn since(mark: &Mark, db: &DBRepository, token: &String) -> (changes: Self)
        requires
            db.wf(),
        ensures
            changes@ == mark@.changes_to(db@, token@),
    {
        let all_locations = db.locations();
        let mut locations: Vec<Location> = Vec::new();
        let mut i: usize = mark.locations.len();
        while i < all_locations.len()
            invariant
                mark.locations.len() <= i,
                i <= all_locations.len() || (i == mark.locations.len() && locations.len() == 0),
                views(all_locations@) == db@.locations,
                i <= all_locations.len() ==> views(locations@) == db@.locations.subrange(
                    mark.locations.len() as int,
                    i as int,
                ),
            decreases all_locations.len() - i,
        {
            let ghost before = locations@;
            let row = all_locations[i].clone();
            locations.push(row);
            assert(views(locations@) =~= views(before).push(row@));
            assert(db@.locations[i as int] == all_locations@[i as int]@);
            assert(views(locations@) =~= db@.locations.subrange(
                mark.locations.len() as int,
                i + 1,
            ));
            i = i + 1;
        }
        assert(views(locations@) =~= rows_from(db@.locations, mark.locations.len() as int));

        let all_stations = db.stations();
        let mut stations: Vec<StationRecord> = Vec::new();
        let mut j: usize = mark.stations.len();
        while j < all_stations.len()
            invariant
                mark.stations.len() <= j,
                j <= all_stations.len() || (j == mark.stations.len() && stations.len() == 0),
                views(all_stations@) == db@.stations,
                j <= all_stations.len() ==> views(stations@) == db@.stations.subrange(
                    mark.stations.len() as int,
                    j as int,
                ),
            decreases all_stations.len() - j,
        {
            let ghost before = stations@;
            let row = all_stations[j].clone();
            stations.push(row);
            assert(views(stations@) =~= views(before).push(row@));
            assert(db@.stations[j as int] == all_stations@[j as int]@);
            assert(views(stations@) =~= db@.stations.subrange(mark.stations.len() as int, j + 1));
            j = j + 1;
        }
        assert(views(stations@) =~= rows_from(db@.stations, mark.stations.len() as int));

        let all_readings = db.readings();
        let mut readings: Vec<Reading> = Vec::new();
        let mut k: usize = mark.readings.len();
        while k < all_readings.len()
            invariant
                mark.readings.len() <= k,
                k <= all_readings.len() || (k == mark.readings.len() && readings.len() == 0),
                all_readings@ == db@.readings,
                k <= all_readings.len() ==> readings@ == db@.readings.subrange(
                    mark.readings.len() as int,
                    k as int,
                ),
            decreases all_readings.len() - k,
        {
            readings.push(all_readings[k]);
            assert(readings@ =~= db@.readings.subrange(mark.readings.len() as int, k + 1));
            k = k + 1;
        }
        assert(readings@ =~= rows_from(db@.readings, mark.readings.len() as int));

        let rewritten = match db.get_station(token.clone(), false) {
            Ok(station) => Some(
                StationRecord {
                    id: station.id,
                    uid: station.uid,
                    token: station.token,
                    hw_version: station.hw_version,
                    sw_version: station.sw_version,
                    location_id: station.location_id,
                    last_online: station.last_online,
                },
            ),
            Err(_) => None,
        };
        let changes = Changes { locations, stations, rewritten, readings };
        assert(changes@.locations == mark@.changes_to(db@, token@).locations);
        assert(changes@.stations == mark@.changes_to(db@, token@).stations);
        assert(changes@.readings == mark@.changes_to(db@, token@).readings);
        changes
    }
}

} // verus!
