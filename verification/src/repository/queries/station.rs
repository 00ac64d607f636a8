//! Statements on the table of stations.
use vstd::prelude::*;
use crate::clock::window_start;
use crate::clock::window_start_of;
use crate::clock::HOUR_MILLIS;
use crate::error::RepositoryError;
use crate::error::StorageFault;
use crate::models::station::Station;
use crate::models::station::StationView;
use crate::repository::query::Query;
use crate::repository::tables::lemma_filter_step;
use crate::repository::tables::lemma_ids_below_next;
use crate::repository::tables::lemma_put_station_wf;
use crate::repository::tables::lemma_station_at;
use crate::repository::tables::lemma_update_location_id_wf;
use crate::repository::tables::lemma_update_station_wf;
use crate::repository::tables::seen_since;
use crate::repository::tables::views;
use crate::repository::tables::Tables;

verus! {

/// One row of the table of stations.
#[derive(Debug, PartialEq, Eq)]
pub struct StationRecord {
    pub id: i32,
    pub uid: String,
    pub token: String,
    pub hw_version: i32,
    pub sw_version: i32,
    pub location_id: Option<i32>,
    pub last_online: i64,
}

/// The mathematical value of a [`StationRecord`].
pub struct StationRecordView {
    pub id: i32,
    pub uid: Seq<char>,
    pub token: Seq<char>,
    pub hw_version: i32,
    pub sw_version: i32,
    pub location_id: Option<i32>,
    pub last_online: i64,
}

impl View for StationRecord {
    type V = StationRecordView;

    open spec fn view(&self) -> StationRecordView {
        StationRecordView {
            id: self.id,
            uid: self.uid@,
            token: self.token@,
            hw_version: self.hw_version,
            sw_version: self.sw_version,
            location_id: self.location_id,
            last_online: self.last_online,
        }
    }
}

impl StationRecordView {
    /// The station that this row describes, without its location.
    pub open spec fn station(self) -> StationView {
        StationView {
            id: self.id,
            uid: self.uid,
            token: self.token,
            hw_version: self.hw_version,
            sw_version: self.sw_version,
            location_id: self.location_id,
            location: None,
            last_online: self.last_online,
        }
    }
}

impl Clone for StationRecord {
    fn clone(&self) -> (copy: Self)
        ensures
            copy == *self,
    {
        StationRecord {
            id: self.id,
            uid: self.uid.clone(),
            token: self.token.clone(),
            hw_version: self.hw_version,
            sw_version: self.sw_version,
            location_id: self.location_id,
            last_online: self.last_online,
        }
    }
}

/// The id that the store gave to a new station.
#[derive(Clone, Copy, Debug, PartialEq, Eq)]
pub struct PutStationRecord {
    pub id: i32,
}

/// The id inside the answer to an insert, or the error.
pub open spec fn station_id_of(answer: Result<PutStationRecord, RepositoryError>) -> Result<
    i32,
    RepositoryError,
> {
    match answer {
        Ok(rec) => Ok(rec.id),
        Err(e) => Err(e),
    }
}

impl Query {
    /// The index of the row with the token `token`, if there is one.
    pub(crate) fn find_station(&self, token: &String) -> (found: Option<usize>)
        ensures
            match found {
                Some(i) => i < self@.stations.len() && self@.stations[i as int].token == token@,
                None => !self@.has_station(token@),
            },
    {
        let rows = self.station_rows();
        let mut i: usize = 0;
        while i < rows.len()
            invariant
                views(rows@) == self@.stations,
                i <= rows.len(),
                forall|k: int| 0 <= k < i ==> (#[trigger] self@.stations[k]).token != token@,
            decreases rows.len() - i,
        {
            assert(self@.stations[i as int] == rows@[i as int]@);
            if rows[i].token == *token {
                return Some(i);
            }
            i = i + 1;
        }
        None
    }

    /// The index of the row with the id `id`, if there is one.
    pub(crate) fn find_station_by_id(&self, id: i32) -> (found: Option<usize>)
        ensures
            match found {
                Some(i) => i < self@.stations.len() && self@.stations[i as int].id == id,
                None => !self@.has_station_id(id),
            },
    {
        let rows = self.station_rows();
        let mut i: usize = 0;
        while i < rows.len()
            invariant
                views(rows@) == self@.stations,
                i <= rows.len(),
                forall|k: int| 0 <= k < i ==> (#[trigger] self@.stations[k]).id != id,
            decreases rows.len() - i,
        {
            assert(self@.stations[i as int] == rows@[i as int]@);
            if rows[i].id == id {
                return Some(i);
            }
            i = i + 1;
        }
        None
    }

    /// Looks a station up by its token. Fails with `NotFound` exactly when
    /// no station is registered under the token.
    pub fn get_station(&self, token: String) -> (answer: Result<StationRecord, RepositoryError>)
        requires
            self.wf(),
        ensures
            match answer {
                Ok(rec) => self@.has_station(token@) && rec@ == self@.station(token@),
                Err(e) => e == RepositoryError::NotFound && !self@.has_station(token@),
            },
    {
        match self.find_station(&token) {
            Some(i) => {
                proof {
                    lemma_station_at(self@, i as int);
                }
                let rows = self.station_rows();
                assert(self@.stations[i as int] == rows@[i as int]@);
                Ok(rows[i].clone())
            },
            None => Err(RepositoryError::NotFound),
        }
    }

    /// The stations that were last seen within the hour before `now`, the
    /// instant exactly one hour before `now` included. Never fails.
    pub fn get_active_stations(&self, now: i64) -> (answer: Result<
        Vec<StationRecord>,
        RepositoryError,
    >)
        ensures
            answer matches Ok(rows) && views(rows@) == self@.active_stations(
                window_start(now, 1, HOUR_MILLIS),
            ),
    {
        let cutoff: i128 = window_start_of(now, 1, HOUR_MILLIS);
        let rows = self.station_rows();
        let ghost test = seen_since(cutoff as int);
        let mut out: Vec<StationRecord> = Vec::new();
        let mut i: usize = 0;
        assert(self@.stations.take(0).filter(test) =~= Seq::empty()) by {
            broadcast use vstd::seq_lib::group_filter_ensures;
        }
        assert(views(out@) =~= Seq::empty());
        while i < rows.len()
            invariant
                views(rows@) == self@.stations,
                i <= rows.len(),
                test == seen_since(cutoff as int),
                views(out@) == self@.stations.take(i as int).filter(test),
            decreases rows.len() - i,
        {
            proof {
                lemma_filter_step(self@.stations, test, i as int);
            }
            assert(self@.stations[i as int] == rows@[i as int]@);
            if (rows[i].last_online as i128) >= cutoff {
                let ghost before = out@;
                let row = rows[i].clone();
                out.push(row);
                assert(views(out@) =~= views(before).push(row@));
            }
            i = i + 1;
        }
        assert(self@.stations.take(rows.len() as int) =~= self@.stations);
        Ok(out)
    }

    /// Inserts a station and returns the id that it was given. The station's
    /// own `id` and its embedded `location` are not stored.
    ///
    /// Fails with `StorageError`: `Exhausted` when no id is left, else
    /// `Conflict` when the token is taken, else `ForeignKey` when the
    /// station names a location that does not exist. A failed insert leaves
    /// the store as it was.
    pub fn put_station(&mut self, station: Station) -> (answer: Result<
        PutStationRecord,
        RepositoryError,
    >)
        requires
            old(self).wf(),
        ensures
            final(self).wf(),
            station_id_of(answer) == old(self)@.put_station_result(station@.record()),
            final(self)@ == old(self)@.after_put_station(station@.record()),
    {
        let ghost before = self@;
        let ghost row = station@.record();
        proof {
            lemma_ids_below_next(before);
            lemma_put_station_wf(before, row);
        }
        let rows = self.station_rows();
        let n: usize = rows.len();
        let id: i32 = if n == 0 {
            1
        } else {
            assert(before.stations[n - 1] == rows@[n - 1]@);
            let last: i32 = rows[n - 1].id;
            if last == i32::MAX {
                return Err(RepositoryError::StorageError(StorageFault::Exhausted));
            }
            last + 1
        };
        assert(id == before.next_station_id());
        if self.find_station(&station.token).is_some() {
            return Err(RepositoryError::StorageError(StorageFault::Conflict));
        }
        if let Some(location_id) = station.location_id {
            if self.find_location(location_id).is_none() {
                return Err(RepositoryError::StorageError(StorageFault::ForeignKey));
            }
        }
        let rec = StationRecord {
            id,
            uid: station.uid,
            token: station.token,
            hw_version: station.hw_version,
            sw_version: station.sw_version,
            location_id: station.location_id,
            last_online: station.last_online,
        };
        assert(rec@ == (StationRecordView { id, ..row }));
        self.insert_station_row(rec);
        Ok(PutStationRecord { id })
    }

    /// Writes the versions, the location and the last-online time of
    /// `station` to the row with the id `station.id`. The row keeps its
    /// `uid` and its token. Without such a row nothing is written, and that
    /// is no error.
    ///
    /// Fails with `StorageError(ForeignKey)` exactly when the row exists and
    /// `station` names a location that does not. A failed update leaves the
    /// store as it was.
    pub fn update_station(&mut self, station: &Station) -> (answer: Result<(), RepositoryError>)
        requires
            old(self).wf(),
        ensures
            final(self).wf(),
            answer == old(self)@.update_station_result(station@.record()),
            final(self)@ == old(self)@.after_update_station(station@.record()),
    {
        let ghost before = self@;
        let ghost row = station@.record();
        proof {
            lemma_update_station_wf(before, row);
        }
        match self.find_station_by_id(station.id) {
            None => {
                assert(before.after_update_station(row).stations =~= before.stations) by {
                    assert forall|k: int| 0 <= k < before.stations.len() implies (
                    #[trigger] before.stations[k]).id != station.id by {
                        assert(before.has_station_id(before.stations[k].id));
                    }
                }
                Ok(())
            },
            Some(i) => {
                assert(before.has_station_id(station.id));
                if let Some(location_id) = station.location_id {
                    if self.find_location(location_id).is_none() {
                        return Err(RepositoryError::StorageError(StorageFault::ForeignKey));
                    }
                }
                let rows = self.station_rows();
                assert(before.stations[i as int] == rows@[i as int]@);
                let rec = StationRecord {
                    id: rows[i].id,
                    uid: rows[i].uid.clone(),
                    token: rows[i].token.clone(),
                    hw_version: station.hw_version,
                    sw_version: station.sw_version,
                    location_id: station.location_id,
                    last_online: station.last_online,
                };
                assert(rec@ == Tables::overwrite(before.stations[i as int], row));
                self.replace_station_row(i, rec);
                assert(self@.stations =~= before.after_update_station(row).stations) by {
                    assert forall|k: int| 0 <= k < before.stations.len() && k != i implies (
                    #[trigger] before.stations[k]).id != station.id by {
                        if k < i {
                            assert(before.stations[k].id < before.stations[i as int].id);
                        } else {
                            assert(before.stations[i as int].id < before.stations[k].id);
                        }
                    }
                }
                Ok(())
            },
        }
    }

    /// Points the station registered under `token` at the location
    /// `location_id`. The station's row is written directly; the location it
    /// pointed to before stays in the table. Without such a station nothing
    /// is written, and that is no error.
    ///
    /// Fails with `StorageError(ForeignKey)` exactly when the station exists
    /// and the location does not. A failed update leaves the store as it
    /// was.
    pub fn update_location_id(&mut self, location_id: i32, token: String) -> (answer: Result<
        (),
        RepositoryError,
    >)
        requires
            old(self).wf(),
        ensures
            final(self).wf(),
            answer == old(self)@.update_location_id_result(location_id, token@),
            final(self)@ == old(self)@.after_update_location_id(location_id, token@),
    {
        let ghost before = self@;
        proof {
            lemma_update_location_id_wf(before, location_id, token@);
        }
        match self.find_station(&token) {
            None => {
                assert(before.after_update_location_id(location_id, token@).stations
                    =~= before.stations) by {
                    assert forall|k: int| 0 <= k < before.stations.len() implies (
                    #[trigger] before.stations[k]).token != token@ by {
                        assert(before.has_station(before.stations[k].token));
                    }
                }
                Ok(())
            },
            Some(i) => {
                assert(before.has_station(token@));
                if self.find_location(location_id).is_none() {
                    return Err(RepositoryError::StorageError(StorageFault::ForeignKey));
                }
                let rows = self.station_rows();
                assert(before.stations[i as int] == rows@[i as int]@);
                let rec = StationRecord {
                    id: rows[i].id,
                    uid: rows[i].uid.clone(),
                    token: rows[i].token.clone(),
                    hw_version: rows[i].hw_version,
                    sw_version: rows[i].sw_version,
                    location_id: Some(location_id),
                    last_online: rows[i].last_online,
                };
                assert(rec@ == (StationRecordView {
                    location_id: Some(location_id),
                    ..before.stations[i as int]
                }));
                self.replace_station_row(i, rec);
                assert(self@.stations =~= before.after_update_location_id(
                    location_id,
                    token@,
                ).stations) by {
                    assert forall|k: int| 0 <= k < before.stations.len() && k != i implies (
                    #[trigger] before.stations[k]).token != token@ by {
                        if k < i {
                            assert(before.stations[k].token != before.stations[i as int].token);
                        } else {
                            assert(before.stations[i as int].token != before.stations[k].token);
                        }
                    }
                }
                Ok(())
            },
        }
    }
}

} // verus!
