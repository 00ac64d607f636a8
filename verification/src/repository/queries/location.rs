//! Statements on the table of locations.
use vstd::prelude::*;
use crate::error::RepositoryError;
use crate::error::StorageFault;
use crate::models::location::Location;
use crate::repository::query::Query;
use crate::repository::tables::lemma_ids_below_next;
use crate::repository::tables::lemma_location_at;
use crate::repository::tables::lemma_put_location_wf;
use crate::repository::tables::views;

verus! {

/// The id that the store gave to a new location.
#[derive(Clone, Copy, Debug, PartialEq, Eq)]
pub struct PutLocationRecord {
    pub id: i32,
}

/// The id inside the answer to an insert, or the error.
pub open spec fn location_id_of(answer: Result<PutLocationRecord, RepositoryError>) -> Result<
    i32,
    RepositoryError,
> {
    match answer {
        Ok(rec) => Ok(rec.id),
        Err(e) => Err(e),
    }
}

impl Query {
    /// The index of the row with the id `id`, if there is one.
    pub(crate) fn find_location(&self, id: i32) -> (found: Option<usize>)
        ensures
            match found {
                Some(i) => i < self@.locations.len() && self@.locations[i as int].id == id,
                None => !self@.has_location(id),
            },
    {
        let rows = self.location_rows();
        let mut i: usize = 0;
        while i < rows.len()
            invariant
                views(rows@) == self@.locations,
                i <= rows.len(),
                forall|k: int| 0 <= k < i ==> (#[trigger] self@.locations[k]).id != id,
            decreases rows.len() - i,
        {
            assert(self@.locations[i as int] == rows@[i as int]@);
            if rows[i].id == id {
                return Some(i);
            }
            i = i + 1;
        }
        None
    }

    /// Looks a location up by its id. Fails with `NotFound` exactly when no
    /// location has the id.
    pub fn get_location(&self, location_id: i32) -> (answer: Result<Location, RepositoryError>)
        requires
            self.wf(),
        ensures
            match answer {
                Ok(location) => self@.has_location(location_id) && location@ == self@.location(
                    location_id,
                ),
                Err(e) => e == RepositoryError::NotFound && !self@.has_location(location_id),
            },
    {
        match self.find_location(location_id) {
            Some(i) => {
                proof {
                    lemma_location_at(self@, i as int);
                }
                let rows = self.location_rows();
                assert(self@.locations[i as int] == rows@[i as int]@);
                Ok(rows[i].clone())
            },
            None => Err(RepositoryError::NotFound),
        }
    }

    /// Inserts a location and returns the id that it was given. The
    /// location's own `id` is not stored.
    ///
    /// Fails with `StorageError(Exhausted)` exactly when no id is left; the
    /// store is then as it was.
    pub fn put_location(&mut self, location: &Location) -> (answer: Result<
        PutLocationRecord,
        RepositoryError,
    >)
        requires
            old(self).wf(),
        ensures
            final(self).wf(),
            location_id_of(answer) == old(self)@.put_location_result(),
            final(self)@ == old(self)@.after_put_location(location@),
    {
        let ghost before = self@;
        proof {
            lemma_ids_below_next(before);
            lemma_put_location_wf(before, location@);
        }
        let rows = self.location_rows();
        let n: usize = rows.len();
        let id: i32 = if n == 0 {
            1
        } else {
            assert(before.locations[n - 1] == rows@[n - 1]@);
            let last: i32 = rows[n - 1].id;
            if last == i32::MAX {
                return Err(RepositoryError::StorageError(StorageFault::Exhausted));
            }
            last + 1
        };
        assert(id == before.next_location_id());
        let row = Location {
            id,
            station_token: location.station_token.clone(),
            latitude: location.latitude,
            longitude: location.longitude,
            country: location.country.clone(),
            province: location.province.clone(),
            city: location.city.clone(),
            street: location.street.clone(),
            number: location.number.clone(),
        };
        assert(row@ == location@.with_id(id));
        self.insert_location_row(row);
        Ok(PutLocationRecord { id })
    }
}

} // verus!
