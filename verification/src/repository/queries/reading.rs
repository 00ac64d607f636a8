//! Statements on the table of readings.
use vstd::prelude::*;
use crate::clock::window_start;
use crate::clock::window_start_of;
use crate::clock::HOUR_MILLIS;
use crate::clock::MINUTE_MILLIS;
use crate::error::RepositoryError;
use crate::error::StorageFault;
use crate::guarantees::lemma_latest_run_len;
use crate::models::reading::AverageReading;
use crate::models::reading::Reading;
use crate::repository::query::Query;
use crate::repository::tables::lemma_filter_step;
use crate::repository::tables::lemma_ids_below_next;
use crate::repository::tables::lemma_latest_unique;
use crate::repository::tables::lemma_put_reading_wf;
use crate::repository::tables::newer;
use crate::repository::tables::window;

verus! {

/// The id that the store gave to a new reading.
#[derive(Clone, Copy, Debug, PartialEq, Eq)]
pub struct PutReadingRequest {
    pub id: i32,
}

/// The id inside the answer to an insert, or the error.
pub open spec fn reading_id_of(answer: Result<PutReadingRequest, RepositoryError>) -> Result<
    i32,
    RepositoryError,
> {
    match answer {
        Ok(rec) => Ok(rec.id),
        Err(e) => Err(e),
    }
}

/// Whether `r` is a reading of station `station_id` that is older than
/// `bound`, where there is a bound.
pub open spec fn eligible(r: Reading, station_id: i32, bound: Option<Reading>) -> bool {
    &&& r.station_id == station_id
    &&& bound matches Some(b) ==> newer(b, r)
}

/// Whether `a` is more recent than `b`: see [`newer`].
pub fn is_newer(a: &Reading, b: &Reading) -> (answer: bool)
    ensures
        answer == newer(*a, *b),
{
    a.date > b.date || (a.date == b.date && a.id > b.id)
}

impl Query {
    /// The readings of `station` (of every station when `None`) taken from
    /// `start` to `end`, in the order of insertion.
    pub(crate) fn select_rows(&self, station: Option<i32>, start: i128, end: i128) -> (out: Vec<
        Reading,
    >)
        ensures
            out@ == self@.select(station, start as int, end as int),
    {
        let rows = self.reading_rows();
        let ghost test = window(station, start as int, end as int);
        let mut out: Vec<Reading> = Vec::new();
        let mut i: usize = 0;
        assert(rows@.take(0).filter(test) =~= Seq::empty()) by {
            broadcast use vstd::seq_lib::group_filter_ensures;
        }
        while i < rows.len()
            invariant
                rows@ == self@.readings,
                i <= rows.len(),
                test == window(station, start as int, end as int),
                out@ == rows@.take(i as int).filter(test),
            decreases rows.len() - i,
        {
            proof {
                lemma_filter_step(rows@, test, i as int);
            }
            let row: Reading = rows[i];
            let of_station: bool = match station {
                Some(id) => row.station_id == id,
                None => true,
            };
            if of_station && start <= (row.date as i128) && (row.date as i128) <= end {
                out.push(row);
            }
            i = i + 1;
        }
        assert(rows@.take(rows.len() as int) =~= rows@);
        out
    }

    /// The most recent of the readings of station `station_id` that are
    /// older than `bound`; of all its readings when there is no bound.
    pub(crate) fn newest_below(&self, station_id: i32, bound: Option<Reading>) -> (best: Option<
        Reading,
    >)
        requires
            self.wf(),
        ensures
            match best {
                Some(b) => {
                    &&& self@.readings.contains(b)
                    &&& eligible(b, station_id, bound)
                    &&& forall|k: int|
                        0 <= k < self@.readings.len() && eligible(
                            #[trigger] self@.readings[k],
                            station_id,
                            bound,
                        ) && self@.readings[k] != b ==> newer(b, self@.readings[k])
                },
                None => forall|k: int|
                    0 <= k < self@.readings.len() ==> !eligible(
                        #[trigger] self@.readings[k],
                        station_id,
                        bound,
                    ),
            },
    {
        let rows = self.reading_rows();
        let mut best: Option<Reading> = None;
        let ghost mut at: int = 0;
        let mut i: usize = 0;
        while i < rows.len()
            invariant
                self.wf(),
                rows@ == self@.readings,
                i <= rows.len(),
                match best {
                    Some(b) => {
                        &&& 0 <= at < i
                        &&& rows@[at] == b
                        &&& eligible(b, station_id, bound)
                        &&& forall|k: int|
                            0 <= k < i && eligible(#[trigger] rows@[k], station_id, bound) && rows@[k]
                                != b ==> newer(b, rows@[k])
                    },
                    None => forall|k: int|
                        0 <= k < i ==> !eligible(#[trigger] rows@[k], station_id, bound),
                },
            decreases rows.len() - i,
        {
            let row: Reading = rows[i];
            let below: bool = match bound {
                Some(b) => is_newer(&b, &row),
                None => true,
            };
            if row.station_id == station_id && below {
                match best {
                    Some(b) => {
                        assert(rows@[at].id < rows@[i as int].id);
                        if is_newer(&row, &b) {
                            best = Some(row);
                            proof {
                                at = i as int;
                            }
                        }
                    },
                    None => {
                        best = Some(row);
                        proof {
                            at = i as int;
                        }
                    },
                }
            }
            i = i + 1;
        }
        best
    }

    /// Whether row `i` is the most recent reading of its station.
    pub(crate) fn is_latest_row(&self, i: usize) -> (answer: bool)
        requires
            self.wf(),
            i < self@.readings.len(),
        ensures
            answer == self@.is_latest(self@.readings[i as int].station_id, self@.readings[i as int]),
    {
        let rows = self.reading_rows();
        let row: Reading = rows[i];
        let mut j: usize = 0;
        while j < rows.len()
            invariant
                self.wf(),
                rows@ == self@.readings,
                i < rows.len(),
                row == rows@[i as int],
                j <= rows.len(),
                forall|k: int|
                    0 <= k < j && (#[trigger] rows@[k]).station_id == row.station_id && rows@[k] != row
                        ==> newer(row, rows@[k]),
            decreases rows.len() - j,
        {
            let other: Reading = rows[j];
            if j != i && other.station_id == row.station_id && !is_newer(&row, &other) {
                proof {
                    if j < i {
                        assert(rows@[j as int].id < rows@[i as int].id);
                    } else {
                        assert(rows@[i as int].id < rows@[j as int].id);
                    }
                }
                return false;
            }
            j = j + 1;
        }
        true
    }

    /// The readings of station `station_id` taken from `start` to `end`,
    /// both ends included, in the order of insertion. Never fails: when no
    /// reading matches, the answer is empty.
    pub fn get_readings_between(&self, station_id: i32, start: i64, end: i64) -> (answer: Result<
        Vec<Reading>,
        RepositoryError,
    >)
        ensures
            answer matches Ok(rows) && rows@ == self@.readings_between(station_id, start, end),
    {
        Ok(self.select_rows(Some(station_id), start as i128, end as i128))
    }

    /// The most recent reading of station `station_id`. Fails with `NoData`
    /// exactly when the station has no reading.
    pub fn get_latest_reading(&self, station_id: i32) -> (answer: Result<Reading, RepositoryError>)
        requires
            self.wf(),
        ensures
            match answer {
                Ok(reading) => {
                    &&& self@.has_reading(station_id)
                    &&& self@.is_latest(station_id, reading)
                    &&& reading == self@.latest(station_id)
                },
                Err(e) => e == RepositoryError::NoData && !self@.has_reading(station_id),
            },
    {
        match self.newest_below(station_id, None) {
            Some(reading) => {
                proof {
                    lemma_latest_unique(self@, station_id, reading, reading);
                }
                Ok(reading)
            },
            None => Err(RepositoryError::NoData),
        }
    }

    /// The `count` most recent readings of station `station_id`, the most
    /// recent first; all of them when the station has fewer. Fails with
    /// `StorageError(InvalidLimit)` exactly when `count` is negative.
    pub fn get_latest_readings(&self, station_id: i32, count: i64) -> (answer: Result<
        Vec<Reading>,
        RepositoryError,
    >)
        requires
            self.wf(),
        ensures
            match answer {
                Ok(rows) => {
                    &&& count >= 0
                    &&& self@.is_latest_run(station_id, count as int, rows@)
                    &&& rows@.len() == self@.latest_count(station_id, count as int)
                },
                Err(e) => e == RepositoryError::StorageError(StorageFault::InvalidLimit) && count
                    < 0,
            },
    {
        if count < 0 {
            return Err(RepositoryError::StorageError(StorageFault::InvalidLimit));
        }
        let ghost all = self@.readings;
        let mut out: Vec<Reading> = Vec::new();
        let mut complete: bool = false;
        while !complete && (out.len() as i128) < (count as i128)
            invariant
                self.wf(),
                all == self@.readings,
                count >= 0,
                out.len() <= count,
                forall|i: int|
                    0 <= i < out.len() ==> all.contains(#[trigger] out@[i]) && out@[i].station_id
                        == station_id,
                forall|i: int, j: int|
                    0 <= i < j < out.len() ==> newer(#[trigger] out@[i], #[trigger] out@[j]),
                forall|k: int|
                    0 <= k < all.len() && (#[trigger] all[k]).station_id == station_id
                        && !out@.contains(all[k]) && out.len() > 0 ==> newer(out@.last(), all[k]),
                complete ==> forall|k: int|
                    0 <= k < all.len() && (#[trigger] all[k]).station_id == station_id
                        ==> out@.contains(all[k]),
            decreases (if complete { 0 } else { 1 + count - out.len() }),
        {
            let n: usize = out.len();
            let bound: Option<Reading> = if n == 0 {
                None
            } else {
                Some(out[n - 1])
            };
            let ghost before = out@;
            match self.newest_below(station_id, bound) {
                Some(next) => {
                    out.push(next);
                    proof {
                        assert forall|x: Reading| before.contains(x) implies out@.contains(x) by {
                            let i = choose|i: int| 0 <= i < before.len() && before[i] == x;
                            assert(out@[i] == x);
                        }
                        assert(out@[n as int] == next);
                        assert(out@.contains(next));
                        assert forall|i: int, j: int| 0 <= i < j < out.len() implies newer(
                            #[trigger] out@[i],
                            #[trigger] out@[j],
                        ) by {
                            if j == n {
                                assert(out@[i] == before[i]);
                                if i < n - 1 {
                                    assert(newer(before[i], before[n - 1]));
                                }
                            } else {
                                assert(newer(before[i], before[j]));
                            }
                        }
                        assert forall|k: int|
                            0 <= k < all.len() && (#[trigger] all[k]).station_id == station_id
                                && !out@.contains(all[k]) implies newer(out@.last(), all[k]) by {
                            assert(!before.contains(all[k]));
                            assert(eligible(all[k], station_id, bound));
                        }
                    }
                },
                None => {
                    complete = true;
                    proof {
                        assert forall|k: int|
                            0 <= k < all.len() && (#[trigger] all[k]).station_id
                                == station_id implies out@.contains(all[k]) by {
                            assert(!eligible(all[k], station_id, bound));
                        }
                    }
                },
            }
        }
        proof {
            assert forall|k: int, i: int|
                0 <= k < all.len() && (#[trigger] all[k]).station_id == station_id && !out@.contains(
                    all[k],
                ) && 0 <= i < out.len() implies newer(#[trigger] out@[i], all[k]) by {
                if i < out.len() - 1 {
                    assert(newer(out@[i], out@[out.len() - 1]));
                }
            }
            assert(self@.is_latest_run(station_id, count as int, out@));
            lemma_latest_run_len(self@, station_id, count as int, out@);
        }
        Ok(out)
    }

    /// The means of the metrics of station `station_id` over the hour and
    /// over the 24 hours before `now`, each window taken on its own. A
    /// window without readings has every mean 0. Never fails.
    pub fn get_average_reading(&self, station_id: i32, now: i64) -> (answer: Result<
        AverageReading,
        RepositoryError,
    >)
        ensures
            answer matches Ok(average) && average == self@.average_reading(station_id, now),
    {
        let hour_start: i128 = window_start_of(now, 1, HOUR_MILLIS);
        let day_start: i128 = window_start_of(now, 24, HOUR_MILLIS);
        let hour_readings = self.select_rows(Some(station_id), hour_start, i64::MAX as i128);
        let day_readings = self.select_rows(Some(station_id), day_start, i64::MAX as i128);
        Ok(AverageReading::new(hour_readings, day_readings))
    }

    /// The readings of all stations taken within the `hours` hours before
    /// `now`, or later, in the order of insertion. Never fails.
    pub fn get_past_hour_readings(&self, hours: i64, now: i64) -> (answer: Result<
        Vec<Reading>,
        RepositoryError,
    >)
        ensures
            answer matches Ok(rows) && rows@ == self@.readings_since(
                window_start(now, hours, HOUR_MILLIS),
            ),
    {
        let cutoff: i128 = window_start_of(now, hours, HOUR_MILLIS);
        Ok(self.select_rows(None, cutoff, i64::MAX as i128))
    }

    /// For each station its most recent reading, if that was taken within
    /// the `minutes` minutes before `now`, or later; in the order of
    /// insertion. Never fails.
    pub fn get_past_minutes_readings(&self, minutes: i64, now: i64) -> (answer: Result<
        Vec<Reading>,
        RepositoryError,
    >)
        requires
            self.wf(),
        ensures
            answer matches Ok(rows) && rows@ == self@.latest_per_station(
                window_start(now, minutes, MINUTE_MILLIS),
            ),
    {
        let cutoff: i128 = window_start_of(now, minutes, MINUTE_MILLIS);
        let rows = self.reading_rows();
        let ghost test = self@.latest_since(cutoff as int);
        let mut out: Vec<Reading> = Vec::new();
        let mut i: usize = 0;
        assert(rows@.take(0).filter(test) =~= Seq::empty()) by {
            broadcast use vstd::seq_lib::group_filter_ensures;
        }
        while i < rows.len()
            invariant
                self.wf(),
                rows@ == self@.readings,
                i <= rows.len(),
                test == self@.latest_since(cutoff as int),
                out@ == rows@.take(i as int).filter(test),
            decreases rows.len() - i,
        {
            proof {
                lemma_filter_step(rows@, test, i as int);
            }
            let row: Reading = rows[i];
            if (row.date as i128) >= cutoff && self.is_latest_row(i) {
                out.push(row);
            }
            i = i + 1;
        }
        assert(rows@.take(rows.len() as int) =~= rows@);
        Ok(out)
    }

    /// Inserts a reading and returns the id that it was given. The reading's
    /// own `id` is not stored.
    ///
    /// Fails with `StorageError`: `Exhausted` when no id is left, else
    /// `ForeignKey` when the reading's station does not exist, or the
    /// location that it is tagged with. A failed insert leaves the store as
    /// it was.
    pub fn put_reading(&mut self, reading: &Reading) -> (answer: Result<
        PutReadingRequest,
        RepositoryError,
    >)
        requires
            old(self).wf(),
        ensures
            final(self).wf(),
            reading_id_of(answer) == old(self)@.put_reading_result(*reading),
            final(self)@ == old(self)@.after_put_reading(*reading),
    {
        let ghost before = self@;
        proof {
            lemma_ids_below_next(before);
            lemma_put_reading_wf(before, *reading);
        }
        let rows = self.reading_rows();
        let n: usize = rows.len();
        let id: i32 = if n == 0 {
            1
        } else {
            let last: i32 = rows[n - 1].id;
            if last == i32::MAX {
                return Err(RepositoryError::StorageError(StorageFault::Exhausted));
            }
            last + 1
        };
        assert(id == before.next_reading_id());
        if self.find_station_by_id(reading.station_id).is_none() {
            return Err(RepositoryError::StorageError(StorageFault::ForeignKey));
        }
        if let Some(location_id) = reading.location_id {
            if self.find_location(location_id).is_none() {
                return Err(RepositoryError::StorageError(StorageFault::ForeignKey));
            }
        }
        let row = Reading {
            id,
            station_id: reading.station_id,
            location_id: reading.location_id,
            date: reading.date,
            temperature: reading.temperature,
            humidity: reading.humidity,
            pm10: reading.pm10,
            pm25: reading.pm25,
            co2: reading.co2,
            voc: reading.voc,
        };
        self.insert_reading_row(row);
        Ok(PutReadingRequest { id })
    }
}

} // verus!
