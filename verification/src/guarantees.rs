//! What holds of the repository across several operations, proved from the
//! model of the store.
use vstd::prelude::*;
use crate::api::reading::AddReadingRequest;
use crate::api::station::UpdateStationRequest;
use crate::models::location::LocationView;
use crate::models::reading::AverageReadingValues;
use crate::models::reading::Reading;
use crate::models::station::StationView;
use crate::repository::tables::lemma_ids_below_next;
use crate::repository::tables::lemma_inserted_location;
use crate::repository::tables::lemma_latest_unique;
use crate::repository::tables::lemma_put_reading_wf;
use crate::repository::tables::lemma_put_station_wf;
use crate::repository::tables::lemma_relinked_station;
use crate::repository::tables::lemma_rewrite_accepted;
use crate::repository::tables::lemma_station_at;
use crate::repository::tables::lemma_update_keeps_readings;
use crate::repository::tables::lemma_updated_station;
use crate::repository::tables::newer;
use crate::repository::tables::window;
use crate::repository::tables::Tables;
use crate::repository::queries::station::StationRecordView;

verus! {

/// A station that has been registered is found again under its token, with
/// the id it was given and the `uid`, versions and last-online time it was
/// registered with. If it brought a location along, a lookup that asks for
/// the location returns that location; if not, it points where it was told
/// to point.
pub proof fn lemma_registered_station_is_found(t: Tables, station: StationView)
    requires
        t.wf(),
        t.register_result(station) is Ok,
    ensures
        ({
            let after = t.after_register(station);
            let found = after.lookup(station.token, true);
            &&& after.wf()
            &&& after.has_station(station.token)
            &&& found.id == t.register_result(station)->Ok_0
            &&& found.uid == station.uid
            &&& found.token == station.token
            &&& found.hw_version == station.hw_version
            &&& found.sw_version == station.sw_version
            &&& found.last_online == station.last_online
            &&& match station.location {
                Some(location) => found.location_id is Some && found.location == Some(
                    location.with_id(found.location_id->0),
                ),
                None => found.location_id == station.location_id,
            }
        }),
{
    let after = t.after_register(station);
    let n = t.stations.len() as int;
    match station.location {
        Some(location) => {
            let mid = t.after_put_location(location);
            lemma_inserted_location(t, location);
            lemma_put_station_wf(mid, t.register_row(station));
            assert(after.stations[n].token == station.token);
            lemma_station_at(after, n);
            let id = t.put_location_result()->Ok_0;
            assert(after.locations == mid.locations);
        },
        None => {
            lemma_put_station_wf(t, station.record());
            assert(after.stations[n].token == station.token);
            lemma_station_at(after, n);
        },
    }
}

/// A reading that has just been ingested is the station's latest reading,
/// with the metrics of the request, and with the time of ingestion when the
/// request carried none; provided that no reading of the station is dated
/// after it.
pub proof fn lemma_ingested_reading_is_latest(t: Tables, request: AddReadingRequest, now: i64)
    requires
        t.wf(),
        t.ingest_result(request, now) is Ok,
        forall|k: int|
            0 <= k < t.readings.len() && (#[trigger] t.readings[k]).station_id == t.station(
                request.station_token@,
            ).id ==> t.readings[k].date <= Reading::of_request(request, now).date,
    ensures
        ({
            let after = t.after_ingest(request, now);
            let stored = Reading {
                id: t.ingest_result(request, now)->Ok_0,
                ..t.ingest_reading(request, now)
            };
            &&& after.wf()
            &&& after.last_reading(request.station_token@) == Some(stored)
            &&& request.date is None ==> stored.date == now
            &&& stored.temperature == request.temperature
            &&& stored.humidity == request.humidity
            &&& stored.pm10 == request.pm10
            &&& stored.pm25 == request.pm25
            &&& stored.co2 == request.co2
            &&& stored.voc == request.voc
        }),
{
    let token = request.station_token@;
    let row = StationRecordView { last_online: now, ..t.station(token) };
    let reading = t.ingest_reading(request, now);
    let touched = t.touched(token, now);
    let after = t.after_ingest(request, now);
    let station_id = t.station(token).id;
    lemma_rewrite_accepted(t, token, row);
    lemma_update_keeps_readings(t, row, reading);
    lemma_updated_station(t, token, row);
    lemma_put_reading_wf(touched, reading);
    lemma_ids_below_next(t);
    let n = t.readings.len() as int;
    let stored = Reading { id: t.ingest_result(request, now)->Ok_0, ..reading };
    assert(after.readings == t.readings.push(stored));
    assert(after.readings[n] == stored);
    assert(after.stations == touched.stations);
    assert(after.station(token).id == station_id);
    assert(after.is_latest(station_id, stored)) by {
        assert forall|k: int|
            0 <= k < after.readings.len() && (#[trigger] after.readings[k]).station_id == station_id
                && after.readings[k] != stored implies newer(stored, after.readings[k]) by {
            if k < n {
                assert(after.readings[k] == t.readings[k]);
                assert(t.readings[k].id < t.next_reading_id());
            }
        }
    }
    lemma_latest_unique(after, station_id, stored, stored);
}

/// The readings between two instants are the station's readings dated from
/// the first instant to the second, both included: a reading taken exactly
/// at either end belongs to them.
pub proof fn lemma_between_is_inclusive(
    t: Tables,
    station_id: i32,
    start: i64,
    end: i64,
    reading: Reading,
)
    ensures
        t.readings_between(station_id, start, end).contains(reading) <==> (t.readings.contains(
            reading,
        ) && reading.station_id == station_id && start <= reading.date <= end),
{
    broadcast use vstd::seq_lib::group_filter_ensures;

    let test = window(Some(station_id), start as int, end as int);
    let between = t.readings_between(station_id, start, end);
    if between.contains(reading) {
        t.readings.lemma_filter_contains_rev(test, reading);
        let i = choose|i: int| 0 <= i < between.len() && between[i] == reading;
        assert(test(between[i]));
    }
    if t.readings.contains(reading) && reading.station_id == station_id && start <= reading.date
        <= end {
        let k = choose|k: int| 0 <= k < t.readings.len() && t.readings[k] == reading;
        assert(test(t.readings[k]));
    }
}

/// A reading that is stored joins the readings between two instants
/// exactly when it is dated from the first to the second, both included, and
/// then comes last; readings stored for other stations change nothing.
pub proof fn lemma_between_after_put(
    t: Tables,
    reading: Reading,
    station_id: i32,
    start: i64,
    end: i64,
)
    requires
        t.put_reading_result(reading) is Ok,
    ensures
        t.after_put_reading(reading).readings_between(station_id, start, end) == if reading.station_id
            == station_id && start <= reading.date <= end {
            t.readings_between(station_id, start, end).push(
                Reading { id: t.put_reading_result(reading)->Ok_0, ..reading },
            )
        } else {
            t.readings_between(station_id, start, end)
        },
{
    let test = window(Some(station_id), start as int, end as int);
    let stored = Reading { id: t.put_reading_result(reading)->Ok_0, ..reading };
    t.readings.lemma_filter_push(stored, test);
}

/// A reading that has just been ingested joins the station's readings
/// between two instants exactly when its time lies from the first to the
/// second, both included; it then comes last, and the readings that were
/// there before stay as they were.
pub proof fn lemma_between_after_ingest(
    t: Tables,
    request: AddReadingRequest,
    now: i64,
    start: i64,
    end: i64,
)
    requires
        t.wf(),
        t.ingest_result(request, now) is Ok,
    ensures
        ({
            let station_id = t.station(request.station_token@).id;
            let stored = Reading {
                id: t.ingest_result(request, now)->Ok_0,
                ..t.ingest_reading(request, now)
            };
            t.after_ingest(request, now).readings_between(station_id, start, end) == if start
                <= stored.date <= end {
                t.readings_between(station_id, start, end).push(stored)
            } else {
                t.readings_between(station_id, start, end)
            }
        }),
{
    let token = request.station_token@;
    let row = StationRecordView { last_online: now, ..t.station(token) };
    let reading = t.ingest_reading(request, now);
    lemma_rewrite_accepted(t, token, row);
    lemma_update_keeps_readings(t, row, reading);
    lemma_updated_station(t, token, row);
    lemma_between_after_put(t.touched(token, now), reading, reading.station_id, start, end);
}

/// Over no readings every mean is zero.
pub proof fn lemma_average_of_nothing(readings: Seq<Reading>)
    requires
        readings.len() == 0,
    ensures
        AverageReadingValues::of(readings) == (AverageReadingValues {
            temperature: 0,
            humidity: 0,
            pm10: 0,
            pm25: 0,
            co2: 0,
            voc: 0,
        }),
{
}

/// Attaching two locations in a row to a station leaves the station
/// pointing at the second. The first stays in the table and is still found
/// under its own id.
pub proof fn lemma_second_location_wins(t: Tables, first: LocationView, second: LocationView)
    requires
        t.wf(),
        t.has_station(first.station_token),
        first.station_token == second.station_token,
        t.attach_result() is Ok,
        t.after_attach(first).attach_result() is Ok,
    ensures
        ({
            let mid = t.after_attach(first);
            let after = mid.after_attach(second);
            let first_id = t.put_location_result()->Ok_0;
            let second_id = mid.put_location_result()->Ok_0;
            &&& after.wf()
            &&& first_id != second_id
            &&& after.has_station(first.station_token)
            &&& after.station(first.station_token).location_id == Some(second_id)
            &&& after.lookup(first.station_token, true).location == Some(second.with_id(second_id))
            &&& after.has_location(first_id)
            &&& after.location(first_id) == first.with_id(first_id)
        }),
{
    let token = first.station_token;
    let first_id = t.put_location_result()->Ok_0;
    let with_first = t.after_put_location(first);
    lemma_inserted_location(t, first);
    lemma_relinked_station(with_first, first_id, token);
    let mid = t.after_attach(first);
    assert(mid == with_first.after_update_location_id(first_id, token));
    let second_id = mid.put_location_result()->Ok_0;
    let with_second = mid.after_put_location(second);
    lemma_inserted_location(mid, second);
    lemma_relinked_station(with_second, second_id, token);
    let after = mid.after_attach(second);
    assert(after == with_second.after_update_location_id(second_id, token));
    assert(mid.has_location(first_id));
}

/// The later of two instants.
pub open spec fn later(a: i64, b: i64) -> i64 {
    if a >= b {
        a
    } else {
        b
    }
}

/// Two readings ingested one after the other for the same station get
/// different ids, and the station is then marked as seen at the time of the
/// second ingestion: the later of the two times, unless the clock went
/// backwards between them.
pub proof fn lemma_two_ingestions(
    t: Tables,
    first: AddReadingRequest,
    first_now: i64,
    second: AddReadingRequest,
    second_now: i64,
)
    requires
        t.wf(),
        first.station_token@ == second.station_token@,
        t.ingest_result(first, first_now) is Ok,
        t.after_ingest(first, first_now).ingest_result(second, second_now) is Ok,
    ensures
        ({
            let mid = t.after_ingest(first, first_now);
            let after = mid.after_ingest(second, second_now);
            &&& after.wf()
            &&& t.ingest_result(first, first_now)->Ok_0 != mid.ingest_result(second, second_now)->Ok_0
            &&& after.has_station(first.station_token@)
            &&& after.station(first.station_token@).last_online == second_now
            &&& first_now <= second_now ==> after.station(first.station_token@).last_online
                == later(first_now, second_now)
        }),
{
    let token = first.station_token@;
    let row = StationRecordView { last_online: first_now, ..t.station(token) };
    let reading = t.ingest_reading(first, first_now);
    lemma_rewrite_accepted(t, token, row);
    lemma_update_keeps_readings(t, row, reading);
    lemma_updated_station(t, token, row);
    lemma_put_reading_wf(t.touched(token, first_now), reading);
    let mid = t.after_ingest(first, first_now);
    assert(mid.stations == t.touched(token, first_now).stations);
    assert(mid.readings.last().id == t.ingest_result(first, first_now)->Ok_0);

    let next_row = StationRecordView { last_online: second_now, ..mid.station(token) };
    let next_reading = mid.ingest_reading(second, second_now);
    lemma_rewrite_accepted(mid, token, next_row);
    lemma_update_keeps_readings(mid, next_row, next_reading);
    lemma_updated_station(mid, token, next_row);
    lemma_put_reading_wf(mid.touched(token, second_now), next_reading);
    let after = mid.after_ingest(second, second_now);
    assert(after.stations == mid.touched(token, second_now).stations);
}

/// No two readings of a consistent store share an id.
pub proof fn lemma_reading_ids_differ(t: Tables, i: int, j: int)
    requires
        t.wf(),
        0 <= i < t.readings.len(),
        0 <= j < t.readings.len(),
        i != j,
    ensures
        t.readings[i].id != t.readings[j].id,
{
    if i < j {
        assert(t.readings[i].id < t.readings[j].id);
    } else {
        assert(t.readings[j].id < t.readings[i].id);
    }
}

/// Filtering a sequence without repetitions leaves no repetitions.
pub proof fn lemma_filter_no_duplicates<T>(s: Seq<T>, p: spec_fn(T) -> bool)
    requires
        s.no_duplicates(),
    ensures
        s.filter(p).no_duplicates(),
    decreases s.len(),
{
    broadcast use vstd::seq_lib::group_filter_ensures;

    if s.len() > 0 {
        let rest = s.drop_last();
        let last = s.last();
        lemma_filter_no_duplicates(rest, p);
        assert(s =~= rest.push(last));
        rest.lemma_filter_push(last, p);
        if p(last) {
            if rest.filter(p).contains(last) {
                rest.lemma_filter_contains_rev(p, last);
                let i = choose|i: int| 0 <= i < rest.len() && rest[i] == last;
                assert(s[i] == s[s.len() - 1]);
            }
            let kept = rest.filter(p);
            assert forall|i: int, j: int|
                0 <= i < kept.push(last).len() && 0 <= j < kept.push(last).len() && i
                    != j implies kept.push(last)[i] != kept.push(last)[j] by {
                if i == kept.len() {
                    assert(kept.contains(kept[j]));
                } else if j == kept.len() {
                    assert(kept.contains(kept[i]));
                }
            }
        }
    }
}

/// The answer to a query for the `count` latest readings of a station has
/// `count` readings, or as many as the station has when those are fewer.
pub proof fn lemma_latest_run_len(t: Tables, station_id: i32, count: int, out: Seq<Reading>)
    requires
        t.wf(),
        count >= 0,
        t.is_latest_run(station_id, count, out),
    ensures
        out.len() == t.latest_count(station_id, count),
{
    broadcast use vstd::seq_lib::group_filter_ensures;

    let test = window(Some(station_id), i64::MIN as int, i64::MAX as int);
    let all = t.station_readings(station_id);
    assert(t.readings.no_duplicates()) by {
        assert forall|i: int, j: int|
            0 <= i < t.readings.len() && 0 <= j < t.readings.len() && i != j implies t.readings[i]
            != t.readings[j] by {
            lemma_reading_ids_differ(t, i, j);
        }
    }
    lemma_filter_no_duplicates(t.readings, test);
    assert(out.no_duplicates()) by {
        assert forall|i: int, j: int| 0 <= i < out.len() && 0 <= j < out.len() && i != j implies out[i]
            != out[j] by {
            if i < j {
                assert(newer(out[i], out[j]));
            } else {
                assert(newer(out[j], out[i]));
            }
        }
    }
    assert forall|x: Reading| out.contains(x) implies all.contains(x) by {
        let i = choose|i: int| 0 <= i < out.len() && out[i] == x;
        assert(t.readings.contains(out[i]));
        let k = choose|k: int| 0 <= k < t.readings.len() && t.readings[k] == x;
        assert(test(t.readings[k]));
    }
    out.unique_seq_to_set();
    all.unique_seq_to_set();
    vstd::seq_lib::seq_to_set_is_finite(all);
    vstd::seq_lib::seq_to_set_is_finite(out);
    assert(out.to_set().subset_of(all.to_set()));
    vstd::set_lib::lemma_len_subset(out.to_set(), all.to_set());
    if out.len() < count {
        assert forall|x: Reading| all.contains(x) implies out.contains(x) by {
            t.readings.lemma_filter_contains_rev(test, x);
            let i = choose|i: int| 0 <= i < all.len() && all[i] == x;
            assert(test(all[i]));
            let k = choose|k: int| 0 <= k < t.readings.len() && t.readings[k] == x;
            assert(out.contains(t.readings[k]));
        }
        assert(all.to_set().subset_of(out.to_set()));
        vstd::set_lib::lemma_len_subset(all.to_set(), out.to_set());
    }
}

/// Two answers to the same query for the latest readings of a station agree
/// in every place.
proof fn lemma_latest_run_agree(
    t: Tables,
    station_id: i32,
    count: int,
    a: Seq<Reading>,
    b: Seq<Reading>,
    i: int,
)
    requires
        t.is_latest_run(station_id, count, a),
        t.is_latest_run(station_id, count, b),
        a.len() == b.len(),
        0 <= i < a.len(),
    ensures
        a[i] == b[i],
    decreases i,
{
    assert forall|j: int| 0 <= j < i implies a[j] == b[j] by {
        lemma_latest_run_agree(t, station_id, count, a, b, j);
    }
    let x = a[i];
    let y = b[i];
    if x != y {
        assert(t.readings.contains(x));
        assert(t.readings.contains(y));
        let kx = choose|k: int| 0 <= k < t.readings.len() && t.readings[k] == x;
        let ky = choose|k: int| 0 <= k < t.readings.len() && t.readings[k] == y;
        assert(newer(y, x)) by {
            if b.contains(x) {
                let m = choose|m: int| 0 <= m < b.len() && b[m] == x;
                if m < i {
                    assert(a[m] == b[m]);
                    assert(newer(a[m], a[i]));
                } else {
                    assert(newer(b[i], b[m]));
                }
            } else {
                assert(t.readings[kx].station_id == station_id);
                assert(newer(b[i], t.readings[kx]));
            }
        }
        assert(newer(x, y)) by {
            if a.contains(y) {
                let m = choose|m: int| 0 <= m < a.len() && a[m] == y;
                if m < i {
                    assert(a[m] == b[m]);
                    assert(newer(b[m], b[i]));
                } else {
                    assert(newer(a[i], a[m]));
                }
            } else {
                assert(t.readings[ky].station_id == station_id);
                assert(newer(a[i], t.readings[ky]));
            }
        }
    }
}

/// A query for the `count` latest readings of a station has one answer
/// only.
pub proof fn lemma_latest_run_unique(
    t: Tables,
    station_id: i32,
    count: int,
    a: Seq<Reading>,
    b: Seq<Reading>,
)
    requires
        t.wf(),
        count >= 0,
        t.is_latest_run(station_id, count, a),
        t.is_latest_run(station_id, count, b),
    ensures
        a == b,
{
    lemma_latest_run_len(t, station_id, count, a);
    lemma_latest_run_len(t, station_id, count, b);
    assert forall|i: int| 0 <= i < a.len() implies a[i] == b[i] by {
        lemma_latest_run_agree(t, station_id, count, a, b, i);
    }
    assert(a =~= b);
}

/// Among the readings that every station reports right now no station
/// appears twice.
pub proof fn lemma_one_reading_per_station(t: Tables, cutoff: int, i: int, j: int)
    requires
        0 <= i < t.latest_per_station(cutoff).len(),
        0 <= j < t.latest_per_station(cutoff).len(),
        t.latest_per_station(cutoff)[i].station_id == t.latest_per_station(cutoff)[j].station_id,
    ensures
        t.latest_per_station(cutoff)[i] == t.latest_per_station(cutoff)[j],
{
    broadcast use vstd::seq_lib::group_filter_ensures;

    let test = t.latest_since(cutoff);
    let out = t.latest_per_station(cutoff);
    assert(test(out[i]));
    assert(test(out[j]));
    lemma_latest_unique(t, out[i].station_id, out[i], out[j]);
}

/// A durable copy that held the store before a write, and is told the
/// changes since then, holds the store after the write.
pub proof fn lemma_changes_reach(before: Tables, after: Tables, token: Seq<char>)
    requires
        after.wf(),
        before.written_to(after, token),
    ensures
        before.replay(before.changes_to(after, token)) == after,
{
    let changes = before.changes_to(after, token);
    let replayed = before.replay(changes);
    let n = before.stations.len() as int;
    assert(replayed.locations =~= after.locations);
    assert(replayed.readings =~= after.readings);
    assert forall|i: int| 0 <= i < n implies replayed.stations[i] == after.stations[i] by {
        assert(after.stations[i].id == before.stations[i].id);
        if after.has_station(token) {
            let row = after.station(token);
            let k = choose|k: int|
                0 <= k < after.stations.len() && (#[trigger] after.stations[k]).token == token;
            if before.stations[i].id == row.id {
                if i < k {
                    assert(after.stations[i].id < after.stations[k].id);
                }
                if k < i {
                    assert(after.stations[k].id < after.stations[i].id);
                }
            } else if after.stations[i] != before.stations[i] {
                lemma_station_at(after, i);
            }
        }
    }
    assert(replayed.stations =~= after.stations);
}

/// Registering a station only appends rows.
pub proof fn lemma_register_appends(t: Tables, station: StationView)
    requires
        t.wf(),
    ensures
        t.written_to(t.after_register(station), station.token),
{
}

/// Attaching a location appends it and rewrites the row of the station it
/// names, and no other.
pub proof fn lemma_attach_rewrites_one(t: Tables, location: LocationView)
    requires
        t.wf(),
    ensures
        t.written_to(t.after_attach(location), location.station_token),
{
    if t.put_location_result() is Ok {
        lemma_inserted_location(t, location);
    }
}

/// A partial update rewrites the row of the station it names, and no
/// other.
pub proof fn lemma_modify_rewrites_one(t: Tables, token: Seq<char>, update: UpdateStationRequest)
    requires
        t.wf(),
    ensures
        t.written_to(t.after_modify(token, update), token),
{
    if t.has_station(token) {
        let row = t.station(token).station().updated(update).record();
        let after = t.after_modify(token, update);
        let k = choose|k: int| 0 <= k < t.stations.len() && (#[trigger] t.stations[k]).token == token;
        assert forall|i: int| 0 <= i < t.stations.len() implies (#[trigger] after.stations[i])
            == t.stations[i] || (after.stations[i].token == token && after.stations[i]
            == Tables::overwrite(t.stations[i], after.stations[i])) by {
            if t.stations[i].id == row.id {
                if i < k {
                    assert(t.stations[i].id < t.stations[k].id);
                }
                if k < i {
                    assert(t.stations[k].id < t.stations[i].id);
                }
            }
        }
    }
}

/// Ingesting a reading appends it and rewrites the row of the station it
/// names, and no other.
pub proof fn lemma_ingest_rewrites_one(t: Tables, request: AddReadingRequest, now: i64)
    requires
        t.wf(),
    ensures
        t.written_to(t.after_ingest(request, now), request.station_token@),
{
    let token = request.station_token@;
    if t.has_station(token) {
        let row = StationRecordView { last_online: now, ..t.station(token) };
        let touched = t.touched(token, now);
        let after = t.after_ingest(request, now);
        let k = choose|k: int| 0 <= k < t.stations.len() && (#[trigger] t.stations[k]).token == token;
        assert(after.stations == touched.stations);
        assert forall|i: int| 0 <= i < t.stations.len() implies (#[trigger] after.stations[i])
            == t.stations[i] || (after.stations[i].token == token && after.stations[i]
            == Tables::overwrite(t.stations[i], after.stations[i])) by {
            if t.stations[i].id == row.id {
                if i < k {
                    assert(t.stations[i].id < t.stations[k].id);
                }
                if k < i {
                    assert(t.stations[k].id < t.stations[i].id);
                }
            }
        }
    }
}

} // verus!
