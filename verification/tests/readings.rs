use auspex::api::reading::AddReadingRequest;
use auspex::api::station::AddLocationRequest;
use auspex::clock::HOUR_MILLIS;
use auspex::clock::MINUTE_MILLIS;
use auspex::error::RepositoryError;
use auspex::error::StorageFault;
use auspex::models::reading::AverageReadingValues;
use auspex::models::reading::Reading;
use auspex::models::station::Station;
use auspex::repository::db::DBRepository;
use auspex::repository::queries::reading::is_newer;
use auspex::services::reading_service::ReadingService;
use auspex::services::reading_service::RECENT_MINUTES;
use auspex::services::station_service::StationService;

const NOW: i64 = 1_700_000_000_000;

fn text(s: &str) -> String {
    String::from(s)
}

fn request(token: &str, date: Option<i64>, value: i32) -> AddReadingRequest {
    AddReadingRequest {
        station_token: text(token),
        date,
        temperature: value,
        humidity: value + 1,
        pm10: value + 2,
        pm25: value + 3,
        co2: value + 4,
        voc: value + 5,
    }
}

fn flat(token: &str, date: i64, value: i32) -> AddReadingRequest {
    AddReadingRequest {
        station_token: text(token),
        date: Some(date),
        temperature: value,
        humidity: value,
        pm10: value,
        pm25: value,
        co2: value,
        voc: value,
    }
}

fn service_with(tokens: &[&str]) -> ReadingService {
    let mut db = DBRepository::new();
    for token in tokens {
        db.put_station(Station::new(text(token), 1, 1)).unwrap();
    }
    ReadingService::new(db)
}

fn dates(rows: &[Reading]) -> Vec<i64> {
    rows.iter().map(|r| r.date).collect()
}

fn ids(rows: &[Reading]) -> Vec<i32> {
    rows.iter().map(|r| r.id).collect()
}

#[test]
fn ingested_reading_is_the_latest_with_default_time() {
    let mut service = service_with(&["alpha"]);
    let before = chrono::Utc::now().timestamp_millis();
    let id = service.put_reading(request("alpha", None, 21_000)).unwrap();
    let after = chrono::Utc::now().timestamp_millis();
    assert_eq!(id, 1);
    let latest = service.get_latest_reading(text("alpha")).unwrap();
    assert_eq!(latest.id, 1);
    assert_eq!(latest.station_id, 1);
    assert_eq!(latest.temperature, 21_000);
    assert_eq!(latest.humidity, 21_001);
    assert_eq!(latest.pm10, 21_002);
    assert_eq!(latest.pm25, 21_003);
    assert_eq!(latest.co2, 21_004);
    assert_eq!(latest.voc, 21_005);
    assert!(before <= latest.date && latest.date <= after);
}

#[test]
fn ingestion_at_a_given_instant() {
    let mut service = service_with(&["alpha"]);
    assert_eq!(service.put_reading_at(request("alpha", None, 5), NOW), Ok(1));
    assert_eq!(service.put_reading_at(request("alpha", Some(NOW - 10), 6), NOW + 1), Ok(2));
    let rows = service.repository().readings();
    assert_eq!(rows.len(), 2);
    assert_eq!(rows[0].date, NOW);
    assert_eq!(rows[1].date, NOW - 10);
    assert_eq!(rows[1].temperature, 6);
    assert_eq!(service.get_latest_reading(text("alpha")).unwrap().id, 1);
}

#[test]
fn ingestion_for_an_unknown_station_is_rejected() {
    let mut service = service_with(&["alpha"]);
    assert_eq!(service.put_reading(request("nobody", None, 1)), Err(RepositoryError::NotFound));
    assert_eq!(
        service.put_reading_at(request("nobody", Some(1), 1), NOW),
        Err(RepositoryError::NotFound)
    );
    let db = service.into_repository();
    assert_eq!(db.readings().len(), 0);
    assert_eq!(db.stations().len(), 1);
    assert_eq!(db.get_station(text("nobody"), false), Err(RepositoryError::NotFound));
}

#[test]
fn ingestion_refreshes_last_online_whatever_the_reading_says() {
    let mut db = DBRepository::new();
    let mut station = Station::new(text("alpha"), 1, 1);
    station.last_online = 5;
    db.put_station(station).unwrap();
    let mut service = ReadingService::new(db);
    service.put_reading_at(flat("alpha", 1_000, 1), NOW).unwrap();
    let db = service.into_repository();
    let station = db.get_station(text("alpha"), false).unwrap();
    assert_eq!(station.last_online, NOW);
    assert_eq!(station.hw_version, 1);
    assert_eq!(db.readings()[0].date, 1_000);
}

#[test]
fn two_ingestions_get_different_ids_and_the_later_time_stays() {
    let mut service = service_with(&["alpha"]);
    let first = service.put_reading_at(request("alpha", None, 1), NOW).unwrap();
    let second = service.put_reading_at(request("alpha", None, 2), NOW + 250).unwrap();
    assert_ne!(first, second);
    assert_eq!((first, second), (1, 2));
    let station = service.repository().get_station(text("alpha"), false).unwrap();
    assert_eq!(station.last_online, NOW + 250);
}

#[test]
fn reading_ids_are_shared_by_all_stations() {
    let mut service = service_with(&["alpha", "beta"]);
    assert_eq!(service.put_reading_at(request("alpha", None, 1), NOW), Ok(1));
    assert_eq!(service.put_reading_at(request("beta", None, 1), NOW), Ok(2));
    assert_eq!(service.put_reading_at(request("alpha", None, 1), NOW), Ok(3));
    assert_eq!(ids(&service.repository().readings()), vec![1, 2, 3]);
}

#[test]
fn reading_keeps_the_location_of_its_time() {
    let mut stations = StationService::new(DBRepository::new());
    let mut station = Station::new(text("alpha"), 1, 1);
    station.location = Some(auspex::models::location::Location::new(
        text("alpha"),
        1,
        2,
        text("BE"),
        text("OV"),
        text("Gent"),
        text("Korenmarkt"),
        text("1"),
    ));
    stations.put_station(station).unwrap();
    let mut readings = ReadingService::new(stations.into_repository());
    readings.put_reading_at(request("alpha", None, 1), NOW).unwrap();

    let mut stations = StationService::new(readings.into_repository());
    stations
        .update_location(AddLocationRequest {
            latitude: 3,
            longitude: 4,
            country: text("BE"),
            province: text("OV"),
            city: text("Gent"),
            street: text("Veldstraat"),
            number: text("2"),
            station_token: text("alpha"),
        })
        .unwrap();
    let mut readings = ReadingService::new(stations.into_repository());
    readings.put_reading_at(request("alpha", None, 2), NOW + 1).unwrap();

    let rows = readings.repository().readings();
    assert_eq!(rows[0].location_id, Some(1));
    assert_eq!(rows[1].location_id, Some(2));
}

#[test]
fn reading_of_a_station_without_location_has_none() {
    let mut service = service_with(&["alpha"]);
    service.put_reading_at(request("alpha", None, 1), NOW).unwrap();
    assert_eq!(service.get_latest_reading(text("alpha")).unwrap().location_id, None);
}

#[test]
fn readings_between_is_inclusive_on_both_ends() {
    let mut service = service_with(&["alpha"]);
    let (t0, t1, t2, t3) = (1_000, 2_000, 3_000, 4_000);
    service.put_reading_at(flat("alpha", t1, 1), NOW).unwrap();
    service.put_reading_at(flat("alpha", t2, 2), NOW).unwrap();
    let rows = service.get_readings_between(text("alpha"), t0, t3).unwrap();
    assert_eq!(dates(&rows), vec![t1, t2]);
    let rows = service.get_readings_between(text("alpha"), t1, t2).unwrap();
    assert_eq!(dates(&rows), vec![t1, t2]);
    let rows = service.get_readings_between(text("alpha"), t1, t1).unwrap();
    assert_eq!(dates(&rows), vec![t1]);
    assert_eq!(rows[0].temperature, 1);
    let rows = service.get_readings_between(text("alpha"), t1 + 1, t2 - 1).unwrap();
    assert_eq!(rows, Vec::new());
    let rows = service.get_readings_between(text("alpha"), t3, t0).unwrap();
    assert_eq!(rows, Vec::new());
}

#[test]
fn readings_between_sees_one_station_only() {
    let mut service = service_with(&["alpha", "beta"]);
    service.put_reading_at(flat("alpha", 10, 1), NOW).unwrap();
    service.put_reading_at(flat("beta", 11, 2), NOW).unwrap();
    service.put_reading_at(flat("alpha", 12, 3), NOW).unwrap();
    let rows = service.get_readings_between(text("alpha"), 0, 100).unwrap();
    assert_eq!(ids(&rows), vec![1, 3]);
    let rows = service.get_readings_between(text("beta"), 0, 100).unwrap();
    assert_eq!(ids(&rows), vec![2]);
    assert_eq!(
        service.get_readings_between(text("nobody"), 0, 100),
        Err(RepositoryError::NotFound)
    );
}

#[test]
fn latest_reading_of_a_station_without_readings_is_no_data() {
    let service = service_with(&["alpha"]);
    assert_eq!(service.get_latest_reading(text("alpha")), Err(RepositoryError::NoData));
    assert_eq!(service.get_latest_reading(text("nobody")), Err(RepositoryError::NotFound));
}

#[test]
fn latest_reading_goes_by_time_then_id() {
    let mut service = service_with(&["alpha", "beta"]);
    service.put_reading_at(flat("alpha", 300, 1), NOW).unwrap();
    service.put_reading_at(flat("alpha", 500, 2), NOW).unwrap();
    service.put_reading_at(flat("alpha", 400, 3), NOW).unwrap();
    service.put_reading_at(flat("beta", 900, 4), NOW).unwrap();
    assert_eq!(service.get_latest_reading(text("alpha")).unwrap().id, 2);
    service.put_reading_at(flat("alpha", 500, 5), NOW).unwrap();
    assert_eq!(service.get_latest_reading(text("alpha")).unwrap().id, 5);
    assert_eq!(service.get_latest_reading(text("beta")).unwrap().id, 4);
}

#[test]
fn newer_orders_by_time_then_id() {
    let a = Reading { id: 1, ..Reading::new(1, None, 10, 0, 0, 0, 0, 0, 0) };
    let b = Reading { id: 2, ..Reading::new(1, None, 10, 0, 0, 0, 0, 0, 0) };
    let c = Reading { id: 3, ..Reading::new(1, None, 9, 0, 0, 0, 0, 0, 0) };
    assert!(is_newer(&b, &a));
    assert!(!is_newer(&a, &b));
    assert!(is_newer(&a, &c));
    assert!(!is_newer(&c, &a));
    assert!(!is_newer(&a, &a));
}

#[test]
fn latest_readings_with_fewer_than_asked() {
    let mut service = service_with(&["alpha"]);
    service.put_reading_at(flat("alpha", 10, 1), NOW).unwrap();
    let rows = service.get_latest_readings(text("alpha"), 3).unwrap();
    assert_eq!(rows.len(), 1);
    assert_eq!(rows[0].id, 1);
}

#[test]
fn latest_readings_are_the_most_recent_first() {
    let mut service = service_with(&["alpha", "beta"]);
    service.put_reading_at(flat("alpha", 300, 1), NOW).unwrap();
    service.put_reading_at(flat("alpha", 500, 2), NOW).unwrap();
    service.put_reading_at(flat("beta", 999, 3), NOW).unwrap();
    service.put_reading_at(flat("alpha", 400, 4), NOW).unwrap();
    service.put_reading_at(flat("alpha", 500, 5), NOW).unwrap();
    service.put_reading_at(flat("alpha", 100, 6), NOW).unwrap();
    let rows = service.get_latest_readings(text("alpha"), 3).unwrap();
    assert_eq!(ids(&rows), vec![5, 2, 4]);
    let rows = service.get_latest_readings(text("alpha"), 5).unwrap();
    assert_eq!(ids(&rows), vec![5, 2, 4, 1, 6]);
    let rows = service.get_latest_readings(text("alpha"), 50).unwrap();
    assert_eq!(ids(&rows), vec![5, 2, 4, 1, 6]);
    let rows = service.get_latest_readings(text("alpha"), 1).unwrap();
    assert_eq!(ids(&rows), vec![5]);
    let rows = service.get_latest_readings(text("alpha"), 0).unwrap();
    assert_eq!(rows, Vec::new());
    let rows = service.get_latest_readings(text("alpha"), i64::MAX).unwrap();
    assert_eq!(rows.len(), 5);
}

#[test]
fn latest_readings_errors() {
    let service = service_with(&["alpha"]);
    assert_eq!(service.get_latest_readings(text("alpha"), 3), Ok(Vec::new()));
    assert_eq!(
        service.get_latest_readings(text("alpha"), -1),
        Err(RepositoryError::StorageError(StorageFault::InvalidLimit))
    );
    assert_eq!(service.get_latest_readings(text("nobody"), 3), Err(RepositoryError::NotFound));
    assert_eq!(service.get_latest_readings(text("nobody"), -1), Err(RepositoryError::NotFound));
}

#[test]
fn past_hour_readings_cover_all_stations() {
    let mut service = service_with(&["alpha", "beta"]);
    service.put_reading_at(flat("alpha", NOW - HOUR_MILLIS - 1, 1), NOW).unwrap();
    service.put_reading_at(flat("alpha", NOW - HOUR_MILLIS, 2), NOW).unwrap();
    service.put_reading_at(flat("beta", NOW - 5, 3), NOW).unwrap();
    service.put_reading_at(flat("beta", NOW + 5, 4), NOW).unwrap();
    let rows = service.get_past_hour_readings_at(NOW).unwrap();
    assert_eq!(ids(&rows), vec![2, 3, 4]);
    let db = service.into_repository();
    assert_eq!(ids(&db.get_past_hour_readings(2, NOW).unwrap()), vec![1, 2, 3, 4]);
    assert_eq!(ids(&db.get_past_hour_readings(0, NOW).unwrap()), vec![4]);
    assert_eq!(ids(&db.get_past_hour_readings(-1, NOW).unwrap()), Vec::new());
    assert_eq!(db.get_past_hour_readings(i64::MAX, NOW).unwrap().len(), 4);
    assert_eq!(db.get_past_hour_readings(i64::MIN, NOW).unwrap().len(), 0);
}

#[test]
fn past_hour_readings_now() {
    let mut service = service_with(&["alpha"]);
    service.put_reading(request("alpha", None, 1)).unwrap();
    service.put_reading(request("alpha", Some(0), 2)).unwrap();
    let rows = service.get_past_hour_readings().unwrap();
    assert_eq!(ids(&rows), vec![1]);
}

#[test]
fn what_every_station_reports_right_now() {
    assert_eq!(RECENT_MINUTES, 5);
    let window = RECENT_MINUTES * MINUTE_MILLIS;
    let mut service = service_with(&["alpha", "beta", "gamma", "delta"]);
    service.put_reading_at(flat("alpha", NOW - 1_000, 1), NOW).unwrap();
    service.put_reading_at(flat("alpha", NOW - 10, 2), NOW).unwrap();
    service.put_reading_at(flat("beta", NOW - window, 3), NOW).unwrap();
    service.put_reading_at(flat("gamma", NOW - window - 1, 4), NOW).unwrap();
    service.put_reading_at(flat("alpha", NOW - 500, 5), NOW).unwrap();
    service.put_reading_at(flat("beta", NOW - window - 7, 6), NOW).unwrap();
    let rows = service.get_past_minute_readings_at(NOW).unwrap();
    assert_eq!(ids(&rows), vec![2, 3]);
}

#[test]
fn right_now_ties_go_to_the_higher_id() {
    let mut service = service_with(&["alpha"]);
    service.put_reading_at(flat("alpha", NOW, 1), NOW).unwrap();
    service.put_reading_at(flat("alpha", NOW, 2), NOW).unwrap();
    let rows = service.get_past_minute_readings_at(NOW).unwrap();
    assert_eq!(ids(&rows), vec![2]);
}

#[test]
fn right_now_skips_stations_whose_latest_is_old() {
    let mut service = service_with(&["alpha"]);
    service.put_reading(request("alpha", Some(5), 1)).unwrap();
    assert_eq!(service.get_past_minute_readings().unwrap(), Vec::new());
    service.put_reading(request("alpha", None, 2)).unwrap();
    assert_eq!(ids(&service.get_past_minute_readings().unwrap()), vec![2]);
}

#[test]
fn average_without_readings_is_all_zero() {
    let service = service_with(&["alpha"]);
    let average = service.get_average_reading_at(text("alpha"), NOW).unwrap();
    assert_eq!(average.hour, AverageReadingValues::default());
    assert_eq!(average.day, AverageReadingValues::default());
    let average = service.get_average_reading(text("alpha")).unwrap();
    assert_eq!(average.hour, AverageReadingValues::default());
    assert_eq!(average.day, AverageReadingValues::default());
    assert_eq!(service.get_average_reading(text("nobody")), Err(RepositoryError::NotFound));
    assert_eq!(
        service.get_average_reading_at(text("nobody"), NOW),
        Err(RepositoryError::NotFound)
    );
}

#[test]
fn average_of_ten_and_twenty_in_the_hour_is_fifteen() {
    let mut service = service_with(&["alpha", "beta"]);
    service.put_reading_at(flat("alpha", NOW - 60_000, 10_000), NOW).unwrap();
    service.put_reading_at(flat("alpha", NOW - 30_000, 20_000), NOW).unwrap();
    service.put_reading_at(flat("beta", NOW - 30_000, 90_000), NOW).unwrap();
    service.put_reading_at(flat("alpha", NOW - 2 * HOUR_MILLIS, 60_000), NOW).unwrap();
    service.put_reading_at(flat("alpha", NOW - 25 * HOUR_MILLIS, 500_000), NOW).unwrap();
    let average = service.get_average_reading_at(text("alpha"), NOW).unwrap();
    let fifteen = AverageReadingValues {
        temperature: 15_000,
        humidity: 15_000,
        pm10: 15_000,
        pm25: 15_000,
        co2: 15_000,
        voc: 15_000,
    };
    assert_eq!(average.hour, fifteen);
    assert_eq!(average.day.temperature, 30_000);
    assert_eq!(average.day.voc, 30_000);
}

#[test]
fn average_takes_each_metric_on_its_own() {
    let mut service = service_with(&["alpha"]);
    service.put_reading_at(request("alpha", Some(NOW), 10), NOW).unwrap();
    service.put_reading_at(request("alpha", Some(NOW), 20), NOW).unwrap();
    let average = service.get_average_reading_at(text("alpha"), NOW).unwrap();
    assert_eq!(average.hour.temperature, 15);
    assert_eq!(average.hour.humidity, 16);
    assert_eq!(average.hour.pm10, 17);
    assert_eq!(average.hour.pm25, 18);
    assert_eq!(average.hour.co2, 19);
    assert_eq!(average.hour.voc, 20);
    assert_eq!(average.day, average.hour);
}

#[test]
fn average_windows_include_their_start() {
    let mut service = service_with(&["alpha"]);
    service.put_reading_at(flat("alpha", NOW - HOUR_MILLIS, 8), NOW).unwrap();
    service.put_reading_at(flat("alpha", NOW - HOUR_MILLIS - 1, 100), NOW).unwrap();
    service.put_reading_at(flat("alpha", NOW - 24 * HOUR_MILLIS, 100), NOW).unwrap();
    service.put_reading_at(flat("alpha", NOW - 24 * HOUR_MILLIS - 1, 1_000), NOW).unwrap();
    let average = service.get_average_reading_at(text("alpha"), NOW).unwrap();
    assert_eq!(average.hour.co2, 8);
    assert_eq!(average.day.co2, 69);
}

#[test]
fn repository_reading_for_a_missing_station_is_refused() {
    let mut db = DBRepository::new();
    db.put_station(Station::new(text("alpha"), 1, 1)).unwrap();
    let stray = Reading::new(7, None, 1, 0, 0, 0, 0, 0, 0);
    assert_eq!(db.put_reading(&stray), Err(RepositoryError::StorageError(StorageFault::ForeignKey)));
    let lost = Reading::new(1, Some(3), 1, 0, 0, 0, 0, 0, 0);
    assert_eq!(db.put_reading(&lost), Err(RepositoryError::StorageError(StorageFault::ForeignKey)));
    let fine = Reading { id: 55, ..Reading::new(1, None, 1, 0, 0, 0, 0, 0, 0) };
    assert_eq!(db.put_reading(&fine), Ok(1));
    assert_eq!(db.readings()[0].id, 1);
}

#[test]
fn repository_queries_by_station() {
    let mut db = DBRepository::new();
    db.put_station(Station::new(text("alpha"), 1, 1)).unwrap();
    db.put_reading(&Reading::new(1, None, 10, 1, 1, 1, 1, 1, 1)).unwrap();
    db.put_reading(&Reading::new(1, None, 20, 3, 3, 3, 3, 3, 3)).unwrap();
    let station = db.get_station(text("alpha"), false).unwrap();
    assert_eq!(dates(&db.get_readings_between(station.clone(), 10, 10).unwrap()), vec![10]);
    assert_eq!(db.get_latest_reading(station.clone()).unwrap().date, 20);
    assert_eq!(dates(&db.get_latest_readings(station.clone(), 2).unwrap()), vec![20, 10]);
    assert_eq!(db.get_average_reading(station.clone(), 20).unwrap().hour.pm10, 2);
    assert_eq!(ids(&db.get_past_minutes_readings(1, 20).unwrap()), vec![2]);
    let mut stranger = station;
    stranger.id = 9;
    assert_eq!(db.get_latest_reading(stranger.clone()), Err(RepositoryError::NoData));
    assert_eq!(db.get_readings_between(stranger, 0, 100), Ok(Vec::new()));
}
