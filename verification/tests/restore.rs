use auspex::api::station::GetStationResponse;
use auspex::api::station::create_station_response;
use auspex::api::station::create_station_responses;
use auspex::error::RepositoryError;
use auspex::error::StorageFault;
use auspex::models::location::Location;
use auspex::models::reading::Reading;
use auspex::models::station::Station;
use auspex::repository::db::DBRepository;
use auspex::repository::queries::location::PutLocationRecord;
use auspex::repository::queries::reading::PutReadingRequest;
use auspex::repository::queries::station::PutStationRecord;
use auspex::repository::queries::station::StationRecord;
use auspex::repository::query::Query;
use auspex::services::reading_service::ReadingService;

fn text(s: &str) -> String {
    String::from(s)
}

fn row(id: i32, token: &str, location_id: Option<i32>) -> StationRecord {
    StationRecord {
        id,
        uid: text("0f0e0d0c-0b0a-4908-8706-050403020100"),
        token: text(token),
        hw_version: 1,
        sw_version: 1,
        location_id,
        last_online: 10,
    }
}

fn place(id: i32) -> Location {
    let mut location = Location::new(
        text("alpha"),
        1,
        2,
        text("BE"),
        text("OV"),
        text("Gent"),
        text("Korenmarkt"),
        text("1"),
    );
    location.id = id;
    location
}

fn sample(id: i32, station_id: i32, location_id: Option<i32>) -> Reading {
    Reading { id, ..Reading::new(station_id, location_id, 100, 1, 2, 3, 4, 5, 6) }
}

fn refused(answer: Result<DBRepository, RepositoryError>) -> bool {
    match answer {
        Ok(_) => false,
        Err(e) => e == RepositoryError::StorageError(StorageFault::Malformed),
    }
}

#[test]
fn restore_takes_consistent_rows() {
    let db = match DBRepository::restore(
        vec![row(2, "alpha", Some(4)), row(5, "beta", None)],
        vec![place(4), place(9)],
        vec![sample(1, 2, Some(4)), sample(3, 5, None), sample(8, 2, Some(9))],
    ) {
        Ok(db) => db,
        Err(e) => panic!("{}", e.message()),
    };
    assert_eq!(db.get_station(text("beta"), false).unwrap().id, 5);
    assert_eq!(db.get_station(text("alpha"), true).unwrap().location.unwrap().id, 4);
    assert_eq!(db.get_location(9).unwrap(), place(9));
    assert_eq!(db.stations(), vec![row(2, "alpha", Some(4)), row(5, "beta", None)]);
    assert_eq!(db.locations(), vec![place(4), place(9)]);
    assert_eq!(db.readings().len(), 3);
    let mut db = db;
    assert_eq!(db.put_station(Station::new(text("gamma"), 1, 1)), Ok(6));
    assert_eq!(db.put_location(&place(0)), Ok(10));
    assert_eq!(db.put_reading(&sample(0, 6, None)), Ok(9));
}

#[test]
fn every_repository_made_here_is_consistent() {
    let mut db = DBRepository::new();
    assert!(db.is_consistent());
    db.put_station(Station::new(text("alpha"), 1, 1)).unwrap();
    db.put_location(&place(0)).unwrap();
    db.update_location_id(1, text("alpha")).unwrap();
    db.put_reading(&sample(0, 1, Some(1))).unwrap();
    assert!(db.is_consistent());
    let mut query = Query::new();
    assert!(query.is_consistent());
    query.put_location(&place(0)).unwrap();
    assert!(query.is_consistent());
}

#[test]
fn restore_of_nothing_is_empty() {
    let db = match DBRepository::restore(Vec::new(), Vec::new(), Vec::new()) {
        Ok(db) => db,
        Err(e) => panic!("{}", e.message()),
    };
    assert_eq!(db.stations().len(), 0);
    assert_eq!(db.locations().len(), 0);
    assert_eq!(db.readings().len(), 0);
}

#[test]
fn restore_refuses_ids_out_of_order() {
    assert!(refused(DBRepository::restore(
        vec![row(2, "alpha", None), row(1, "beta", None)],
        Vec::new(),
        Vec::new()
    )));
    assert!(refused(DBRepository::restore(
        vec![row(2, "alpha", None), row(2, "beta", None)],
        Vec::new(),
        Vec::new()
    )));
    assert!(refused(DBRepository::restore(vec![row(0, "alpha", None)], Vec::new(), Vec::new())));
    assert!(refused(DBRepository::restore(Vec::new(), vec![place(3), place(3)], Vec::new())));
    assert!(refused(DBRepository::restore(Vec::new(), vec![place(-1)], Vec::new())));
    assert!(refused(DBRepository::restore(
        vec![row(1, "alpha", None)],
        Vec::new(),
        vec![sample(2, 1, None), sample(1, 1, None)]
    )));
    assert!(refused(DBRepository::restore(
        vec![row(1, "alpha", None)],
        Vec::new(),
        vec![sample(0, 1, None)]
    )));
}

#[test]
fn restore_refuses_a_token_used_twice() {
    assert!(refused(DBRepository::restore(
        vec![row(1, "alpha", None), row(2, "beta", None), row(3, "alpha", None)],
        Vec::new(),
        Vec::new()
    )));
}

#[test]
fn restore_refuses_dangling_references() {
    assert!(refused(DBRepository::restore(vec![row(1, "alpha", Some(1))], Vec::new(), Vec::new())));
    assert!(refused(DBRepository::restore(
        vec![row(1, "alpha", None)],
        vec![place(1)],
        vec![sample(1, 2, None)]
    )));
    assert!(refused(DBRepository::restore(
        vec![row(1, "alpha", None)],
        vec![place(1)],
        vec![sample(1, 1, Some(2))]
    )));
}

#[test]
fn store_answers_with_records() {
    let mut query = Query::new();
    assert_eq!(query.put_location(&place(0)), Ok(PutLocationRecord { id: 1 }));
    let mut station = Station::new(text("alpha"), 1, 1);
    station.location_id = Some(1);
    assert_eq!(query.put_station(station), Ok(PutStationRecord { id: 1 }));
    assert_eq!(query.put_reading(&sample(0, 1, Some(1))), Ok(PutReadingRequest { id: 1 }));
    assert_eq!(query.get_station(text("alpha")).unwrap().location_id, Some(1));
    assert_eq!(query.get_station(text("beta")), Err(RepositoryError::NotFound));
    assert_eq!(query.get_location(1).unwrap().id, 1);
    assert_eq!(query.get_latest_reading(1).unwrap().id, 1);
    assert_eq!(query.get_latest_reading(2), Err(RepositoryError::NoData));
    assert_eq!(query.get_readings_between(1, 100, 100).unwrap().len(), 1);
    assert_eq!(query.get_latest_readings(1, 4).unwrap().len(), 1);
    assert_eq!(query.get_past_hour_readings(1, 100).unwrap().len(), 1);
    assert_eq!(query.get_past_minutes_readings(5, 100).unwrap().len(), 1);
    assert_eq!(query.get_average_reading(1, 100).unwrap().hour.voc, 6);
    assert_eq!(query.get_active_stations(0).unwrap().len(), 1);
    assert_eq!(query.update_location_id(1, text("alpha")), Ok(()));
    let mut changed = Station::from(&query.get_station(text("alpha")).unwrap());
    changed.sw_version = 4;
    assert_eq!(query.update_station(&changed), Ok(()));
    assert_eq!(query.stations()[0].sw_version, 4);
    assert_eq!(query.locations().len(), 1);
    assert_eq!(query.readings().len(), 1);
}

#[test]
fn station_response_carries_the_last_reading() {
    let mut db = DBRepository::new();
    db.put_station(Station::new(text("alpha"), 1, 1)).unwrap();
    db.put_station(Station::new(text("beta"), 1, 1)).unwrap();
    db.put_reading(&Reading::new(1, None, 10, 1, 1, 1, 1, 1, 1)).unwrap();
    db.put_reading(&Reading::new(1, None, 30, 2, 2, 2, 2, 2, 2)).unwrap();
    let alpha = db.get_station(text("alpha"), true).unwrap();
    let beta = db.get_station(text("beta"), true).unwrap();
    let service = ReadingService::new(db);

    let response = create_station_response(&service, alpha.clone());
    assert_eq!(response.station, alpha);
    assert_eq!(response.last_reading.unwrap().date, 30);

    let response = create_station_response(&service, beta.clone());
    assert_eq!(response, GetStationResponse { station: beta.clone(), last_reading: None });

    let stranger = Station::new(text("nobody"), 1, 1);
    assert_eq!(create_station_response(&service, stranger).last_reading, None);

    let responses = create_station_responses(&service, vec![beta.clone(), alpha.clone()]);
    assert_eq!(responses.len(), 2);
    assert_eq!(responses[0].station, beta);
    assert_eq!(responses[0].last_reading, None);
    assert_eq!(responses[1].station, alpha);
    assert_eq!(responses[1].last_reading.unwrap().id, 2);
    assert_eq!(create_station_responses(&service, Vec::new()).len(), 0);
}
