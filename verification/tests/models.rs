use auspex::api::reading::AddReadingRequest;
use auspex::api::station::AddLocationRequest;
use auspex::api::station::AddStationRequest;
use auspex::api::station::UpdateStationRequest;
use auspex::error::RepositoryError;
use auspex::error::StorageFault;
use auspex::models::location::Location;
use auspex::models::reading::Reading;
use auspex::models::station::Station;
use auspex::models::station::UID_LENGTH;
use auspex::repository::queries::station::StationRecord;

fn text(s: &str) -> String {
    String::from(s)
}

fn location_request(token: &str) -> AddLocationRequest {
    AddLocationRequest {
        latitude: 51_054_340,
        longitude: 3_717_424,
        country: text("BE"),
        province: text("OV"),
        city: text("Gent"),
        street: text("Korenmarkt"),
        number: text("45"),
        station_token: text(token),
    }
}

#[test]
fn new_station_has_defaults_and_a_fresh_uid() {
    let station = Station::new(text("alpha"), 3, 7);
    assert_eq!(station.id, 0);
    assert_eq!(station.token, "alpha");
    assert_eq!(station.hw_version, 3);
    assert_eq!(station.sw_version, 7);
    assert_eq!(station.location_id, None);
    assert_eq!(station.location, None);
    assert_eq!(station.uid.len(), UID_LENGTH);
    assert_eq!(UID_LENGTH, 36);
    assert!(station.last_online > 0);
}

#[test]
fn default_station_is_unregistered() {
    let station = Station::default();
    assert_eq!(station.id, 0);
    assert_eq!(station.token, "");
    assert_eq!(station.hw_version, 1);
    assert_eq!(station.sw_version, 1);
    assert_eq!(station.location_id, None);
    assert_eq!(station.location, None);
    assert_eq!(station.uid.len(), 36);
}

#[test]
fn uid_is_hyphenated_hex() {
    let uid = Station::default().uid;
    let bytes = uid.as_bytes();
    for (i, b) in bytes.iter().enumerate() {
        if i == 8 || i == 13 || i == 18 || i == 23 {
            assert_eq!(*b, b'-');
        } else {
            assert!(b.is_ascii_hexdigit());
        }
    }
}

#[test]
fn two_stations_get_different_uids() {
    let a = Station::new(text("a"), 1, 1);
    let b = Station::new(text("b"), 1, 1);
    assert_ne!(a.uid, b.uid);
    assert!(!a.uid.is_empty());
}

#[test]
fn apply_update_writes_only_the_fields_present() {
    let mut station = Station::new(text("alpha"), 1, 2);
    let uid = station.uid.clone();
    let seen = station.last_online;
    station.apply_update(UpdateStationRequest {
        hw_version: None,
        sw_version: Some(9),
        last_online: None,
    });
    assert_eq!(station.hw_version, 1);
    assert_eq!(station.sw_version, 9);
    assert_eq!(station.last_online, seen);
    assert_eq!(station.uid, uid);
    assert_eq!(station.token, "alpha");

    station.apply_update(UpdateStationRequest {
        hw_version: Some(4),
        sw_version: None,
        last_online: Some(1_700_000_000_000),
    });
    assert_eq!(station.hw_version, 4);
    assert_eq!(station.sw_version, 9);
    assert_eq!(station.last_online, 1_700_000_000_000);
}

#[test]
fn apply_update_with_nothing_changes_nothing() {
    let mut station = Station::new(text("alpha"), 5, 6);
    let before = station.clone();
    station.apply_update(UpdateStationRequest { hw_version: None, sw_version: None, last_online: None });
    assert_eq!(station, before);
}

#[test]
fn station_from_request_carries_the_location() {
    let station = Station::from(AddStationRequest {
        token: text("alpha"),
        hw_version: 2,
        sw_version: 3,
        location: Some(location_request("alpha")),
    });
    assert_eq!(station.id, 0);
    assert_eq!(station.token, "alpha");
    assert_eq!(station.hw_version, 2);
    assert_eq!(station.sw_version, 3);
    assert_eq!(station.location_id, None);
    assert_eq!(station.uid.len(), 36);
    let location = station.location.unwrap();
    assert_eq!(location, Location::from(location_request("alpha")));
}

#[test]
fn station_from_request_without_location() {
    let station = Station::from(AddStationRequest {
        token: text("beta"),
        hw_version: 1,
        sw_version: 1,
        location: None,
    });
    assert_eq!(station.location, None);
    assert_eq!(station.token, "beta");
}

#[test]
fn station_from_record_copies_the_row() {
    let rec = StationRecord {
        id: 12,
        uid: text("0f0e0d0c-0b0a-4908-8706-050403020100"),
        token: text("gamma"),
        hw_version: 2,
        sw_version: 5,
        location_id: Some(4),
        last_online: 99,
    };
    let station = Station::from(&rec);
    assert_eq!(station.id, 12);
    assert_eq!(station.uid, rec.uid);
    assert_eq!(station.token, "gamma");
    assert_eq!(station.hw_version, 2);
    assert_eq!(station.sw_version, 5);
    assert_eq!(station.location_id, Some(4));
    assert_eq!(station.location, None);
    assert_eq!(station.last_online, 99);
    assert_eq!(rec.clone(), rec);
}

#[test]
fn location_new_is_not_numbered() {
    let location = Location::new(
        text("alpha"),
        1,
        -2,
        text("BE"),
        text("OV"),
        text("Gent"),
        text("Korenmarkt"),
        text("45"),
    );
    assert_eq!(location.id, 0);
    assert_eq!(location.station_token, "alpha");
    assert_eq!(location.latitude, 1);
    assert_eq!(location.longitude, -2);
    assert_eq!(location.country, "BE");
    assert_eq!(location.province, "OV");
    assert_eq!(location.city, "Gent");
    assert_eq!(location.street, "Korenmarkt");
    assert_eq!(location.number, "45");
    assert_eq!(location.clone(), location);
}

#[test]
fn location_from_request_keeps_every_field() {
    let location = Location::from(location_request("alpha"));
    assert_eq!(
        location,
        Location::new(
            text("alpha"),
            51_054_340,
            3_717_424,
            text("BE"),
            text("OV"),
            text("Gent"),
            text("Korenmarkt"),
            text("45"),
        )
    );
}

#[test]
fn reading_new_is_not_numbered() {
    let reading = Reading::new(3, Some(2), 1000, 1, 2, 3, 4, 5, 6);
    assert_eq!(
        reading,
        Reading {
            id: 0,
            station_id: 3,
            location_id: Some(2),
            date: 1000,
            temperature: 1,
            humidity: 2,
            pm10: 3,
            pm25: 4,
            co2: 5,
            voc: 6,
        }
    );
}

#[test]
fn reading_from_request_defaults_the_time() {
    let request = AddReadingRequest {
        station_token: text("alpha"),
        date: None,
        temperature: 21_500,
        humidity: 40_000,
        pm10: 1,
        pm25: 2,
        co2: 400_000,
        voc: 3,
    };
    let reading = Reading::from_request(&request, 777);
    assert_eq!(reading.date, 777);
    assert_eq!(reading.id, 0);
    assert_eq!(reading.station_id, 0);
    assert_eq!(reading.location_id, None);
    assert_eq!(reading.temperature, 21_500);
    assert_eq!(reading.humidity, 40_000);
    assert_eq!(reading.pm10, 1);
    assert_eq!(reading.pm25, 2);
    assert_eq!(reading.co2, 400_000);
    assert_eq!(reading.voc, 3);
    assert_eq!(request.clone(), request);
}

#[test]
fn reading_from_a_request_reads_the_clock() {
    let before = chrono::Utc::now().timestamp_millis();
    let reading = Reading::from(AddReadingRequest {
        station_token: text("alpha"),
        date: None,
        temperature: 1,
        humidity: 2,
        pm10: 3,
        pm25: 4,
        co2: 5,
        voc: 6,
    });
    let after = chrono::Utc::now().timestamp_millis();
    assert!(before <= reading.date && reading.date <= after);
    assert_eq!(reading, Reading::new(0, None, reading.date, 1, 2, 3, 4, 5, 6));
    let dated = Reading::from(AddReadingRequest {
        station_token: text("alpha"),
        date: Some(42),
        temperature: 1,
        humidity: 2,
        pm10: 3,
        pm25: 4,
        co2: 5,
        voc: 6,
    });
    assert_eq!(dated, Reading::new(0, None, 42, 1, 2, 3, 4, 5, 6));
}

#[test]
fn reading_from_request_keeps_a_given_time() {
    let request = AddReadingRequest {
        station_token: text("alpha"),
        date: Some(123),
        temperature: 0,
        humidity: 0,
        pm10: 0,
        pm25: 0,
        co2: 0,
        voc: 0,
    };
    assert_eq!(Reading::from_request(&request, 777).date, 123);
}

#[test]
fn error_messages() {
    assert_eq!(RepositoryError::NotFound.message(), "not found");
    assert_eq!(RepositoryError::NoData.message(), "no data");
    assert_eq!(
        RepositoryError::StorageError(StorageFault::Conflict).message(),
        "storage error: token already registered"
    );
    assert_eq!(
        RepositoryError::StorageError(StorageFault::ForeignKey).message(),
        "storage error: referenced row is missing"
    );
    assert_eq!(
        RepositoryError::StorageError(StorageFault::Exhausted).message(),
        "storage error: identifiers exhausted"
    );
    assert_eq!(
        RepositoryError::StorageError(StorageFault::InvalidLimit).message(),
        "storage error: negative row limit"
    );
    assert_eq!(
        RepositoryError::StorageError(StorageFault::Malformed).message(),
        "storage error: inconsistent rows"
    );
}
