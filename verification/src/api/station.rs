//! Requests and responses about stations and their locations.
use vstd::prelude::*;
use crate::models::reading::Reading;
use crate::models::station::Station;
use crate::services::reading_service::ReadingService;

verus! {

/// The address of the place where a station stands. Coordinates are in
/// millionths of a degree.
#[derive(Debug, PartialEq, Eq)]
pub struct AddLocationRequest {
    pub latitude: i32,
    pub longitude: i32,
    pub country: String,
    pub province: String,
    pub city: String,
    pub street: String,
    pub number: String,
    pub station_token: String,
}

/// A station asking to be registered, with or without a location.
#[derive(Debug, PartialEq, Eq)]
pub struct AddStationRequest {
    pub token: String,
    pub hw_version: i32,
    pub sw_version: i32,
    pub location: Option<AddLocationRequest>,
}

/// A partial update of a station: only the fields that are present are
/// applied.
#[derive(Clone, Copy, Debug, PartialEq, Eq)]
pub struct UpdateStationRequest {
    pub hw_version: Option<i32>,
    pub sw_version: Option<i32>,
    pub last_online: Option<i64>,
}

/// A station together with its most recent reading, if it has one.
#[derive(Debug, PartialEq, Eq)]
pub struct GetStationResponse {
    pub station: Station,
    pub last_reading: Option<Reading>,
}

/// Pairs `station` with the most recent reading stored under its token. The
/// reading is absent when the station has none, or when no station is
/// registered under that token.
pub fn create_station_response(service: &ReadingService, station: Station) -> (response:
    GetStationResponse)
    requires
        service.wf(),
    ensures
        response.station == station,
        response.last_reading == service@.last_reading(station.token@),
{
    let last_reading = match service.get_latest_reading(station.token.clone()) {
        Ok(reading) => Some(reading),
        Err(_) => None,
    };
    GetStationResponse { station, last_reading }
}

/// Pairs each of `stations` with its most recent reading, in the same
/// order: see [`create_station_response`].
pub fn create_station_responses(service: &ReadingService, stations: Vec<Station>) -> (responses:
    Vec<GetStationResponse>)
    requires
        service.wf(),
    ensures
        responses.len() == stations.len(),
        forall|i: int|
            0 <= i < stations.len() ==> (#[trigger] responses[i]).station == stations[i]
                && responses[i].last_reading == service@.last_reading(stations[i].token@),
{
    let mut responses: Vec<GetStationResponse> = Vec::with_capacity(stations.len());
    let mut i: usize = 0;
    while i < stations.len()
        invariant
            service.wf(),
            i <= stations.len(),
            responses.len() == i,
            forall|k: int|
                0 <= k < i ==> (#[trigger] responses[k]).station == stations[k]
                    && responses[k].last_reading == service@.last_reading(stations[k].token@),
        decreases stations.len() - i,
    {
        let response = create_station_response(service, stations[i].clone());
        responses.push(response);
        i = i + 1;
    }
    responses
}

} // verus!
