//! Locations: the address records that stations point to.
use vstd::prelude::*;
use vstd::std_specs::convert::FromSpecImpl;
use crate::api::station::AddLocationRequest;

verus! {

/// A physical address. It remembers the token of the station that asked for
/// it, but nothing in the store depends on that token. Coordinates are in
/// millionths of a degree. An `id` of 0 marks a location that the store has
/// not numbered yet.
#[derive(Debug, PartialEq, Eq)]
pub struct Location {
    pub id: i32,
    pub station_token: String,
    pub latitude: i32,
    pub longitude: i32,
    pub country: String,
    pub province: String,
    pub city: String,
    pub street: String,
    pub number: String,
}

/// The mathematical value of a [`Location`].
pub struct LocationView {
    pub id: i32,
    pub station_token: Seq<char>,
    pub latitude: i32,
    pub longitude: i32,
    pub country: Seq<char>,
    pub province: Seq<char>,
    pub city: Seq<char>,
    pub street: Seq<char>,
    pub number: Seq<char>,
}

impl View for Location {
    type V = LocationView;

    open spec fn view(&self) -> LocationView {
        LocationView {
            id: self.id,
            station_token: self.station_token@,
            latitude: self.latitude,
            longitude: self.longitude,
            country: self.country@,
            province: self.province@,
            city: self.city@,
            street: self.street@,
            number: self.number@,
        }
    }
}

impl LocationView {
    /// The same address under another id.
    pub open spec fn with_id(self, id: i32) -> LocationView {
        LocationView { id, ..self }
    }
}

impl Clone for Location {
    fn clone(&self) -> (copy: Self)
        ensures
            copy == *self,
    {
        Location {
            id: self.id,
            station_token: self.station_token.clone(),
            latitude: self.latitude,
            longitude: self.longitude,
            country: self.country.clone(),
            province: self.province.clone(),
            city: self.city.clone(),
            street: self.street.clone(),
            number: self.number.clone(),
        }
    }
}

impl Location {
    /// The location that a request describes, not yet numbered.
    pub open spec fn of_request(request: AddLocationRequest) -> Location {
        Location {
            id: 0,
            station_token: request.station_token,
            latitude: request.latitude,
            longitude: request.longitude,
            country: request.country,
            province: request.province,
            city: request.city,
            street: request.street,
            number: request.number,
        }
    }

    /// A location that the store has not numbered yet.
    pub fn new(
        station_token: String,
        latitude: i32,
        longitude: i32,
        country: String,
        province: String,
        city: String,
        street: String,
        number: String,
    ) -> (location: Self)
        ensures
            location == (Location {
                id: 0,
                station_token,
                latitude,
                longitude,
                country,
                province,
                city,
                street,
                number,
            }),
    {
        Location {
            id: 0,
            station_token,
            latitude,
            longitude,
            country,
            province,
            city,
            street,
            number,
        }
    }
}

impl From<AddLocationRequest> for Location {
    /// The location that a request describes, not yet numbered.
    fn from(request: AddLocationRequest) -> (location: Self) {
        Location::new(
            request.station_token,
            request.latitude,
            request.longitude,
            request.country,
            request.province,
            request.city,
            request.street,
            request.number,
        )
    }
}

impl FromSpecImpl<AddLocationRequest> for Location {
    open spec fn obeys_from_spec() -> bool {
        true
    }

    open spec fn from_spec(request: AddLocationRequest) -> Location {
        Location::of_request(request)
    }
}

} // verus!
