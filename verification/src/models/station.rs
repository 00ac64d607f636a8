//! Stations: the registered sensor devices.
use vstd::prelude::*;
use vstd::std_specs::convert::FromSpecImpl;
use crate::api::station::AddStationRequest;
use crate::api::station::UpdateStationRequest;
use crate::clock::now_millis;
use crate::models::location::Location;
use crate::models::location::LocationView;
use crate::repository::queries::station::StationRecord;
use crate::repository::queries::station::StationRecordView;

verus! {

/// The number of characters in a station's `uid`.
pub const UID_LENGTH: usize = 36;

/// A registered sensor device.
///
/// `id` is assigned by the store, and is 0 until then. `uid` is generated
/// once, when the value is created, and never changes. `token` is chosen by
/// the caller and is what every lookup goes by. `location` is filled in only
/// by lookups that ask for it; the store itself keeps `location_id` alone.
#[derive(Debug, PartialEq, Eq)]
pub struct Station {
    pub id: i32,
    pub uid: String,
    pub token: String,
    pub hw_version: i32,
    pub sw_version: i32,
    pub location_id: Option<i32>,
    pub location: Option<Location>,
    pub last_online: i64,
}

/// The mathematical value of a [`Station`].
pub struct StationView {
    pub id: i32,
    pub uid: Seq<char>,
    pub token: Seq<char>,
    pub hw_version: i32,
    pub sw_version: i32,
    pub location_id: Option<i32>,
    pub location: Option<LocationView>,
    pub last_online: i64,
}

impl View for Station {
    type V = StationView;

    open spec fn view(&self) -> StationView {
        StationView {
            id: self.id,
            uid: self.uid@,
            token: self.token@,
            hw_version: self.hw_version,
            sw_version: self.sw_version,
            location_id: self.location_id,
            location: match self.location {
                Some(location) => Some(location@),
                None => None,
            },
            last_online: self.last_online,
        }
    }
}

impl StationView {
    /// The station after a partial update: each field that the update names
    /// takes the new value, every other field stays.
    pub open spec fn updated(self, update: UpdateStationRequest) -> StationView {
        StationView {
            hw_version: match update.hw_version {
                Some(hw_version) => hw_version,
                None => self.hw_version,
            },
            sw_version: match update.sw_version {
                Some(sw_version) => sw_version,
                None => self.sw_version,
            },
            last_online: match update.last_online {
                Some(last_online) => last_online,
                None => self.last_online,
            },
            ..self
        }
    }

    /// The columns that the store keeps of this station.
    pub open spec fn record(self) -> StationRecordView {
        StationRecordView {
            id: self.id,
            uid: self.uid,
            token: self.token,
            hw_version: self.hw_version,
            sw_version: self.sw_version,
            location_id: self.location_id,
            last_online: self.last_online,
        }
    }
}

/// A fresh identifier for a station.
///
/// Calls `uuid::Uuid::new_v4` and formats the result with `to_string`, which
/// writes the hyphenated form: 32 hexadecimal digits in five groups, 36
/// characters in all. Which identifier comes back is left open, and two calls
/// are not claimed to differ.
#[verifier::external_body]
fn fresh_uid() -> (uid: String)
    ensures
        uid@.len() == UID_LENGTH,
{
    uuid::Uuid::new_v4().to_string()
}

impl Clone for Station {
    fn clone(&self) -> (copy: Self)
        ensures
            copy == *self,
    {
        Station {
            id: self.id,
            uid: self.uid.clone(),
            token: self.token.clone(),
            hw_version: self.hw_version,
            sw_version: self.sw_version,
            location_id: self.location_id,
            location: match &self.location {
                Some(location) => Some(location.clone()),
                None => None,
            },
            last_online: self.last_online,
        }
    }
}

impl Default for Station {
    /// An unregistered station without a token: versions 1, no location, a
    /// fresh `uid`, last seen at the time of the call.
    fn default() -> (station: Self)
        ensures
            station.id == 0,
            station.uid@.len() == UID_LENGTH,
            station.token@ == Seq::<char>::empty(),
            station.hw_version == 1,
            station.sw_version == 1,
            station.location_id is None,
            station.location is None,
    {
        Station::with_identity(fresh_uid(), now_millis())
    }
}

impl Station {
    /// The station that a stored row describes, without its location.
    pub open spec fn of_record(rec: StationRecord) -> Station {
        Station {
            id: rec.id,
            uid: rec.uid,
            token: rec.token,
            hw_version: rec.hw_version,
            sw_version: rec.sw_version,
            location_id: rec.location_id,
            location: None,
            last_online: rec.last_online,
        }
    }

    /// An unregistered station without a token that carries the identifier
    /// `uid` and was last seen at `last_online`: versions 1, no location.
    pub fn with_identity(uid: String, last_online: i64) -> (station: Self)
        ensures
            station.id == 0,
            station.uid == uid,
            station.token@ == Seq::<char>::empty(),
            station.hw_version == 1,
            station.sw_version == 1,
            station.location_id is None,
            station.location is None,
            station.last_online == last_online,
    {
        Station {
            id: 0,
            uid,
            token: String::new(),
            hw_version: 1,
            sw_version: 1,
            location_id: None,
            location: None,
            last_online,
        }
    }

    /// The unregistered station that a request describes, carrying the
    /// identifier `uid` and last seen at `last_online`: the request's token,
    /// versions and location, and no location id yet.
    pub fn from_request(request: AddStationRequest, uid: String, last_online: i64) -> (station:
        Self)
        ensures
            station.id == 0,
            station.uid == uid,
            station.token == request.token,
            station.hw_version == request.hw_version,
            station.sw_version == request.sw_version,
            station.location_id is None,
            station.location == match request.location {
                Some(location) => Some(Location::of_request(location)),
                None => None,
            },
            station.last_online == last_online,
    {
        let mut station = Station::with_identity(uid, last_online);
        station.token = request.token;
        station.hw_version = request.hw_version;
        station.sw_version = request.sw_version;
        if let Some(location) = request.location {
            station.location = Some(Location::from(location));
        }
        station
    }

    /// An unregistered station with the given token and versions, a fresh
    /// `uid` and no location, last seen at the time of the call.
    pub fn new(token: String, hw_version: i32, sw_version: i32) -> (station: Self)
        ensures
            station.id == 0,
            station.uid@.len() == UID_LENGTH,
            station.token == token,
            station.hw_version == hw_version,
            station.sw_version == sw_version,
            station.location_id is None,
            station.location is None,
    {
        let mut station = Station::default();
        station.token = token;
        station.hw_version = hw_version;
        station.sw_version = sw_version;
        station
    }

    /// Applies a partial update: a field that the update leaves out keeps its
    /// value.
    pub fn apply_update(&mut self, update: UpdateStationRequest)
        ensures
            final(self)@ == old(self)@.updated(update),
            final(self).uid == old(self).uid,
            final(self).token == old(self).token,
            final(self).location == old(self).location,
    {
        if let Some(hw_version) = update.hw_version {
            self.hw_version = hw_version;
        }
        if let Some(sw_version) = update.sw_version {
            self.sw_version = sw_version;
        }
        if let Some(last_online) = update.last_online {
            self.last_online = last_online;
        }
    }
}

impl From<AddStationRequest> for Station {
    /// The unregistered station that a request describes: the request's
    /// token, versions and location, a fresh `uid`, last seen at the time of
    /// the call.
    fn from(request: AddStationRequest) -> (station: Self)
        ensures
            station.id == 0,
            station.uid@.len() == UID_LENGTH,
            station.token == request.token,
            station.hw_version == request.hw_version,
            station.sw_version == request.sw_version,
            station.location_id is None,
            station.location == match request.location {
                Some(location) => Some(Location::of_request(location)),
                None => None,
            },
    {
        Station::from_request(request, fresh_uid(), now_millis())
    }
}

impl FromSpecImpl<AddStationRequest> for Station {
    /// The `uid` and the time are chosen at the call, so the result is not a
    /// function of the request.
    open spec fn obeys_from_spec() -> bool {
        false
    }

    open spec fn from_spec(request: AddStationRequest) -> Station {
        arbitrary()
    }
}

impl<'a> From<&'a StationRecord> for Station {
    /// The station that a stored row describes, without its location.
    fn from(rec: &'a StationRecord) -> (station: Self) {
        Station {
            id: rec.id,
            uid: rec.uid.clone(),
            token: rec.token.clone(),
            hw_version: rec.hw_version,
            sw_version: rec.sw_version,
            location_id: rec.location_id,
            location: None,
            last_online: rec.last_online,
        }
    }
}

impl<'a> FromSpecImpl<&'a StationRecord> for Station {
    open spec fn obeys_from_spec() -> bool {
        true
    }

    open spec fn from_spec(rec: &'a StationRecord) -> Station {
        Station::of_record(*rec)
    }
}

} // verus!
