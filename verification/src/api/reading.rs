//! Requests about readings.
use vstd::prelude::*;

verus! {

/// A sample reported by a station. When `date` is absent the time of
/// ingestion is used.
#[derive(Debug, PartialEq, Eq)]
pub struct AddReadingRequest {
    pub station_token: String,
    pub date: Option<i64>,
    pub temperature: i32,
    pub humidity: i32,
    pub pm10: i32,
    pub pm25: i32,
    pub co2: i32,
    pub voc: i32,
}

impl Clone for AddReadingRequest {
    fn clone(&self) -> (copy: Self)
        ensures
            copy == *self,
    {
        AddReadingRequest {
            station_token: self.station_token.clone(),
            date: self.date,
            temperature: self.temperature,
            humidity: self.humidity,
            pm10: self.pm10,
            pm25: self.pm25,
            co2: self.co2,
            voc: self.voc,
        }
    }
}

} // verus!
