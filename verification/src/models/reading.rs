//! Readings and the averages derived from them.
use vstd::prelude::*;
use vstd::std_specs::convert::FromSpecImpl;
use crate::api::reading::AddReadingRequest;
use crate::clock::now_millis;

verus! {

/// One timestamped telemetry sample of a station.
///
/// `date` is in milliseconds since the Unix epoch. The six metrics are in
/// thousandths of their unit. `location_id` is the location the station was
/// linked to when the sample was taken; later re-linking does not change it.
/// An `id` of 0 marks a reading that the store has not numbered yet.
#[derive(Clone, Copy, Debug, PartialEq, Eq)]
pub struct Reading {
    pub id: i32,
    pub station_id: i32,
    pub location_id: Option<i32>,
    pub date: i64,
    pub temperature: i32,
    pub humidity: i32,
    pub pm10: i32,
    pub pm25: i32,
    pub co2: i32,
    pub voc: i32,
}

/// The six quantities that a reading carries.
#[derive(Clone, Copy, Debug, PartialEq, Eq)]
pub enum Metric {
    Temperature,
    Humidity,
    Pm10,
    Pm25,
    Co2,
    Voc,
}

/// The mean of each metric over one time window.
#[derive(Clone, Copy, Debug, PartialEq, Eq)]
pub struct AverageReadingValues {
    pub temperature: i32,
    pub humidity: i32,
    pub pm10: i32,
    pub pm25: i32,
    pub co2: i32,
    pub voc: i32,
}

/// The means of a station's metrics over the last hour and the last day.
#[derive(Clone, Copy, Debug, PartialEq, Eq)]
pub struct AverageReading {
    pub hour: AverageReadingValues,
    pub day: AverageReadingValues,
}

/// The sum of metric `m` over the readings `s`.
pub open spec fn metric_sum(s: Seq<Reading>, m: Metric) -> int
    decreases s.len(),
{
    if s.len() == 0 {
        0
    } else {
        metric_sum(s.drop_last(), m) + s.last().metric(m)
    }
}

/// `total / count`, rounded toward zero.
pub open spec fn quotient_toward_zero(total: int, count: int) -> int
    recommends
        count > 0,
{
    if total >= 0 {
        total / count
    } else {
        -((-total) / count)
    }
}

/// The arithmetic mean of metric `m` over the readings `s`, rounded toward
/// zero to a whole thousandth, and 0 when there are no readings.
pub open spec fn metric_mean(s: Seq<Reading>, m: Metric) -> int {
    if s.len() == 0 {
        0
    } else {
        quotient_toward_zero(metric_sum(s, m), s.len() as int)
    }
}

/// The sum over a prefix grows by the next reading's value.
proof fn lemma_metric_sum_step(s: Seq<Reading>, m: Metric, i: int)
    requires
        0 <= i < s.len(),
    ensures
        metric_sum(s.take(i + 1), m) == metric_sum(s.take(i), m) + s[i].metric(m),
{
    assert(s.take(i + 1).drop_last() =~= s.take(i));
    assert(s.take(i + 1).last() == s[i]);
}

/// A quotient of a bounded total stays within the bound.
proof fn lemma_quotient_bound(total: int, count: int, bound: int)
    requires
        count > 0,
        bound >= 0,
        0 <= total <= count * bound,
    ensures
        0 <= total / count <= bound,
{
    vstd::arithmetic::div_mod::lemma_div_is_ordered(total, count * bound, count);
    vstd::arithmetic::div_mod::lemma_div_multiples_vanish(bound, count);
    vstd::arithmetic::div_mod::lemma_div_pos_is_pos(total, count);
    assert(count * bound == bound * count) by (nonlinear_arith);
}

impl Reading {
    /// The value of metric `m` in this reading.
    pub open spec fn metric(self, m: Metric) -> int {
        match m {
            Metric::Temperature => self.temperature as int,
            Metric::Humidity => self.humidity as int,
            Metric::Pm10 => self.pm10 as int,
            Metric::Pm25 => self.pm25 as int,
            Metric::Co2 => self.co2 as int,
            Metric::Voc => self.voc as int,
        }
    }

    /// The reading that a request describes, taken at `now` when the request
    /// names no time. It belongs to no station yet.
    pub open spec fn of_request(request: AddReadingRequest, now: i64) -> Reading {
        Reading {
            id: 0,
            station_id: 0,
            location_id: None,
            date: match request.date {
                Some(date) => date,
                None => now,
            },
            temperature: request.temperature,
            humidity: request.humidity,
            pm10: request.pm10,
            pm25: request.pm25,
            co2: request.co2,
            voc: request.voc,
        }
    }

    /// A reading of station `station_id`, not yet numbered by the store.
    pub fn new(
        station_id: i32,
        location_id: Option<i32>,
        date: i64,
        temperature: i32,
        humidity: i32,
        pm10: i32,
        pm25: i32,
        co2: i32,
        voc: i32,
    ) -> (reading: Self)
        ensures
            reading == (Reading {
                id: 0,
                station_id,
                location_id,
                date,
                temperature,
                humidity,
                pm10,
                pm25,
                co2,
                voc,
            }),
    {
        Reading {
            id: 0,
            station_id,
            location_id,
            date,
            temperature,
            humidity,
            pm10,
            pm25,
            co2,
            voc,
        }
    }

    /// Builds the reading that `request` describes. The request's own time is
    /// kept; a request without one is stamped with `now`.
    pub fn from_request(request: &AddReadingRequest, now: i64) -> (reading: Self)
        ensures
            reading == Reading::of_request(*request, now),
    {
        let date: i64 = match request.date {
            Some(date) => date,
            None => now,
        };
        Reading {
            id: 0,
            station_id: 0,
            location_id: None,
            date,
            temperature: request.temperature,
            humidity: request.humidity,
            pm10: request.pm10,
            pm25: request.pm25,
            co2: request.co2,
            voc: request.voc,
        }
    }

    /// Reads one metric.
    pub fn value(&self, m: Metric) -> (v: i32)
        ensures
            v == self.metric(m),
    {
        match m {
            Metric::Temperature => self.temperature,
            Metric::Humidity => self.humidity,
            Metric::Pm10 => self.pm10,
            Metric::Pm25 => self.pm25,
            Metric::Co2 => self.co2,
            Metric::Voc => self.voc,
        }
    }
}

impl From<AddReadingRequest> for Reading {
    /// The reading that a request describes, stamped with the time of the
    /// call when the request names no time. It belongs to no station yet.
    fn from(request: AddReadingRequest) -> (reading: Self)
        ensures
            exists|now: i64| reading == #[trigger] Reading::of_request(request, now),
            request.date matches Some(date) ==> reading.date == date,
    {
        let now: i64 = now_millis();
        Reading::from_request(&request, now)
    }
}

impl FromSpecImpl<AddReadingRequest> for Reading {
    /// The time is read at the call, so the result is not a function of the
    /// request.
    open spec fn obeys_from_spec() -> bool {
        false
    }

    open spec fn from_spec(request: AddReadingRequest) -> Reading {
        arbitrary()
    }
}

/// The mean of one metric over `values`: see [`metric_mean`].
pub fn mean_of(values: &Vec<Reading>, m: Metric) -> (mean: i32)
    ensures
        mean == metric_mean(values@, m),
{
    let n: usize = values.len();
    if n == 0 {
        return 0;
    }
    let mut total: i128 = 0;
    let mut i: usize = 0;
    while i < n
        invariant
            n == values.len(),
            0 <= i <= n,
            total == metric_sum(values@.take(i as int), m),
            -(i as int) * 0x8000_0000 <= total <= (i as int) * 0x8000_0000,
        decreases n - i,
    {
        proof {
            lemma_metric_sum_step(values@, m, i as int);
        }
        total = total + (values[i].value(m) as i128);
        i = i + 1;
    }
    assert(values@.take(n as int) =~= values@);
    let count: i128 = n as i128;
    if total >= 0 {
        proof {
            lemma_quotient_bound(total as int, count as int, 0x8000_0000);
        }
        let quotient: i128 = total / count;
        assert(quotient != 0x8000_0000) by {
            // The largest value of a metric is one less than the bound.
            lemma_mean_below_bound(values@, m);
        }
        quotient as i32
    } else {
        let magnitude: i128 = -total;
        proof {
            lemma_quotient_bound(magnitude as int, count as int, 0x8000_0000);
        }
        let quotient: i128 = magnitude / count;
        (-quotient) as i32
    }
}

/// No sum of `n` metric values reaches `n * 2^31`.
proof fn lemma_mean_below_bound(s: Seq<Reading>, m: Metric)
    requires
        s.len() > 0,
    ensures
        metric_sum(s, m) <= s.len() * 0x7fff_ffff,
        metric_sum(s, m) >= 0 ==> metric_sum(s, m) / (s.len() as int) <= 0x7fff_ffff,
    decreases s.len(),
{
    let n = s.len() as int;
    if n > 1 {
        lemma_mean_below_bound(s.drop_last(), m);
    } else {
        assert(metric_sum(s.drop_last(), m) == 0);
    }
    assert(s.last().metric(m) <= 0x7fff_ffff);
    assert(metric_sum(s, m) <= n * 0x7fff_ffff);
    if metric_sum(s, m) >= 0 {
        lemma_quotient_bound(metric_sum(s, m), n, 0x7fff_ffff);
    }
}

impl Default for AverageReadingValues {
    /// All six means are zero.
    fn default() -> (values: Self)
        ensures
            values == (AverageReadingValues {
                temperature: 0,
                humidity: 0,
                pm10: 0,
                pm25: 0,
                co2: 0,
                voc: 0,
            }),
    {
        AverageReadingValues { temperature: 0, humidity: 0, pm10: 0, pm25: 0, co2: 0, voc: 0 }
    }
}

impl AverageReadingValues {
    /// The means of the six metrics over `s`.
    pub open spec fn of(s: Seq<Reading>) -> AverageReadingValues {
        AverageReadingValues {
            temperature: metric_mean(s, Metric::Temperature) as i32,
            humidity: metric_mean(s, Metric::Humidity) as i32,
            pm10: metric_mean(s, Metric::Pm10) as i32,
            pm25: metric_mean(s, Metric::Pm25) as i32,
            co2: metric_mean(s, Metric::Co2) as i32,
            voc: metric_mean(s, Metric::Voc) as i32,
        }
    }

    /// Averages each metric over `values`. With no readings every mean is 0.
    pub fn new(values: Vec<Reading>) -> (averages: Self)
        ensures
            averages == AverageReadingValues::of(values@),
            averages.temperature == metric_mean(values@, Metric::Temperature),
            averages.humidity == metric_mean(values@, Metric::Humidity),
            averages.pm10 == metric_mean(values@, Metric::Pm10),
            averages.pm25 == metric_mean(values@, Metric::Pm25),
            averages.co2 == metric_mean(values@, Metric::Co2),
            averages.voc == metric_mean(values@, Metric::Voc),
            values@.len() == 0 ==> averages == (AverageReadingValues {
                temperature: 0,
                humidity: 0,
                pm10: 0,
                pm25: 0,
                co2: 0,
                voc: 0,
            }),
    {
        AverageReadingValues {
            temperature: mean_of(&values, Metric::Temperature),
            humidity: mean_of(&values, Metric::Humidity),
            pm10: mean_of(&values, Metric::Pm10),
            pm25: mean_of(&values, Metric::Pm25),
            co2: mean_of(&values, Metric::Co2),
            voc: mean_of(&values, Metric::Voc),
        }
    }
}

impl AverageReading {
    /// Averages the readings of the last hour and those of the last day,
    /// each window on its own.
    pub fn new(hour_readings: Vec<Reading>, day_readings: Vec<Reading>) -> (average: Self)
        ensures
            average.hour == AverageReadingValues::of(hour_readings@),
            average.day == AverageReadingValues::of(day_readings@),
    {
        let hour = AverageReadingValues::new(hour_readings);
        let day = AverageReadingValues::new(day_readings);
        AverageReading { hour, day }
    }
}

/// A metric that has the same value in every reading has that value as its
/// mean.
pub proof fn lemma_mean_of_constant(s: Seq<Reading>, m: Metric, v: int)
    requires
        s.len() > 0,
        forall|i: int| 0 <= i < s.len() ==> (#[trigger] s[i]).metric(m) == v,
    ensures
        metric_sum(s, m) == s.len() * v,
        metric_mean(s, m) == v,
    decreases s.len(),
{
    let n = s.len() as int;
    if n > 1 {
        lemma_mean_of_constant(s.drop_last(), m, v);
        assert(metric_sum(s, m) == (n - 1) * v + v);
        assert((n - 1) * v + v == n * v) by (nonlinear_arith);
    } else {
        assert(s.drop_last().len() == 0);
        assert(metric_sum(s.drop_last(), m) == 0);
        assert(s.last() == s[0]);
        assert(1 * v == v);
    }
    if v >= 0 {
        assert(n * v >= 0) by (nonlinear_arith)
            requires
                n > 0,
                v >= 0,
        ;
        vstd::arithmetic::div_mod::lemma_div_multiples_vanish(v, n);
    } else {
        assert(n * v < 0) by (nonlinear_arith)
            requires
                n > 0,
                v < 0,
        ;
        assert(-(n * v) == n * (-v)) by (nonlinear_arith);
        vstd::arithmetic::div_mod::lemma_div_multiples_vanish(-v, n);
    }
}

} // verus!
