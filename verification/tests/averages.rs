use auspex::clock::window_start_of;
use auspex::clock::HOUR_MILLIS;
use auspex::clock::MINUTE_MILLIS;
use auspex::models::reading::mean_of;
use auspex::models::reading::AverageReading;
use auspex::models::reading::AverageReadingValues;
use auspex::models::reading::Metric;
use auspex::models::reading::Reading;

fn sample(value: i32) -> Reading {
    Reading::new(1, None, 0, value, value, value, value, value, value)
}

#[test]
fn average_of_no_readings_is_zero() {
    let averages = AverageReadingValues::new(Vec::new());
    assert_eq!(averages, AverageReadingValues::default());
    assert_eq!(averages.temperature, 0);
    assert_eq!(averages.voc, 0);
}

#[test]
fn average_of_ten_and_twenty_is_fifteen() {
    let averages = AverageReadingValues::new(vec![sample(10_000), sample(20_000)]);
    assert_eq!(averages.temperature, 15_000);
    assert_eq!(averages.humidity, 15_000);
    assert_eq!(averages.pm10, 15_000);
    assert_eq!(averages.pm25, 15_000);
    assert_eq!(averages.co2, 15_000);
    assert_eq!(averages.voc, 15_000);
}

#[test]
fn average_windows_are_independent() {
    let average = AverageReading::new(Vec::new(), vec![sample(10_000), sample(20_000)]);
    assert_eq!(average.hour, AverageReadingValues::default());
    assert_eq!(average.day.co2, 15_000);
}

#[test]
fn mean_rounds_toward_zero() {
    assert_eq!(mean_of(&vec![sample(1), sample(2)], Metric::Pm10), 1);
    assert_eq!(mean_of(&vec![sample(-1), sample(-2)], Metric::Pm10), -1);
    assert_eq!(mean_of(&vec![sample(i32::MAX), sample(i32::MAX)], Metric::Co2), i32::MAX);
    assert_eq!(mean_of(&vec![sample(i32::MIN), sample(i32::MIN)], Metric::Co2), i32::MIN);
}

#[test]
fn window_start_is_exact_for_every_input() {
    assert_eq!(HOUR_MILLIS, 3_600_000);
    assert_eq!(MINUTE_MILLIS, 60_000);
    assert_eq!(window_start_of(10_000_000, 2, HOUR_MILLIS), 2_800_000);
    assert_eq!(window_start_of(0, 5, MINUTE_MILLIS), -300_000);
    assert_eq!(window_start_of(7, -1, HOUR_MILLIS), 3_600_007);
    assert_eq!(
        window_start_of(i64::MIN, i64::MAX, i64::MAX),
        i128::from(i64::MIN) - i128::from(i64::MAX) * i128::from(i64::MAX)
    );
    assert_eq!(
        window_start_of(i64::MAX, i64::MIN, i64::MAX),
        i128::from(i64::MAX) - i128::from(i64::MIN) * i128::from(i64::MAX)
    );
}
