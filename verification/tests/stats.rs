// Tests of the derived statistics: daily and weekly totals, baseline and
// progress, all in hundredths of a millilitre.

use brewlog::{BrewLog, BrewLogError};

fn seeded(entries: &[(&str, i64, &str)]) -> BrewLog {
    let mut log = BrewLog::new().unwrap();
    for (id, volume, date) in entries {
        log.add_beer_entry_full(
            Some(id.to_string()),
            "Beer".to_string(),
            500,
            *volume,
            date.to_string(),
            "".to_string(),
        )
        .unwrap();
    }
    log
}

#[test]
fn test_daily_consumption() {
    let mut log = BrewLog::new().unwrap();

    // Add a test entry
    log.add_beer_entry(
        "Test Beer".to_string(),
        500,
        33000,
        "Test notes".to_string(),
    )
    .unwrap();

    let today = chrono::Utc::now().date_naive().to_string();
    let consumption = log.get_daily_consumption(today);

    assert!(consumption.is_ok());
    assert_eq!(consumption.unwrap(), 33000);
}

#[test]
fn daily_consumption_sums_exactly_one_date() {
    let log = seeded(&[
        ("a", 33000, "2024-03-10"),
        ("b", 50000, "2024-03-10"),
        ("c", 25000, "2024-03-11"),
    ]);

    assert_eq!(
        log.get_daily_consumption("2024-03-10".to_string()).unwrap(),
        83000
    );
    assert_eq!(
        log.get_daily_consumption("2024-03-11".to_string()).unwrap(),
        25000
    );
    // zero, not an error, when nothing matches
    assert_eq!(
        log.get_daily_consumption("2024-03-12".to_string()).unwrap(),
        0
    );
}

#[test]
fn pale_ale_scenario() {
    let mut log = BrewLog::new().unwrap();
    log.add_beer_entry("Pale Ale".to_string(), 500, 33000, "".to_string())
        .unwrap();
    let today = chrono::Utc::now().date_naive().to_string();
    assert_eq!(log.get_daily_consumption(today).unwrap(), 33000);
}

#[test]
fn weekly_consumption_covers_seven_days_inclusive() {
    let log = seeded(&[
        ("start", 10000, "2024-03-10"),
        ("mid", 20000, "2024-03-13"),
        ("last", 30000, "2024-03-16"),
        ("past", 40000, "2024-03-17"),
    ]);

    // [2024-03-10, 2024-03-16] inclusive; the 17th lies outside
    assert_eq!(
        log.get_weekly_consumption("2024-03-10".to_string()).unwrap(),
        60000
    );
}

#[test]
fn weekly_consumption_rejects_unparseable_dates() {
    let log = BrewLog::new().unwrap();
    let r = log.get_weekly_consumption("not-a-date".to_string());
    assert!(matches!(r, Err(BrewLogError::InvalidInput(_))));
}

#[test]
fn baseline_averages_per_entry() {
    let log = seeded(&[("a", 33000, "2024-03-10"), ("b", 50000, "2024-03-10")]);

    let baseline = log
        .calculate_baseline("2024-03-10".to_string(), "2024-03-10".to_string())
        .unwrap();
    // (330.0 + 500.0) / 2 entries = 415.0, and 415.0 * 7 = 2905.0
    assert_eq!(baseline.average_daily_consumption, 41500);
    assert_eq!(baseline.average_weekly_consumption, 290500);
}

#[test]
fn baseline_with_generated_ids() {
    let mut log = BrewLog::new().unwrap();
    log.add_beer_entry_full(
        None,
        "A".to_string(),
        500,
        33000,
        "2024-06-01".to_string(),
        "".to_string(),
    )
    .unwrap();
    log.add_beer_entry_full(
        None,
        "B".to_string(),
        500,
        50000,
        "2024-06-01".to_string(),
        "".to_string(),
    )
    .unwrap();

    let baseline = log
        .calculate_baseline("2024-06-01".to_string(), "2024-06-01".to_string())
        .unwrap();
    assert_eq!(baseline.average_daily_consumption, 41500);
    assert_eq!(baseline.average_weekly_consumption, 290500);
}

#[test]
fn baseline_on_empty_range_is_not_found() {
    let log = BrewLog::new().unwrap();
    let r = log.calculate_baseline("2024-03-10".to_string(), "2024-03-10".to_string());
    assert!(matches!(r, Err(BrewLogError::NotFound(_))));
}

#[test]
fn progress_keeps_the_zero_placeholder() {
    let log = seeded(&[("a", 33000, "2024-03-10"), ("b", 50000, "2024-03-11")]);

    let stats = log
        .get_progress_stats("2024-03-01".to_string(), "2024-03-31".to_string())
        .unwrap();
    assert_eq!(stats.current_daily_average, 41500);
    assert_eq!(stats.current_weekly_average, 290500);
    assert_eq!(stats.reduction_percentage, 0);
    assert_eq!(stats.period_start, "2024-03-01");
    assert_eq!(stats.period_end, "2024-03-31");
}

#[test]
fn progress_on_empty_period_is_not_found() {
    let log = BrewLog::new().unwrap();
    let r = log.get_progress_stats("2024-03-01".to_string(), "2024-03-31".to_string());
    assert!(matches!(r, Err(BrewLogError::NotFound(_))));
}
