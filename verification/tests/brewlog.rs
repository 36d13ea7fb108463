// Integration tests for the entry store: creation, validation, queries,
// updates, deletion and goal handling. Quantities are fixed-point integers
// in hundredths of a unit: 5.0 % is 500, 330.0 ml is 33000.

use brewlog::{BeerEntry, BrewLog, BrewLogError};

fn today() -> String {
    chrono::Utc::now().date_naive().to_string()
}

#[test]
fn test_brew_log_creation() {
    let log = BrewLog::new();
    assert!(log.is_ok());
}

#[test]
fn test_add_beer_entry() {
    let mut log = BrewLog::new().unwrap();

    let result = log.add_beer_entry(
        "Test Beer".to_string(),
        500,
        33000,
        "Test notes".to_string(),
    );

    assert!(result.is_ok());
}

#[test]
fn test_add_beer_entry_validation() {
    let mut log = BrewLog::new().unwrap();

    // Test empty name
    let result = log.add_beer_entry("".to_string(), 500, 33000, "Test notes".to_string());
    assert!(result.is_err());

    // Test invalid alcohol percentage
    let result = log.add_beer_entry(
        "Test Beer".to_string(),
        10100,
        33000,
        "Test notes".to_string(),
    );
    assert!(result.is_err());

    // Test invalid volume
    let result = log.add_beer_entry(
        "Test Beer".to_string(),
        500,
        -100,
        "Test notes".to_string(),
    );
    assert!(result.is_err());
}

#[test]
fn test_get_beer_entries() {
    let mut log = BrewLog::new().unwrap();

    // Add a test entry
    log.add_beer_entry(
        "Test Beer".to_string(),
        500,
        33000,
        "Test notes".to_string(),
    )
    .unwrap();

    let today = today();
    let entries = log.get_beer_entries(today.clone(), today);

    assert!(entries.is_ok());
    let entries = entries.unwrap();
    assert!(!entries.is_empty());
    assert_eq!(entries[0].name, "Test Beer");
    assert_eq!(entries[0].alcohol_percentage, 500);
    assert_eq!(entries[0].volume_ml, 33000);
}

#[test]
fn test_set_and_get_goals() {
    let mut log = BrewLog::new().unwrap();

    let today = today();
    let end_date = (chrono::Utc::now().date_naive() + chrono::Duration::days(30)).to_string();

    let result = log.set_consumption_goal(50000, 350000, today, end_date);
    assert!(result.is_ok());

    let goal = log.get_current_goal();
    assert!(goal.is_ok());
    let goal = goal.unwrap();
    assert_eq!(goal.daily_target, 50000);
    assert_eq!(goal.weekly_target, 350000);
}

#[test]
fn rejected_inputs_persist_nothing() {
    let mut log = BrewLog::new().unwrap();

    let bad: Vec<Result<(), BrewLogError>> = vec![
        log.add_beer_entry("".to_string(), 500, 33000, "x".to_string()),
        log.add_beer_entry("Beer".to_string(), -100, 33000, "x".to_string()),
        log.add_beer_entry("Beer".to_string(), 10100, 33000, "x".to_string()),
        log.add_beer_entry("Beer".to_string(), 500, 0, "x".to_string()),
    ];
    for r in bad {
        assert!(matches!(r, Err(BrewLogError::InvalidInput(_))));
    }

    let today = today();
    let entries = log.get_beer_entries(today.clone(), today).unwrap();
    assert!(entries.is_empty());
}

#[test]
fn get_is_idempotent_and_ordered() {
    let mut log = BrewLog::new().unwrap();

    log.add_beer_entry_full(
        Some("a".to_string()),
        "Old".to_string(),
        400,
        50000,
        "2024-03-08".to_string(),
        "".to_string(),
    )
    .unwrap();
    log.add_beer_entry_full(
        Some("b".to_string()),
        "First of the day".to_string(),
        500,
        33000,
        "2024-03-10".to_string(),
        "".to_string(),
    )
    .unwrap();
    log.add_beer_entry_full(
        Some("c".to_string()),
        "Second of the day".to_string(),
        600,
        25000,
        "2024-03-10".to_string(),
        "".to_string(),
    )
    .unwrap();

    let first = log
        .get_beer_entries("2024-03-01".to_string(), "2024-03-31".to_string())
        .unwrap();
    let second = log
        .get_beer_entries("2024-03-01".to_string(), "2024-03-31".to_string())
        .unwrap();

    // identical results on repeated calls
    assert_eq!(first.len(), second.len());
    for (x, y) in first.iter().zip(second.iter()) {
        assert_eq!(x.id, y.id);
        assert_eq!(x.name, y.name);
        assert_eq!(x.date, y.date);
    }

    // date descending, ties broken by creation descending (newest first)
    let ids: Vec<&str> = first.iter().map(|e| e.id.as_str()).collect();
    assert_eq!(ids, vec!["c", "b", "a"]);
}

#[test]
fn missing_ids_fail_not_found_and_change_nothing() {
    let mut log = BrewLog::new().unwrap();
    log.add_beer_entry_full(
        Some("real".to_string()),
        "Beer".to_string(),
        500,
        33000,
        "2024-03-10".to_string(),
        "".to_string(),
    )
    .unwrap();

    let r = log.delete_beer_entry("ghost".to_string());
    assert!(matches!(r, Err(BrewLogError::NotFound(_))));

    let r = log.update_beer_entry(
        "ghost".to_string(),
        "New".to_string(),
        500,
        33000,
        "".to_string(),
    );
    assert!(matches!(r, Err(BrewLogError::NotFound(_))));

    let r = log.update_beer_entry_date("ghost".to_string(), "2024-03-11".to_string());
    assert!(matches!(r, Err(BrewLogError::NotFound(_))));

    // the dataset is untouched
    let entries = log
        .get_beer_entries("2024-03-10".to_string(), "2024-03-10".to_string())
        .unwrap();
    assert_eq!(entries.len(), 1);
    assert_eq!(entries[0].name, "Beer");
}

#[test]
fn second_goal_fully_replaces_first() {
    let mut log = BrewLog::new().unwrap();

    log.set_consumption_goal(50000, 350000, "2024-01-01".to_string(), "2024-02-01".to_string())
        .unwrap();
    log.set_consumption_goal(20000, 140000, "2024-03-01".to_string(), "2024-04-01".to_string())
        .unwrap();

    let goal = log.get_current_goal().unwrap();
    assert_eq!(goal.daily_target, 20000);
    assert_eq!(goal.weekly_target, 140000);
    assert_eq!(goal.start_date, "2024-03-01");
    assert_eq!(goal.end_date, "2024-04-01");
}

#[test]
fn negative_goal_targets_are_rejected() {
    let mut log = BrewLog::new().unwrap();
    let r = log.set_consumption_goal(-1, 350000, "a".to_string(), "b".to_string());
    assert!(matches!(r, Err(BrewLogError::InvalidInput(_))));
    let r = log.set_consumption_goal(50000, -1, "a".to_string(), "b".to_string());
    assert!(matches!(r, Err(BrewLogError::InvalidInput(_))));
    assert!(matches!(
        log.get_current_goal(),
        Err(BrewLogError::NotFound(_))
    ));
}

#[test]
fn add_full_upserts_on_equal_id() {
    let mut log = BrewLog::new().unwrap();

    log.add_beer_entry_full(
        Some("x".to_string()),
        "Before".to_string(),
        500,
        33000,
        "2024-03-10".to_string(),
        "old".to_string(),
    )
    .unwrap();
    log.add_beer_entry_full(
        Some("x".to_string()),
        "After".to_string(),
        700,
        44000,
        "2024-03-12".to_string(),
        "new".to_string(),
    )
    .unwrap();

    let entries = log
        .get_beer_entries("2024-03-01".to_string(), "2024-03-31".to_string())
        .unwrap();
    assert_eq!(entries.len(), 1);
    let e: &BeerEntry = &entries[0];
    assert_eq!(e.id, "x");
    assert_eq!(e.name, "After");
    assert_eq!(e.alcohol_percentage, 700);
    assert_eq!(e.volume_ml, 44000);
    assert_eq!(e.date, "2024-03-12");
    assert_eq!(e.notes, "new");
}

#[test]
fn update_changes_fields_but_not_date() {
    let mut log = BrewLog::new().unwrap();
    log.add_beer_entry_full(
        Some("x".to_string()),
        "Before".to_string(),
        500,
        33000,
        "2024-03-10".to_string(),
        "old".to_string(),
    )
    .unwrap();

    // invalid replacement values are rejected
    let r = log.update_beer_entry("x".to_string(), "".to_string(), 500, 33000, "".to_string());
    assert!(matches!(r, Err(BrewLogError::InvalidInput(_))));

    log.update_beer_entry(
        "x".to_string(),
        "After".to_string(),
        600,
        44000,
        "new".to_string(),
    )
    .unwrap();

    let entries = log
        .get_beer_entries("2024-03-10".to_string(), "2024-03-10".to_string())
        .unwrap();
    assert_eq!(entries.len(), 1);
    assert_eq!(entries[0].name, "After");
    assert_eq!(entries[0].alcohol_percentage, 600);
    assert_eq!(entries[0].volume_ml, 44000);
    assert_eq!(entries[0].notes, "new");
    assert_eq!(entries[0].date, "2024-03-10");
}

#[test]
fn update_date_moves_the_aggregation_bucket() {
    let mut log = BrewLog::new().unwrap();
    log.add_beer_entry_full(
        Some("x".to_string()),
        "Beer".to_string(),
        500,
        33000,
        "2024-03-10".to_string(),
        "".to_string(),
    )
    .unwrap();

    log.update_beer_entry_date("x".to_string(), "2024-03-20".to_string())
        .unwrap();

    assert_eq!(
        log.get_daily_consumption("2024-03-10".to_string()).unwrap(),
        0
    );
    assert_eq!(
        log.get_daily_consumption("2024-03-20".to_string()).unwrap(),
        33000
    );
}

#[test]
fn clear_removes_entries_and_goal() {
    let mut log = BrewLog::new().unwrap();
    log.add_beer_entry_full(
        Some("x".to_string()),
        "Beer".to_string(),
        500,
        33000,
        "2024-03-10".to_string(),
        "".to_string(),
    )
    .unwrap();
    log.set_consumption_goal(50000, 350000, "a".to_string(), "b".to_string())
        .unwrap();

    log.clear_all_data().unwrap();

    let entries = log
        .get_beer_entries("2024-03-10".to_string(), "2024-03-10".to_string())
        .unwrap();
    assert!(entries.is_empty());
    assert!(matches!(
        log.get_current_goal(),
        Err(BrewLogError::NotFound(_))
    ));
}

#[test]
fn delete_removes_exactly_the_given_id() {
    let mut log = BrewLog::new().unwrap();
    log.add_beer_entry_full(
        Some("x".to_string()),
        "Keep me not".to_string(),
        500,
        33000,
        "2024-03-10".to_string(),
        "".to_string(),
    )
    .unwrap();
    log.add_beer_entry_full(
        Some("y".to_string()),
        "Keep me".to_string(),
        500,
        50000,
        "2024-03-10".to_string(),
        "".to_string(),
    )
    .unwrap();

    log.delete_beer_entry("x".to_string()).unwrap();

    let entries = log
        .get_beer_entries("2024-03-10".to_string(), "2024-03-10".to_string())
        .unwrap();
    assert_eq!(entries.len(), 1);
    assert_eq!(entries[0].id, "y");
}

#[test]
fn get_all_entries_returns_everything_in_stored_order() {
    let mut log = BrewLog::new().unwrap();
    log.add_beer_entry_full(
        Some("a".to_string()),
        "Early".to_string(),
        500,
        33000,
        "2024-03-08".to_string(),
        "".to_string(),
    )
    .unwrap();
    log.add_beer_entry_full(
        Some("b".to_string()),
        "Late".to_string(),
        500,
        50000,
        "2024-03-12".to_string(),
        "".to_string(),
    )
    .unwrap();

    let all = log.get_all_entries();
    let ids: Vec<&str> = all.iter().map(|e| e.id.as_str()).collect();
    assert_eq!(ids, vec!["b", "a"]);
}

#[test]
fn error_messages_carry_the_kind_prefix() {
    let e = BrewLogError::InvalidInput("Name cannot be empty".to_string());
    assert_eq!(e.message(), "Invalid input: Name cannot be empty");
    let e = BrewLogError::NotFound("missing".to_string());
    assert_eq!(e.message(), "Not found: missing");
    let e = BrewLogError::DatabaseError("disk".to_string());
    assert_eq!(e.message(), "Database error: disk");
}
