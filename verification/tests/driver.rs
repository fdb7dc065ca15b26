use ovh_logs::date::Date;
use ovh_logs::driver::{Driver, is_success_status};

fn drive_all(mut d: Driver) -> Vec<(Date, String, String, bool)> {
    let mut seen = Vec::new();
    while let Some(task) = d.current() {
        seen.push((task.date, task.filename, task.url, d.needs_fetch()));
        d.advance();
    }
    seen
}

#[test]
fn three_day_range_over_empty_directory_fetches_three_files() {
    let from = Date::new(2023, 1, 1).unwrap();
    let to = Date::new(2023, 1, 3).unwrap();
    let d = Driver::new(from, to, "foo".to_string(), "bar".to_string(), vec![]);
    let seen = drive_all(d);
    assert_eq!(seen.len(), 3);
    let names: Vec<&str> = seen.iter().map(|t| t.1.as_str()).collect();
    assert_eq!(
        names,
        vec![
            "foo.bar.hosting.ovh.net-2023-01-01.log.gz",
            "foo.bar.hosting.ovh.net-2023-01-02.log.gz",
            "foo.bar.hosting.ovh.net-2023-01-03.log.gz",
        ]
    );
    // every file is fetched, and the created names are already sorted
    assert!(seen.iter().all(|t| t.3));
    let mut sorted = names.clone();
    sorted.sort();
    assert_eq!(sorted, names);
}

#[test]
fn existing_files_are_skipped_others_fetched() {
    let from = Date::new(2023, 1, 1).unwrap();
    let to = Date::new(2023, 1, 3).unwrap();
    let existing = vec![
        "foo.bar.hosting.ovh.net-2023-01-02.log.gz".to_string(),
        "unrelated.txt".to_string(),
    ];
    let d = Driver::new(from, to, "foo".to_string(), "bar".to_string(), existing);
    let seen = drive_all(d);
    let fetched: Vec<bool> = seen.iter().map(|t| t.3).collect();
    assert_eq!(fetched, vec![true, false, true]);
}

#[test]
fn second_run_fetches_nothing() {
    let from = Date::new(2023, 2, 27).unwrap();
    let to = Date::new(2023, 3, 2).unwrap();
    let first = Driver::new(from, to, "foo".to_string(), "bar".to_string(), vec![]);
    let written: Vec<String> = drive_all(first).into_iter().map(|t| t.1).collect();
    assert_eq!(written.len(), 4);
    let second = Driver::new(from, to, "foo".to_string(), "bar".to_string(), written);
    let seen = drive_all(second);
    assert_eq!(seen.len(), 4);
    assert!(seen.iter().all(|t| !t.3), "no fetch may happen on the second run");
}

#[test]
fn tasks_carry_the_days_url() {
    let day = Date::new(2023, 5, 7).unwrap();
    let d = Driver::new(day, day, "foo".to_string(), "bar".to_string(), vec![]);
    let seen = drive_all(d);
    assert_eq!(seen.len(), 1);
    assert!(seen[0].2.ends_with("/logs/logs-05-2023/foo.bar.hosting.ovh.net-07-05-2023.log.gz"));
}

#[test]
fn empty_range_offers_no_task() {
    let from = Date::new(2023, 1, 2).unwrap();
    let to = Date::new(2023, 1, 1).unwrap();
    let mut d = Driver::new(from, to, "foo".to_string(), "bar".to_string(), vec![]);
    assert!(d.current().is_none());
}

#[test]
fn failure_stops_the_run_before_later_days() {
    let from = Date::new(2023, 1, 1).unwrap();
    let to = Date::new(2023, 1, 5).unwrap();
    let mut d = Driver::new(from, to, "foo".to_string(), "bar".to_string(), vec![]);
    let first = d.current().unwrap();
    assert_eq!(first.date, from);
    // the fetch of the first day answers 404: the run ends here
    assert!(!is_success_status(404));
    d.fail();
    assert!(d.current().is_none(), "no later day may be processed after a failure");
}

#[test]
fn success_statuses_are_exactly_2xx() {
    assert!(is_success_status(200));
    assert!(is_success_status(204));
    assert!(is_success_status(299));
    assert!(!is_success_status(199));
    assert!(!is_success_status(300));
    assert!(!is_success_status(301));
    assert!(!is_success_status(404));
    assert!(!is_success_status(500));
}

#[test]
fn range_crosses_a_leap_day() {
    let from = Date::new(2024, 2, 28).unwrap();
    let to = Date::new(2024, 3, 1).unwrap();
    let d = Driver::new(from, to, "foo".to_string(), "bar".to_string(), vec![]);
    let dates: Vec<Date> = drive_all(d).into_iter().map(|t| t.0).collect();
    assert_eq!(
        dates,
        vec![
            Date::new(2024, 2, 28).unwrap(),
            Date::new(2024, 2, 29).unwrap(),
            Date::new(2024, 3, 1).unwrap(),
        ]
    );
}
