use ovh_logs::date::Date;

#[test]
fn new_accepts_real_days() {
    assert!(Date::new(2023, 5, 7).is_some());
    assert!(Date::new(2024, 2, 29).is_some());
    assert!(Date::new(1, 1, 1).is_some());
    assert!(Date::new(9999, 12, 31).is_some());
}

#[test]
fn new_rejects_impossible_days() {
    assert!(Date::new(2023, 2, 29).is_none());
    assert!(Date::new(1900, 2, 29).is_none());
    assert!(Date::new(2000, 2, 29).is_some());
    assert!(Date::new(2023, 4, 31).is_none());
    assert!(Date::new(2023, 0, 1).is_none());
    assert!(Date::new(2023, 13, 1).is_none());
    assert!(Date::new(2023, 1, 0).is_none());
    assert!(Date::new(0, 1, 1).is_none());
    assert!(Date::new(10000, 1, 1).is_none());
}

#[test]
fn next_day_steps_through_month_and_year_ends() {
    let d = Date::new(2023, 1, 30).unwrap().next_day();
    assert_eq!(d, Date::new(2023, 1, 31).unwrap());
    let d = Date::new(2023, 1, 31).unwrap().next_day();
    assert_eq!(d, Date::new(2023, 2, 1).unwrap());
    let d = Date::new(2023, 12, 31).unwrap().next_day();
    assert_eq!(d, Date::new(2024, 1, 1).unwrap());
    let d = Date::new(2024, 2, 28).unwrap().next_day();
    assert_eq!(d, Date::new(2024, 2, 29).unwrap());
    let d = Date::new(2023, 2, 28).unwrap().next_day();
    assert_eq!(d, Date::new(2023, 3, 1).unwrap());
}

#[test]
fn prev_day_steps_back_through_month_and_year_starts() {
    let d = Date::new(2023, 3, 1).unwrap().prev_day();
    assert_eq!(d, Date::new(2023, 2, 28).unwrap());
    let d = Date::new(2024, 3, 1).unwrap().prev_day();
    assert_eq!(d, Date::new(2024, 2, 29).unwrap());
    let d = Date::new(2024, 1, 1).unwrap().prev_day();
    assert_eq!(d, Date::new(2023, 12, 31).unwrap());
    let d = Date::new(2023, 5, 7).unwrap().prev_day();
    assert_eq!(d, Date::new(2023, 5, 6).unwrap());
}

#[test]
fn le_is_calendar_order() {
    let a = Date::new(2023, 5, 7).unwrap();
    let b = Date::new(2023, 5, 8).unwrap();
    let c = Date::new(2024, 1, 1).unwrap();
    assert!(a.le(&a));
    assert!(a.le(&b));
    assert!(!b.le(&a));
    assert!(b.le(&c));
    assert!(!c.le(&b));
}

#[test]
fn today_is_a_real_date() {
    let t = ovh_logs::date::today().unwrap();
    assert!(Date::new(t.year, t.month, t.day).is_some());
}
