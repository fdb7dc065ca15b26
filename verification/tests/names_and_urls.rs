use ovh_logs::date::Date;
use ovh_logs::names::{build_filename, full_log_filename, partial_log_filename, is_partial_log_name,
    select_partial_logs};
use ovh_logs::urls::{build_log_url, build_partial_url};

#[test]
fn filename_uses_sortable_date() {
    let d = Date::new(2023, 5, 7).unwrap();
    assert_eq!(build_filename(&d, "foo", "bar"), "foo.bar.hosting.ovh.net-2023-05-07");
    assert_eq!(
        full_log_filename(&d, "foo", "bar"),
        "foo.bar.hosting.ovh.net-2023-05-07.log.gz"
    );
    assert_eq!(partial_log_filename(&d, "foo", "bar"), "foo.bar.hosting.ovh.net-2023-05-07.log");
}

#[test]
fn filenames_sort_chronologically() {
    let days = [
        Date::new(2023, 1, 9).unwrap(),
        Date::new(2023, 1, 10).unwrap(),
        Date::new(2023, 9, 30).unwrap(),
        Date::new(2023, 10, 1).unwrap(),
        Date::new(2023, 12, 31).unwrap(),
        Date::new(2024, 1, 1).unwrap(),
    ];
    for w in days.windows(2) {
        let earlier = build_filename(&w[0], "foo", "bar");
        let later = build_filename(&w[1], "foo", "bar");
        assert!(earlier < later, "{earlier} should sort before {later}");
    }
}

#[test]
fn full_url_follows_the_template() {
    let d = Date::new(2023, 5, 7).unwrap();
    let url = build_log_url(&d, "foo", "bar");
    assert_eq!(
        url,
        "https://logs.bar.hosting.ovh.net/foo.bar.hosting.ovh.net/\
         logs/logs-05-2023/foo.bar.hosting.ovh.net-07-05-2023.log.gz"
    );
    assert!(url.ends_with("/logs/logs-05-2023/foo.bar.hosting.ovh.net-07-05-2023.log.gz"));
}

#[test]
fn partial_url_follows_the_template() {
    let d = Date::new(2023, 5, 7).unwrap();
    let url = build_partial_url(&d, "foo", "bar");
    assert_eq!(
        url,
        "https://logs.bar.hosting.ovh.net/foo.bar.hosting.ovh.net/\
         osl/foo.bar.hosting.ovh.net-07-05-2023.log"
    );
    assert!(url.ends_with("/osl/foo.bar.hosting.ovh.net-07-05-2023.log"));
}

#[test]
fn partial_log_extension_must_be_exactly_log() {
    assert!(is_partial_log_name(&"a.log".to_string()));
    assert!(is_partial_log_name(&"foo.bar.hosting.ovh.net-2023-05-07.log".to_string()));
    assert!(is_partial_log_name(&"weird..log".to_string()));
    assert!(!is_partial_log_name(&"a.log.gz".to_string()));
    assert!(!is_partial_log_name(&"foo.bar.hosting.ovh.net-2023-05-07.log.gz".to_string()));
    assert!(!is_partial_log_name(&".log".to_string()));
    assert!(!is_partial_log_name(&"log".to_string()));
    assert!(!is_partial_log_name(&"a.txt".to_string()));
    assert!(!is_partial_log_name(&"a.LOG".to_string()));
    assert!(!is_partial_log_name(&"".to_string()));
}

#[test]
fn selection_keeps_archives_and_order() {
    let entries: Vec<String> = vec![
        "site.a.hosting.ovh.net-2023-01-01.log.gz".to_string(),
        "site.a.hosting.ovh.net-2023-01-02.log".to_string(),
        ".log".to_string(),
        "notes.txt".to_string(),
        "site.a.hosting.ovh.net-2023-01-03.log".to_string(),
    ];
    let picked = select_partial_logs(&entries);
    assert_eq!(
        picked,
        vec![
            "site.a.hosting.ovh.net-2023-01-02.log".to_string(),
            "site.a.hosting.ovh.net-2023-01-03.log".to_string(),
        ]
    );
}

#[test]
fn selection_of_empty_listing_is_empty() {
    let entries: Vec<String> = vec![];
    assert!(select_partial_logs(&entries).is_empty());
}
