use chrono::NaiveDate;
use satfire::connect::{choose_start_time, parse_datetime, ConnectSchedule};
use satfire::satellite::Satellite;

#[test]
fn start_time_choices() {
    assert_eq!(choose_start_time(Some(100), None, Satellite::G16), 100);
    assert_eq!(choose_start_time(None, Some(200), Satellite::G16), 200);
    assert_eq!(choose_start_time(Some(100), Some(200), Satellite::G16), 200);
    assert_eq!(choose_start_time(Some(100), Some(100), Satellite::G16), 100);
    assert_eq!(choose_start_time(None, None, Satellite::G17), 1549972800);
}

#[test]
fn clusters_grouped_by_scan_start() {
    let mut sched: ConnectSchedule<&str> = ConnectSchedule::new();
    assert_eq!(sched.current_time_step(), 0);
    // The first cluster closes the empty group of the epoch and opens its own time step.
    let g = sched.push(100, "a").unwrap();
    assert_eq!(g.0, 0);
    assert!(g.1.is_empty());
    assert_eq!(sched.current_time_step(), 100);
    assert!(sched.push(100, "b").is_none());
    assert!(sched.push(100, "c").is_none());
    let g = sched.push(200, "d").unwrap();
    assert_eq!(g, (100, vec!["a", "b", "c"]));
    assert_eq!(sched.current_time_step(), 200);
    assert!(sched.push(200, "e").is_none());
    assert_eq!(sched.finish(), (200, vec!["d", "e"]));
    assert_eq!(sched.current_time_step(), 200);
    assert_eq!(sched.finish(), (200, vec![]));
}

#[test]
fn every_cluster_reaches_a_group() {
    let mut sched: ConnectSchedule<u64> = ConnectSchedule::new();
    let starts = [5i64, 5, 7, 9, 9, 9, 12];
    let mut seen: Vec<u64> = Vec::new();
    for (i, s) in starts.iter().enumerate() {
        if let Some((_, g)) = sched.push(*s, i as u64) {
            seen.extend(g);
        }
    }
    let (t, g) = sched.finish();
    assert_eq!(t, 12);
    seen.extend(g);
    assert_eq!(seen, vec![0, 1, 2, 3, 4, 5, 6]);
}

#[test]
fn one_cluster_is_kept() {
    let mut sched: ConnectSchedule<&str> = ConnectSchedule::new();
    assert_eq!(sched.push(5, "x"), Some((0, vec![])));
    assert_eq!(sched.finish(), (5, vec!["x"]));
}

#[test]
fn merges_at_most_once_an_hour() {
    let mut sched: ConnectSchedule<u64> = ConnectSchedule::new();
    assert!(!sched.merge_due(3600));
    assert!(sched.merge_due(4000));
    assert!(!sched.merge_due(7000));
    assert!(!sched.merge_due(7600));
    assert!(sched.merge_due(7601));
}

#[test]
fn command_line_times() {
    let expected = NaiveDate::from_ymd_opt(2021, 8, 1)
        .and_then(|d| d.and_hms_opt(5, 0, 0))
        .unwrap()
        .and_utc()
        .timestamp();
    assert_eq!(parse_datetime("2021-08-01-05"), Some(expected));
    assert_eq!(parse_datetime("2021-08-01"), None);
    assert_eq!(parse_datetime("yesterday"), None);
}
