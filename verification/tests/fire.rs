use satfire::fire::{wildfire_is_stale, Fire, FireList};
use satfire::satellite::Satellite;

const DAY: i64 = 86400;

fn fire(id: u64, first: i64, last: i64) -> Fire<&'static str> {
    Fire::new(id, first, last, Satellite::G17, "payload")
}

#[test]
fn fire_accessors() {
    let f = Fire::new(9, 100, 4000, Satellite::G16, 3.5f64);
    assert_eq!(f.id(), 9);
    assert_eq!(f.first_observed(), 100);
    assert_eq!(f.last_observed(), 4000);
    assert_eq!(f.duration(), 3900);
    assert_eq!(f.satellite(), Satellite::G16);
    assert_eq!(f.data, 3.5);
}

#[test]
fn duration_formatting() {
    let mut buf = String::from("left over");
    fire(1, 0, 0).format_duration(&mut buf);
    assert_eq!(buf, "0 hours");
    fire(1, 0, 10 * DAY + 5 * 3600 + 59).format_duration(&mut buf);
    assert_eq!(buf, "1 weeks 3 days 5 hours");
    fire(1, 0, 14 * DAY).format_duration(&mut buf);
    assert_eq!(buf, "2 weeks 0 hours");
    fire(1, 0, 2 * DAY + 3600).format_duration(&mut buf);
    assert_eq!(buf, "2 days 1 hours");
    fire(1, 7200, 0).format_duration(&mut buf);
    assert_eq!(buf, "-2 hours");
}

#[test]
fn staleness() {
    let f = fire(1, 0, 1000);
    assert!(!wildfire_is_stale(&f, 1000 + 3 * DAY));
    assert!(!wildfire_is_stale(&f, 1000 + 4 * DAY - 1));
    assert!(wildfire_is_stale(&f, 1000 + 4 * DAY));
    // A fire that burned for twenty days gets longer, up to thirty days.
    let long = fire(2, 0, 20 * DAY);
    assert!(!wildfire_is_stale(&long, 25 * DAY));
    assert!(!wildfire_is_stale(&long, 40 * DAY));
    assert!(wildfire_is_stale(&long, 40 * DAY + 1));
    // A fire that burned for forty days is given up after thirty days without a sighting.
    let longer = fire(3, 0, 40 * DAY);
    assert!(!wildfire_is_stale(&longer, 70 * DAY));
    assert!(wildfire_is_stale(&longer, 70 * DAY + 1));
}

#[test]
fn draining_stale_fires() {
    let now = 100 * DAY;
    let mut list = FireList::new();
    list.add_fire(fire(1, 0, 10 * DAY)); // stale
    list.add_fire(fire(2, 0, 99 * DAY)); // seen yesterday
    list.add_fire(fire(3, 0, 50 * DAY)); // stale
    list.add_fire(fire(4, 90 * DAY, 98 * DAY)); // seen two days ago
    let mut removed = FireList::new();
    removed.add_fire(fire(9, 0, 1));
    let n = list.drain_stale_fires(&mut removed, now);
    assert_eq!(n, 2);
    let kept: Vec<u64> = list.as_slice().iter().map(|f| f.id()).collect();
    assert_eq!(kept, vec![4, 2]);
    let gone: Vec<u64> = removed.as_slice().iter().map(|f| f.id()).collect();
    assert_eq!(gone, vec![9, 1, 3]);
}

#[test]
fn extending_lists() {
    let mut a = FireList::from_vec(vec![fire(1, 0, 1)]);
    let mut b = FireList::from_vec(vec![fire(2, 0, 1), fire(3, 0, 1)]);
    assert_eq!(a.extend(&mut b), 2);
    assert!(b.is_empty());
    assert_eq!(a.len(), 3);
    let ids: Vec<u64> = a.into_vec().iter().map(|f| f.id()).collect();
    assert_eq!(ids, vec![1, 2, 3]);
}

#[test]
fn longest_burning_fires_first() {
    let mut list = FireList::from_vec(vec![
        fire(1, 0, 10),
        fire(2, 0, 500),
        fire(3, 100, 110),
        fire(4, 0, 50),
        fire(5, 200, 100),
    ]);
    list.sort_longest_first();
    let ids: Vec<u64> = list.as_slice().iter().map(|f| f.id()).collect();
    assert_eq!(ids.len(), 5);
    assert_eq!(ids[0], 2);
    assert_eq!(ids[1], 4);
    assert!(ids[2..4].contains(&1) && ids[2..4].contains(&3));
    assert_eq!(ids[4], 5);
}
