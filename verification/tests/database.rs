use satfire::database::{
    fires_to_record, ongoing_window_start, present_by_clusters, present_without_clusters,
    FireAssociations,
};
use satfire::fire::Fire;
use satfire::satellite::Satellite;

#[test]
fn image_presence() {
    assert_eq!(present_by_clusters(3), Some(true));
    assert_eq!(present_by_clusters(0), None);
    assert_eq!(present_by_clusters(-1), None);
    assert!(present_without_clusters(1));
    assert!(!present_without_clusters(0));
}

#[test]
fn ongoing_window() {
    assert_eq!(ongoing_window_start(20_000_000), 20_000_000 - 175 * 86400);
}

#[test]
fn only_fires_longer_than_an_hour_are_recorded() {
    let fires = vec![
        Fire::new(1, 0, 3600, Satellite::G16, ()),
        Fire::new(2, 0, 3601, Satellite::G16, ()),
        Fire::new(3, 100, 10_000, Satellite::G16, ()),
        Fire::new(4, 5000, 0, Satellite::G16, ()),
    ];
    assert_eq!(fires_to_record(&fires), vec![1, 2]);
}

#[test]
fn associations_wait_for_their_fire() {
    let mut assoc = FireAssociations::new();
    assoc.add_association(1, 10);
    assoc.add_association(2, 20);
    assoc.add_association(1, 11);
    let pairs = assoc.take_pairs(&[1, 3, 2]);
    assert_eq!(pairs, vec![(1, 10), (1, 11), (2, 20)]);
    assert!(assoc.take(1).is_empty());
    assoc.add_association(5, 50);
    assert_eq!(assoc.take(5), vec![50]);
    assert!(assoc.take_pairs(&[5]).is_empty());
}
