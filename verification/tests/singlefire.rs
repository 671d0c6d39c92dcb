use satfire::singlefire::HourlyGroups;

#[test]
fn clusters_grouped_by_hour() {
    let mut hours: HourlyGroups<char> = HourlyGroups::new();
    assert!(hours.push(3599, 'a').is_none());
    assert_eq!(hours.push(3600, 'b'), Some(vec!['a']));
    assert!(hours.push(7199, 'c').is_none());
    assert_eq!(hours.push(7200, 'd'), Some(vec!['b', 'c']));
    assert_eq!(hours.push(20000, 'e'), Some(vec!['d']));
}

#[test]
fn first_group_may_be_empty() {
    let mut hours: HourlyGroups<char> = HourlyGroups::new();
    assert_eq!(hours.push(1_600_000_000, 'a'), Some(vec![]));
    assert!(hours.push(1_600_000_001, 'b').is_none());
    // Before the epoch the hour rounds toward it, as Rust's remainder does.
    let mut before: HourlyGroups<char> = HourlyGroups::new();
    assert!(before.push(-1, 'x').is_none());
    assert_eq!(before.push(-3600, 'y'), Some(vec!['x']));
}

#[test]
fn every_cluster_ends_up_in_one_group() {
    let starts = [10i64, 20, 4000, 4100, 9000, 9001, 20000];
    let mut hours: HourlyGroups<usize> = HourlyGroups::new();
    let mut seen: Vec<usize> = Vec::new();
    for (k, s) in starts.iter().enumerate() {
        if let Some(group) = hours.push(*s, k) {
            seen.extend(group);
        }
    }
    // The last cluster is still being collected.
    assert_eq!(seen, vec![0, 1, 2, 3, 4, 5]);
}
