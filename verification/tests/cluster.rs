use satfire::cluster::{group_fire_points, GridPoint};

fn p(x: isize, y: isize) -> GridPoint {
    GridPoint { x, y }
}

#[test]
fn groups_of_adjacent_points() {
    let points = vec![p(5, 5), p(10, 10), p(6, 6), p(11, 11), p(20, 20)];
    let groups = group_fire_points(&points, p(-100, -100));
    assert_eq!(groups, vec![vec![0, 2], vec![1, 3], vec![4]]);
}

#[test]
fn empty_points_are_skipped() {
    let points = vec![p(0, 0), p(3, 3), p(0, 0), p(3, 4)];
    let groups = group_fire_points(&points, p(0, 0));
    assert_eq!(groups, vec![vec![1, 3]]);
}

#[test]
fn touching_chains_form_one_cluster() {
    // (2, 0) touches (1, 0) only, which comes after it; the chain still makes one cluster.
    let points = vec![p(0, 0), p(2, 0), p(1, 0)];
    let groups = group_fire_points(&points, p(-9, -9));
    assert_eq!(groups, vec![vec![0, 2, 1]]);
}

#[test]
fn diagonal_neighbours_join_a_cluster() {
    // (3, 1) touches (2, 2) diagonally, so all three pixels form one cluster.
    let points = vec![p(1, 1), p(3, 1), p(2, 2)];
    let groups = group_fire_points(&points, p(0, 0));
    assert_eq!(groups, vec![vec![0, 2, 1]]);
}

#[test]
fn clusters_ordered_by_first_pixel() {
    let points = vec![p(10, 10), p(0, 0), p(12, 10), p(1, 1), p(11, 11), p(30, 0)];
    let groups = group_fire_points(&points, p(-5, -5));
    assert_eq!(groups, vec![vec![0, 4, 2], vec![1, 3], vec![5]]);
}

#[test]
fn no_pixels_no_clusters() {
    let points = vec![p(0, 0), p(0, 0)];
    assert!(group_fire_points(&points, p(0, 0)).is_empty());
    assert!(group_fire_points(&Vec::new(), p(0, 0)).is_empty());
}
