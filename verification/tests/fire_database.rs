use satfire::fire_database::{FireCode, FireDataNextNewFireState};

#[test]
fn fire_codes_and_generations() {
    let parent = FireCode("000042".to_string());
    assert_eq!(parent.num_generations(), 1);
    let child = parent.make_child_fire(7);
    assert_eq!(child.as_str(), "00004207");
    assert_eq!(child.num_generations(), 2);
    let grandchild = child.make_child_fire(12);
    assert_eq!(grandchild.as_str(), "0000420712");
    assert_eq!(grandchild.num_generations(), 3);
}

#[test]
fn next_fire_ids() {
    let mut state = FireDataNextNewFireState::starting_at(41);
    assert_eq!(state.get_next_fire_id().unwrap().as_str(), "000041");
    assert_eq!(state.get_next_fire_id().unwrap().as_str(), "000042");

    let mut state = FireDataNextNewFireState::starting_at(999_999);
    assert_eq!(state.get_next_fire_id().unwrap().as_str(), "999999");
    let err = state.get_next_fire_id().unwrap_err();
    assert_eq!(err.message(), "Too many fires for satfire");
}
