use juggling_tools::state::{generate_states, State};
use juggling_tools::transition::get_transitions;

#[test]
fn wide_zero_throw_when_no_ball_landing() {
    let s = State::new(0b110, 3).unwrap();
    let transitions = get_transitions(s, 3);
    assert_eq!(transitions.len(), 1);
    assert_eq!(transitions[0].get_throw_height(), 0);
    assert_eq!(transitions[0].get_to().bits(), 0b011);
    assert_eq!(transitions[0].get_from().bits(), 0b110);
}

#[test]
fn wide_full_state_self_loop() {
    let s = State::new(0b111, 3).unwrap();
    let transitions = get_transitions(s, 3);
    assert_eq!(transitions.len(), 1);
    assert_eq!(transitions[0].get_throw_height(), 3);
    assert_eq!(transitions[0].get_to().bits(), 0b111);
}

#[test]
fn wide_transitions_preserve_ball_count() {
    let max_height = 5;
    for s in &generate_states(3, max_height) {
        for t in &get_transitions(*s, max_height) {
            assert_eq!(
                t.get_from().bits().count_ones(),
                t.get_to().bits().count_ones()
            );
            assert_eq!(t.get_to().bits() >> max_height, 0);
        }
    }
}

#[test]
fn wide_throw_heights_strictly_increase() {
    let max_height = 6;
    for s in &generate_states(3, max_height) {
        let heights: Vec<u8> = get_transitions(*s, max_height)
            .iter()
            .map(|t| t.get_throw_height())
            .collect();
        for pair in heights.windows(2) {
            assert!(pair[0] < pair[1]);
        }
    }
}

#[test]
fn wide_transition_display_format() {
    let s = State::new(0b111, 3).unwrap();
    let transitions = get_transitions(s, 3);
    assert_eq!(transitions[0].display(), "xxx (3)");
}

#[test]
fn wide_state_supports_tall_heights() {
    let s = State::new(1u64 << 40, 41).unwrap();
    assert!(s.ball_at(40));
    assert_eq!(s.num_balls(), 1);
    let transitions = get_transitions(s, 41);
    assert_eq!(transitions.len(), 1);
    assert_eq!(transitions[0].get_throw_height(), 0);
    assert_eq!(transitions[0].get_to().bits(), 1u64 << 39);
}
