use juggling_tools::state::{generate_states, State};

#[test]
fn generate_states_count() {
    // C(5,3) = 10
    let states = generate_states(3, 5);
    assert_eq!(states.len(), 10);
}

#[test]
fn state_display_roundtrip() {
    // "0x00x" -> bit4=0, bit3=1, bit2=0, bit1=0, bit0=1 -> 0b01001 = 9
    let state = State::new(0b01001, 5).unwrap();
    assert_eq!(state.display(5), "0x00x");
}

#[test]
fn ball_at() {
    let state = State::new(0b01001, 5).unwrap();
    assert!(state.ball_at(0));
    assert!(!state.ball_at(1));
    assert!(!state.ball_at(2));
    assert!(state.ball_at(3));
    assert!(!state.ball_at(4));
}

#[test]
fn num_balls() {
    let state = State::new(0b01001, 5).unwrap();
    assert_eq!(state.num_balls(), 2);
}

#[test]
fn rejects_bits_above_max_height() {
    assert!(State::new(0b100000, 5).is_err());
}
