use juggling_tools::state_notation::{compute_throws, Bits, State, Transition, MAX_MAX_HEIGHT};

fn state(bits: Bits, max_height: u8) -> State {
    State::new(bits, max_height).unwrap()
}

#[test]
fn zero_throw_when_no_prop_landing() {
    let s = state(0b110, 3);
    let throws = compute_throws(s, 3).unwrap();
    assert_eq!(throws.len(), 1);
    assert_eq!(throws[0].height(), 0);
    assert_eq!(throws[0].destination().bits(), 0b011);
}

#[test]
fn single_throw_when_all_slots_full() {
    let s = state(0b111, 3);
    let throws = compute_throws(s, 3).unwrap();
    assert_eq!(throws.len(), 1);
    assert_eq!(throws[0].height(), 3);
    assert_eq!(throws[0].destination().bits(), 0b111);
}

#[test]
fn multiple_throws_from_ground_state() {
    let s = state(0b00111, 5);
    let throws = compute_throws(s, 5).unwrap();
    assert_eq!(throws.len(), 3);
    let heights: Vec<u8> = throws.iter().map(|t| t.height()).collect();
    assert_eq!(heights, vec![3, 4, 5]);
}

#[test]
fn skips_occupied_positions() {
    let s = state(0b10101, 5);
    let throws = compute_throws(s, 5).unwrap();
    let heights: Vec<u8> = throws.iter().map(|t| t.height()).collect();
    assert_eq!(heights, vec![1, 3, 5]);
    let destinations: Vec<Bits> = throws.iter().map(|t| t.destination().bits()).collect();
    assert_eq!(destinations, vec![0b01011, 0b01110, 0b11010]);
}

#[test]
fn preserves_prop_count() {
    let max_height = 5;
    let states = State::generate(3, max_height);
    for s in &states {
        let throws = compute_throws(*s, max_height).unwrap();
        for t in &throws {
            assert_eq!(
                s.bits().count_ones(),
                t.destination().bits().count_ones(),
                "prop count changed: from {:b} to {:b}",
                s.bits(),
                t.destination().bits()
            );
        }
    }
}

#[test]
fn destinations_within_bounds() {
    let max_height: u8 = 5;
    let states = State::generate(3, max_height);
    for s in &states {
        let throws = compute_throws(*s, max_height).unwrap();
        for t in &throws {
            assert_eq!(
                t.destination().bits() >> max_height,
                0,
                "destination {:b} exceeds max_height {}",
                t.destination().bits(),
                max_height
            );
        }
    }
}

#[test]
fn rejects_invalid_max_height() {
    let s = state(0, MAX_MAX_HEIGHT);
    assert!(compute_throws(s, MAX_MAX_HEIGHT + 1).is_err());
}

#[test]
fn rejects_state_bits_exceeding_max_height() {
    let s = state(0b100000, 6);
    assert!(compute_throws(s, 5).is_err());
}

#[test]
fn matches_transition_from_state() {
    let max_height = 5;
    let states = State::generate(3, max_height);
    for s in &states {
        let transitions = Transition::from_state(*s, max_height);
        let throws = compute_throws(*s, max_height).unwrap();
        assert_eq!(transitions.len(), throws.len());
        for (tr, th) in transitions.iter().zip(throws.iter()) {
            assert_eq!(tr.throw_height(), th.height());
            assert_eq!(tr.to(), th.destination());
        }
    }
}
