use juggling_tools::graph::GraphParams;
use juggling_tools::payload::compute_table;

fn params(num_props: u8, max_height: u8, compact: bool, reversed: bool) -> GraphParams {
    GraphParams {
        num_props,
        max_height,
        compact,
        reversed,
    }
}

#[test]
fn payload_bytes_exact_expanded() {
    let data = compute_table(&params(3, 3, false, false));
    assert_eq!(
        String::from_utf8(data).unwrap(),
        "{\"states\":[\"111\"],\"cells\":[[3]],\"ground_state\":\"111\",\
         \"num_states\":1,\"max_height\":3,\"num_props\":3}"
    );
}

#[test]
fn payload_bytes_exact_compact() {
    let data = compute_table(&params(3, 3, true, false));
    assert_eq!(
        String::from_utf8(data).unwrap(),
        "{\"states\":[7],\"cells\":[[3]],\"ground_state\":7,\
         \"num_states\":1,\"max_height\":3,\"num_props\":3}"
    );
}

#[test]
fn payload_is_deterministic() {
    let a = compute_table(&params(3, 5, false, true));
    let b = compute_table(&params(3, 5, false, true));
    assert_eq!(a, b);
}

#[test]
fn compact_payload_ignores_reversed() {
    let plain = compute_table(&params(3, 5, true, false));
    let reversed = compute_table(&params(3, 5, true, true));
    assert_eq!(plain, reversed);
}

#[test]
fn ground_state_is_first_enumerated_state() {
    let data = compute_table(&params(2, 4, true, false));
    let json: serde_json::Value = serde_json::from_slice(&data).unwrap();
    let states = json["states"].as_array().unwrap();
    assert_eq!(states[0], json["ground_state"]);
    assert_eq!(json["ground_state"].as_u64().unwrap(), 0b11);
}
