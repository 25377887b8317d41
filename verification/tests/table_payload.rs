use juggling_tools::graph::GraphParams;
use juggling_tools::payload::compute_table;
use serde_json::Value;

fn make_params(num_props: u8, max_height: u8, compact: bool) -> GraphParams {
    GraphParams {
        num_props,
        max_height,
        compact,
        reversed: false,
    }
}

fn parse(params: &GraphParams) -> Value {
    let data = compute_table(params);
    serde_json::from_slice(&data).expect("invalid JSON")
}

#[test]
fn test_compute_table_valid_json() {
    let params = make_params(3, 5, false);
    let data = compute_table(&params);
    let result: Result<Value, _> = serde_json::from_slice(&data);
    assert!(result.is_ok());
}

#[test]
fn test_compute_table_has_required_fields() {
    let json = parse(&make_params(3, 5, false));
    for key in [
        "states",
        "cells",
        "ground_state",
        "num_states",
        "max_height",
        "num_props",
    ] {
        assert!(json.get(key).is_some(), "missing key: {}", key);
    }
}

#[test]
fn test_compute_table_dimensions() {
    let json = parse(&make_params(3, 5, false));
    let num_states = json["num_states"].as_u64().unwrap() as usize;
    let states = json["states"].as_array().unwrap();
    let cells = json["cells"].as_array().unwrap();
    assert_eq!(num_states, 10);
    assert_eq!(states.len(), 10);
    assert_eq!(cells.len(), 10);
    for row in cells {
        assert_eq!(row.as_array().unwrap().len(), 10);
    }
}

#[test]
fn test_compute_table_compact_states_are_integers() {
    let json = parse(&make_params(3, 5, true));
    let states = json["states"].as_array().unwrap();
    for state in states {
        assert!(
            state.is_number(),
            "compact state should be a number, got: {}",
            state
        );
    }
}

#[test]
fn test_compute_table_non_compact_states_are_strings() {
    let json = parse(&make_params(3, 5, false));
    let states = json["states"].as_array().unwrap();
    for state in states {
        assert!(
            state.is_string(),
            "non-compact state should be a string, got: {}",
            state
        );
        let s = state.as_str().unwrap();
        assert_eq!(s.len(), 5);
        assert!(s.chars().all(|c| c == '0' || c == '1'));
    }
}

#[test]
fn test_compute_table_cells_contain_valid_values() {
    let json = parse(&make_params(3, 5, false));
    let cells = json["cells"].as_array().unwrap();
    for row in cells {
        for cell in row.as_array().unwrap() {
            assert!(
                cell.is_null() || cell.is_number(),
                "cell should be null or number, got: {}",
                cell
            );
        }
    }
}

#[test]
fn test_compute_table_reversed() {
    let normal = parse(&make_params(3, 5, false));
    let reversed_params = GraphParams {
        num_props: 3,
        max_height: 5,
        compact: false,
        reversed: true,
    };
    let reversed = parse(&reversed_params);

    let normal_states: Vec<&str> = normal["states"]
        .as_array()
        .unwrap()
        .iter()
        .map(|n| n.as_str().unwrap())
        .collect();
    let reversed_states: Vec<&str> = reversed["states"]
        .as_array()
        .unwrap()
        .iter()
        .map(|n| n.as_str().unwrap())
        .collect();

    for (n, r) in normal_states.iter().zip(reversed_states.iter()) {
        let expected: String = n.chars().rev().collect();
        assert_eq!(*r, expected.as_str());
    }
}

#[test]
fn test_compute_table_single_state() {
    let json = parse(&make_params(3, 3, false));
    assert_eq!(json["num_states"].as_u64().unwrap(), 1);
    let cells = json["cells"].as_array().unwrap();
    assert_eq!(cells.len(), 1);
    assert_eq!(cells[0].as_array().unwrap().len(), 1);
    assert_eq!(cells[0][0].as_u64().unwrap(), 3); // self-loop with throw height = max_height
}
