use juggling_tools::graph::GraphParams;
use juggling_tools::state_notation::{GraphParamsError, MAX_MAX_HEIGHT};

fn params(num_props: u8, max_height: u8) -> GraphParams {
    GraphParams {
        num_props,
        max_height,
        compact: false,
        reversed: false,
    }
}

#[test]
fn test_validate_accepts_valid_params() {
    assert!(params(3, 5).validate().is_ok());
}

#[test]
fn test_validate_rejects_max_height_above_limit() {
    assert_eq!(
        params(3, MAX_MAX_HEIGHT + 1).validate().unwrap_err(),
        GraphParamsError::MaxHeightTooLarge
    );
}

#[test]
fn test_validate_rejects_num_props_above_limit() {
    assert_eq!(
        params(MAX_MAX_HEIGHT + 1, 5).validate().unwrap_err(),
        GraphParamsError::NumPropsTooLarge
    );
}

#[test]
fn test_validate_rejects_max_height_less_than_num_props() {
    assert_eq!(
        params(5, 3).validate().unwrap_err(),
        GraphParamsError::MaxHeightBelowNumProps
    );
}

#[test]
fn test_validate_accepts_equal_num_props_and_max_height() {
    assert!(params(5, 5).validate().is_ok());
}

#[test]
fn library_params_carry_the_combinatorial_fields() {
    let p = GraphParams {
        num_props: 4,
        max_height: 7,
        compact: true,
        reversed: true,
    };
    let lib = p.to_library_params();
    assert_eq!(lib.num_props, 4);
    assert_eq!(lib.max_height, 7);
    assert!(lib.validate().is_ok());
}
