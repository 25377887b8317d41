use juggling_tools::state_notation::{
    compute_graph, compute_table, compute_throws, GraphParams, GraphParamsError,
};

#[test]
fn single_state_table_is_a_self_loop() {
    let table = compute_table(&GraphParams {
        num_props: 3,
        max_height: 3,
    })
    .unwrap();
    assert_eq!(table.states.len(), 1);
    assert_eq!(table.states[0].bits(), 0b111);
    assert_eq!(table.ground_state.bits(), 0b111);
    assert_eq!(table.cells.len(), 1);
    assert_eq!(table.cells[0], vec![Some(3)]);
}

#[test]
fn table_cells_match_computed_throws() {
    let max_height = 5;
    let table = compute_table(&GraphParams {
        num_props: 3,
        max_height,
    })
    .unwrap();
    let n = table.states.len();
    assert_eq!(n, 10);
    for i in 0..n {
        let throws = compute_throws(table.states[i], max_height).unwrap();
        for j in 0..n {
            let expected = throws
                .iter()
                .find(|t| t.destination() == table.states[j])
                .map(|t| t.height());
            assert_eq!(table.cells[i][j], expected, "cell ({}, {})", i, j);
        }
    }
}

#[test]
fn table_rejects_invalid_parameters() {
    assert_eq!(
        compute_table(&GraphParams {
            num_props: 5,
            max_height: 3,
        })
        .unwrap_err(),
        GraphParamsError::MaxHeightBelowNumProps
    );
    assert_eq!(
        compute_table(&GraphParams {
            num_props: 2,
            max_height: 40,
        })
        .unwrap_err(),
        GraphParamsError::MaxHeightTooLarge
    );
}

#[test]
fn graph_edges_for_two_props_height_three() {
    let graph = compute_graph(&GraphParams {
        num_props: 2,
        max_height: 3,
    })
    .unwrap();
    let states: Vec<u32> = graph.states.iter().map(|s| s.bits()).collect();
    assert_eq!(states, vec![0b011, 0b101, 0b110]);
    assert_eq!(graph.ground_state.bits(), 0b011);
    let edges: Vec<(u32, u32, u8)> = graph
        .edges
        .iter()
        .map(|e| (e.from.bits(), e.to.bits(), e.throw_height))
        .collect();
    assert_eq!(
        edges,
        vec![
            (0b011, 0b011, 2),
            (0b011, 0b101, 3),
            (0b101, 0b011, 1),
            (0b101, 0b110, 3),
            (0b110, 0b011, 0),
        ]
    );
}

#[test]
fn graph_rejects_invalid_parameters() {
    assert!(compute_graph(&GraphParams {
        num_props: 40,
        max_height: 40,
    })
    .is_err());
}

#[test]
fn every_graph_vertex_has_an_outgoing_edge() {
    let graph = compute_graph(&GraphParams {
        num_props: 3,
        max_height: 5,
    })
    .unwrap();
    for s in &graph.states {
        assert!(
            graph.edges.iter().any(|e| e.from == *s),
            "state {:b} has no outgoing edge",
            s.bits()
        );
    }
}
