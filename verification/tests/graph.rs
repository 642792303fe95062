use seamingly_epic::graph::{connected_components, constraint_graph_connected, TileLink};

fn link(a: usize, b: usize, positive_weight: bool) -> TileLink {
    TileLink {
        left_or_top: a,
        right_or_bottom: b,
        positive_weight,
    }
}

#[test]
fn a_two_by_two_grid_with_every_join_is_one_component() {
    let links = vec![
        link(0, 1, true),
        link(2, 3, true),
        link(0, 2, true),
        link(1, 3, true),
    ];
    assert!(constraint_graph_connected(4, &links));
    assert_eq!(connected_components(4, &links), vec![vec![0, 1, 2, 3]]);
}

#[test]
fn a_tile_without_positive_links_is_its_own_component() {
    let links = vec![link(0, 1, true), link(2, 3, true), link(1, 3, true), link(0, 2, false)];
    assert!(constraint_graph_connected(4, &links));
    let cut = vec![link(0, 1, true), link(1, 3, false), link(2, 3, false), link(0, 2, false)];
    assert!(!constraint_graph_connected(4, &cut));
    assert_eq!(
        connected_components(4, &cut),
        vec![vec![0, 1], vec![2], vec![3]]
    );
}

#[test]
fn components_are_sorted_and_listed_by_their_first_tile() {
    let links = vec![link(5, 2, true), link(4, 0, true), link(2, 4, false), link(3, 1, true)];
    assert_eq!(
        connected_components(6, &links),
        vec![vec![0, 4], vec![1, 3], vec![2, 5]]
    );
    assert!(!constraint_graph_connected(6, &links));
}

#[test]
fn tiny_graphs_are_connected() {
    assert!(constraint_graph_connected(0, &Vec::new()));
    assert!(constraint_graph_connected(1, &Vec::new()));
    assert!(!constraint_graph_connected(2, &Vec::new()));
    assert!(connected_components(0, &Vec::new()).is_empty());
    assert_eq!(connected_components(1, &Vec::new()), vec![vec![0]]);
}

#[test]
fn repeated_and_reversed_links_change_nothing() {
    let links = vec![link(2, 1, true), link(1, 2, true), link(1, 0, true), link(1, 0, true)];
    assert!(constraint_graph_connected(3, &links));
    assert_eq!(connected_components(3, &links), vec![vec![0, 1, 2]]);
}
