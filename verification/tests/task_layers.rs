use maroon::task_layers::{compute_layers, try_compute_layers, TaskGraph};

fn graph(edges: &[(u64, u64)]) -> TaskGraph {
    let mut g = TaskGraph::default();
    for &(a, b) in edges {
        g.add_edge(a, b, ());
    }
    g
}

#[test]
fn a_diamond_has_three_layers() {
    // 1 -> {2, 3} -> 4
    let g = graph(&[(1, 2), (1, 3), (2, 4), (3, 4)]);
    assert_eq!(compute_layers(&g), vec![vec![1], vec![2, 3], vec![4]]);
}

#[test]
fn independent_tasks_share_the_first_layer() {
    let mut g = TaskGraph::default();
    g.add_node(5);
    g.add_node(7);
    g.add_node(6);
    assert_eq!(compute_layers(&g), vec![vec![5, 7, 6]]);
}

#[test]
fn a_task_waits_for_its_latest_prerequisite() {
    // 1 -> 2 -> 3, and 1 -> 3 directly: 3 still comes after 2.
    let g = graph(&[(1, 2), (2, 3), (1, 3), (4, 3)]);
    assert_eq!(compute_layers(&g), vec![vec![1, 4], vec![2], vec![3]]);
}

#[test]
fn an_empty_graph_has_no_layers() {
    let g = TaskGraph::default();
    assert_eq!(try_compute_layers(&g), Some(Vec::<Vec<u64>>::new()));
}

#[test]
fn a_cycle_has_no_layering() {
    let g = graph(&[(1, 2), (2, 3), (3, 1)]);
    assert_eq!(try_compute_layers(&g), None);
    let g = graph(&[(9, 9)]);
    assert_eq!(try_compute_layers(&g), None);
}
