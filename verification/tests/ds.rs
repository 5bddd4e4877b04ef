use toolbox::ds::Matrix;
use toolbox::ds::graph::Graph;

#[test]
fn new_and_count_ok() {
    let m = Matrix::<i32>::new(10, 30);
    assert_eq!(m.count(), 300);
}

#[test]
fn fill_and_get_ok() {
    let mut m = Matrix::<i32>::new(7, 5);
    m.fill(21);
    for row in 0..m.height {
        for col in 0..m.width {
            assert_eq!(m.get(row, col), 21);
        }
    }
}

#[test]
fn set_ok() {
    let mut m = Matrix::<i32>::new(7, 5);
    m.fill(0);
    m.set(3, 3, 21);
    assert_eq!(m.get(3, 3), 21);
}

#[test]
fn graph_new_ok() {
    let g = Graph::<&str, usize>::new(true);
    assert_eq!(g.is_oriented(), true);
    assert_eq!(g.nodes_count(), 0);
    assert_eq!(g.edges_count(), 0);
}

#[test]
fn is_oriented_ok() {
    let g = Graph::<&str, usize>::new(true);
    assert_eq!(g.is_oriented(), true);
    assert_eq!(g.is_oriented(), true);
}

#[test]
fn is_empty_ok() {
    let mut g = Graph::<&str, usize>::new(true);
    assert_eq!(g.is_empty(), true);
    g.add_node(None, None, None);
    assert_eq!(g.is_empty(), false);
}

#[test]
fn add_node_ok() {
    let mut g = Graph::<&str, usize>::new(true);
    let mut id = g.add_node(Some("First"), None, None);
    assert_eq!(id, 0);
    id = g.add_node(Some("Second"), Some(0), None);
    assert_eq!(id, 1);
    assert_eq!(g.nodes_count(), 2);
    assert_eq!(g.edges_count(), 1);
}

#[test]
fn add_link_ok() {
    // oriented
    let mut g = Graph::<&str, usize>::new(true);
    let mut id = g.add_node(Some("First"), None, None);
    assert_eq!(id, 0);
    id = g.add_node(Some("Second"), Some(0), None);
    assert_eq!(id, 1);
    assert_eq!(g.nodes_count(), 2);
    g.add_link(1, 0, None);
    assert_eq!(g.edges_count(), 2);

    // not oriented
    let mut g = Graph::<&str, usize>::new(false);
    let mut id = g.add_node(Some("First"), None, None);
    assert_eq!(id, 0);
    id = g.add_node(Some("Second"), Some(0), None);
    assert_eq!(id, 1);
    assert_eq!(g.nodes_count(), 2);
    assert_eq!(g.edges_count(), 1);
}
