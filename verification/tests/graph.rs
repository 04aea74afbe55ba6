use c_translator::graph::reach::reach_from;
use c_translator::graph::scc::sccs;
use c_translator::graph::{inverse, post_order};

#[test]
fn callees_come_before_their_callers() {
    // 0 calls 1 and 2, 1 calls 2, 2 calls nothing, 3 calls 0.
    let g = vec![vec![1, 2], vec![2], vec![], vec![0]];
    assert_eq!(post_order(&g), Some(vec![2, 1, 0, 3]));
}

#[test]
fn of_the_nodes_that_may_come_next_the_least_comes() {
    let g = vec![vec![], vec![], vec![0], vec![]];
    assert_eq!(post_order(&g), Some(vec![0, 1, 2, 3]));
    let g = vec![vec![3], vec![], vec![], vec![]];
    assert_eq!(post_order(&g), Some(vec![1, 2, 3, 0]));
}

#[test]
fn a_node_may_depend_on_itself() {
    let g = vec![vec![0, 1, 0], vec![1]];
    assert_eq!(post_order(&g), Some(vec![1, 0]));
}

#[test]
fn a_circle_has_no_post_order() {
    assert_eq!(post_order(&vec![vec![1], vec![0]]), None);
    assert_eq!(post_order(&vec![vec![], vec![2], vec![3], vec![1]]), None);
}

#[test]
fn the_empty_graph_has_the_empty_order() {
    assert_eq!(post_order(&vec![]), Some(vec![]));
}

#[test]
fn the_inverse_turns_every_edge() {
    let g = vec![vec![1, 2], vec![2], vec![], vec![0, 0]];
    assert_eq!(inverse(&g), vec![vec![3], vec![0], vec![0, 1], vec![]]);
    assert_eq!(inverse(&inverse(&g)), vec![vec![1, 2], vec![2], vec![], vec![0]]);
}

#[test]
fn a_node_reaches_itself_and_what_its_successors_reach() {
    let g = vec![vec![1], vec![2], vec![0], vec![0], vec![]];
    assert_eq!(reach_from(&g, 0), vec![true, true, true, false, false]);
    assert_eq!(reach_from(&g, 3), vec![true, true, true, true, false]);
    assert_eq!(reach_from(&g, 4), vec![false, false, false, false, true]);
}

#[test]
fn components_are_named_by_their_least_node() {
    // 0 -> 1 -> 2 -> 0 is a circle; 3 -> 0; 4 alone; 5 <-> 6, 6 -> 4.
    let g = vec![vec![1], vec![2], vec![0], vec![0], vec![], vec![6], vec![5, 4]];
    let (condensed, component) = sccs(&g);
    assert_eq!(component, vec![0, 0, 0, 3, 4, 5, 5]);
    assert_eq!(
        condensed,
        vec![vec![], vec![], vec![], vec![0], vec![], vec![4], vec![]]
    );
}

#[test]
fn without_circles_every_node_is_a_component() {
    let g = vec![vec![1, 2], vec![2], vec![2], vec![0]];
    let (condensed, component) = sccs(&g);
    assert_eq!(component, vec![0, 1, 2, 3]);
    assert_eq!(condensed, vec![vec![1, 2], vec![2], vec![], vec![0]]);
    assert!(post_order(&g).is_some());
    assert_eq!(post_order(&condensed), Some(vec![2, 1, 0, 3]));
}

#[test]
fn the_graph_of_the_components_has_a_post_order() {
    let g = vec![vec![1], vec![0, 2], vec![3], vec![2]];
    assert_eq!(post_order(&g), None);
    let (condensed, component) = sccs(&g);
    assert_eq!(component, vec![0, 0, 2, 2]);
    assert_eq!(condensed, vec![vec![2], vec![], vec![], vec![]]);
    assert_eq!(post_order(&condensed), Some(vec![1, 2, 0, 3]));
}
