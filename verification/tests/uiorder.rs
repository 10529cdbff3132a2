use plurimus::camera::Entity;
use plurimus::uiorder::{paint_order, UiTreeNode};

fn node(entity: u64, z_index: i32, global_z: Option<i32>, children: Vec<usize>) -> UiTreeNode {
    UiTreeNode { entity: Entity(entity), z_index, global_z, paints: true, children }
}

#[test]
fn siblings_paint_by_z_index_then_entity_after_their_parent() {
    let nodes = vec![
        node(1, 0, None, vec![1, 2, 3]),
        node(7, 1, None, vec![]),
        node(9, 0, None, vec![]),
        node(8, 0, None, vec![]),
    ];

    assert_eq!(paint_order(&nodes, &[0]), vec![0, 3, 2, 1]);
}

#[test]
fn global_z_index_reorders_trees() {
    let nodes = vec![
        node(1, 0, Some(1), vec![]),
        node(2, 0, None, vec![]),
        node(3, 0, Some(-1), vec![]),
    ];

    assert_eq!(paint_order(&nodes, &[0, 1, 2]), vec![2, 1, 0]);
}

#[test]
fn a_global_z_index_rekeys_its_whole_subtree() {
    let nodes = vec![
        node(1, 0, None, vec![1, 2]),
        node(2, 0, Some(5), vec![3]),
        node(3, 1, None, vec![]),
        node(4, 0, None, vec![]),
    ];

    assert_eq!(paint_order(&nodes, &[0]), vec![0, 2, 1, 3]);
}

#[test]
fn roots_walk_by_entity_and_silent_nodes_still_lead_to_their_children() {
    let mut silent = node(3, 0, None, vec![2]);
    silent.paints = false;
    let nodes = vec![node(9, 0, None, vec![]), silent, node(4, 0, None, vec![])];

    assert_eq!(paint_order(&nodes, &[0, 1]), vec![2, 0]);
}
