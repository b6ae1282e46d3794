use zeos_orchard::merkle::{sister_path_plan, MERKLE_DEPTH_ORCHARD, MT_ARR_FULL_TREE_OFFSET, MT_ARR_LEAF_ROW_OFFSET, MT_NUM_LEAVES};

#[test]
fn tree_layout_constants() {
    assert_eq!(MT_NUM_LEAVES, 1u64 << MERKLE_DEPTH_ORCHARD);
    assert_eq!(MT_ARR_LEAF_ROW_OFFSET, (1u64 << MERKLE_DEPTH_ORCHARD) - 1);
    assert_eq!(MT_ARR_FULL_TREE_OFFSET, (1u64 << (MERKLE_DEPTH_ORCHARD + 1)) - 1);
}

#[test]
fn first_leaf_alone() {
    let p = sister_path_plan(MT_ARR_LEAF_ROW_OFFSET, 1);
    assert_eq!(p.position, 0);
    assert_eq!(p.nodes.len(), 32);
    for d in 0..32 {
        assert_eq!(p.nodes[d].array_index, 1u64 << (32 - d));
        assert!(p.nodes[d].empty);
    }
}

#[test]
fn third_leaf_of_three() {
    let p = sister_path_plan(MT_ARR_LEAF_ROW_OFFSET + 2, 3);
    assert_eq!(p.position, 2);
    assert_eq!(p.nodes[0].array_index, MT_ARR_LEAF_ROW_OFFSET + 3);
    assert!(p.nodes[0].empty);
    // the parent of leaves 2 and 3 is the right child of its parent; its sibling holds leaves 0 and 1
    assert_eq!(p.nodes[1].array_index, (1u64 << 31) - 1);
    assert!(!p.nodes[1].empty);
    assert!(p.nodes[2].empty);
}

#[test]
fn second_leaf_of_two() {
    let p = sister_path_plan(MT_ARR_LEAF_ROW_OFFSET + 1, 2);
    assert_eq!(p.position, 1);
    assert_eq!(p.nodes[0].array_index, MT_ARR_LEAF_ROW_OFFSET);
    assert!(!p.nodes[0].empty);
    assert!(p.nodes[1].empty);
}

#[test]
fn leaf_of_the_second_tree() {
    let p = sister_path_plan(MT_ARR_FULL_TREE_OFFSET + MT_ARR_LEAF_ROW_OFFSET, MT_NUM_LEAVES + 1);
    assert_eq!(p.position, 0);
    assert_eq!(p.nodes[0].array_index, MT_ARR_FULL_TREE_OFFSET + MT_ARR_LEAF_ROW_OFFSET + 1);
    assert!(p.nodes[0].empty);
    let full = sister_path_plan(MT_ARR_LEAF_ROW_OFFSET, MT_NUM_LEAVES + 1);
    assert!(!full.nodes[0].empty);
    assert!(!full.nodes[31].empty);
}
