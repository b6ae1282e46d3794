//! Where the nodes of a Merkle path lie in the ledger's flat node array.
//!
//! The ledger keeps a sequence of note-commitment trees of depth `D` in one array indexed
//! by `u64`. Each tree takes `2^(D+1) - 1` positions, row by row from the root; its leaves
//! are at offsets `2^D - 1` to `2^(D+1) - 2`. The parent of the node at offset `i` is at
//! `(i - 1) / 2`, and a node at an odd offset is a left child. A node beyond the last
//! filled node of its row holds the root of an empty subtree.

use vstd::prelude::*;
use vstd::arithmetic::power2::{pow2, lemma2_to64, lemma_pow2_adds, lemma_pow2_pos, lemma_pow2_strictly_increases};

verus! {

/// The depth of the note-commitment tree.
pub const MERKLE_DEPTH_ORCHARD: u64 = 32;
/// The number of leaves of a tree.
pub const MT_NUM_LEAVES: u64 = 0x1_0000_0000;
/// The offset of the first leaf within a tree.
pub const MT_ARR_LEAF_ROW_OFFSET: u64 = 0xFFFF_FFFF;
/// The number of positions a tree takes.
pub const MT_ARR_FULL_TREE_OFFSET: u64 = 0x1_FFFF_FFFF;

/// One node of an authentication path: its index in the node array, and whether it lies
/// beyond the filled part of its row (its hash is then that of an empty subtree of its
/// height).
#[derive(Clone, Copy, Debug)]
pub struct SisterNode {
    pub array_index: u64,
    pub empty: bool,
}

/// The authentication path of a leaf, bottom to top, and the leaf's position within its
/// tree.
#[derive(Clone, Debug)]
pub struct SisterPath {
    pub position: u32,
    pub nodes: Vec<SisterNode>,
}

/// The offset `d` levels above offset `i`.
pub open spec fn ancestor(i: int, d: nat) -> int
    decreases d,
{
    if d == 0 {
        i
    } else {
        (ancestor(i, (d - 1) as nat) - 1) / 2
    }
}

/// The other child of the parent of offset `i`.
pub open spec fn sibling(i: int) -> int {
    if i % 2 == 1 {
        i + 1
    } else {
        i - 1
    }
}

/// The offset of the last filled leaf of the tree that holds array index `array_index`,
/// when the ledger has `leaf_count` leaves.
pub open spec fn last_leaf_offset(array_index: u64, leaf_count: u64) -> int {
    if array_index / MT_ARR_FULL_TREE_OFFSET == leaf_count / MT_NUM_LEAVES {
        MT_ARR_LEAF_ROW_OFFSET + leaf_count % MT_NUM_LEAVES - 1
    } else {
        MT_ARR_LEAF_ROW_OFFSET + MT_NUM_LEAVES - 1
    }
}

/// The array index is a leaf of a tree that has at least one leaf filled or lies before
/// the latest tree.
pub open spec fn valid_leaf_index(array_index: u64, leaf_count: u64) -> bool {
    &&& array_index % MT_ARR_FULL_TREE_OFFSET >= MT_ARR_LEAF_ROW_OFFSET
    &&& !(array_index / MT_ARR_FULL_TREE_OFFSET == leaf_count / MT_NUM_LEAVES && leaf_count % MT_NUM_LEAVES == 0)
    &&& array_index < 0xFFFF_FFFF_FFFF_FFFF
}

/// The plan of the authentication path of a leaf: for each level `d` from the bottom,
/// the sibling of the leaf's ancestor at that level, shifted by the start of the tree,
/// and whether it lies beyond the last filled node of its row.
pub fn sister_path_plan(array_index: u64, leaf_count: u64) -> (r: SisterPath)
    requires
        valid_leaf_index(array_index, leaf_count),
    ensures
        r.position == array_index % MT_ARR_FULL_TREE_OFFSET - MT_ARR_LEAF_ROW_OFFSET,
        r.nodes@.len() == MERKLE_DEPTH_ORCHARD,
        forall|d: int| 0 <= d < MERKLE_DEPTH_ORCHARD ==> {
            let idx = ancestor((array_index % MT_ARR_FULL_TREE_OFFSET) as int, d as nat);
            &&& (#[trigger] r.nodes@[d]).array_index == (array_index / MT_ARR_FULL_TREE_OFFSET)
                * MT_ARR_FULL_TREE_OFFSET + sibling(idx)
            &&& r.nodes@[d].empty == (sibling(idx) > ancestor(last_leaf_offset(array_index, leaf_count), d as nat))
        },
{
    proof {
        lemma2_to64();
        lemma_pow2_adds(32, 1);
    }
    let tree_index = array_index / MT_ARR_FULL_TREE_OFFSET;
    let latest_tree_index = leaf_count / MT_NUM_LEAVES;
    let mut last_node_in_row: u64 = if tree_index == latest_tree_index {
        MT_ARR_LEAF_ROW_OFFSET + leaf_count % MT_NUM_LEAVES - 1
    } else {
        MT_ARR_LEAF_ROW_OFFSET + MT_NUM_LEAVES - 1
    };
    let mut idx: u64 = array_index % MT_ARR_FULL_TREE_OFFSET;
    let position = (idx - MT_ARR_LEAF_ROW_OFFSET) as u32;
    let tos = tree_index * MT_ARR_FULL_TREE_OFFSET;
    assert(tos + idx == array_index) by (nonlinear_arith)
        requires tos == tree_index * MT_ARR_FULL_TREE_OFFSET, tree_index == array_index / MT_ARR_FULL_TREE_OFFSET,
            idx == array_index % MT_ARR_FULL_TREE_OFFSET;
    let ghost idx0 = idx as int;
    let ghost last0 = last_node_in_row as int;
    let mut nodes: Vec<SisterNode> = Vec::new();
    let mut d: u64 = 0;
    while d < MERKLE_DEPTH_ORCHARD
        invariant
            d <= 32,
            tos + idx0 == array_index,
            array_index < 0xFFFF_FFFF_FFFF_FFFF,
            idx0 < MT_ARR_FULL_TREE_OFFSET,
            last0 == last_leaf_offset(array_index, leaf_count),
            idx as int == ancestor(idx0, d as nat),
            last_node_in_row as int == ancestor(last0, d as nat),
            idx + 1 >= pow2((32 - d) as nat),
            last_node_in_row + 1 >= pow2((32 - d) as nat),
            idx <= idx0,
            nodes@.len() == d,
            forall|k: int| 0 <= k < d ==> {
                let a = ancestor(idx0, k as nat);
                &&& (#[trigger] nodes@[k]).array_index == tos + sibling(a)
                &&& nodes@[k].empty == (sibling(a) > ancestor(last0, k as nat))
            },
        decreases 32 - d,
    {
        proof {
            lemma_pow2_pos((32 - d) as nat);
            if d < 32 {
                lemma_pow2_strictly_increases(0, (32 - d) as nat);
            }
            lemma2_to64();
        }
        let is_left_child = idx % 2 == 1;
        let sis_idx = if is_left_child { idx + 1 } else { idx - 1 };
        nodes.push(SisterNode { array_index: tos + sis_idx, empty: sis_idx > last_node_in_row });
        idx = (idx - 1) / 2;
        last_node_in_row = (last_node_in_row - 1) / 2;
        proof {
            lemma_pow2_adds((31 - d) as nat, 1);
            assert(pow2((32 - d) as nat) == 2 * pow2((31 - d) as nat));
        }
        d = d + 1;
    }
    SisterPath { position, nodes }
}

} // verus!
