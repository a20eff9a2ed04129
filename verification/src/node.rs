//! Tree nodes as the state tree sees them: opaque contents owned by the
//! external tree algorithm, of which this crate reads only the kind (null,
//! internal, or leaf).

use vstd::prelude::*;
use crate::hash::clone_bytes;

verus! {

/// The mathematical form of a tree node.
#[verifier::ext_equal]
pub enum NodeV {
    Null,
    Internal(Seq<u8>),
    Leaf(Seq<u8>),
}

/// A tree node: the null node (what the empty-tree sentinel resolves to), or
/// an internal or leaf node carrying its encoded contents. The encoding is
/// owned by the external tree algorithm; this crate only stores it, looks it
/// up, and distinguishes leaf from internal nodes.
pub enum TreeNode {
    Null,
    Internal(Vec<u8>),
    Leaf(Vec<u8>),
}

impl View for TreeNode {
    type V = NodeV;

    open spec fn view(&self) -> NodeV {
        match self {
            TreeNode::Null => NodeV::Null,
            TreeNode::Internal(d) => NodeV::Internal(d@),
            TreeNode::Leaf(d) => NodeV::Leaf(d@),
        }
    }
}

/// True iff the node is a leaf.
pub open spec fn node_is_leaf(n: NodeV) -> bool {
    n is Leaf
}

impl TreeNode {
    /// True iff this node is a leaf.
    pub fn is_leaf(&self) -> (r: bool)
        ensures
            r == node_is_leaf(self@),
    {
        match self {
            TreeNode::Leaf(_) => true,
            _ => false,
        }
    }

    /// Copies this node.
    pub fn clone_node(&self) -> (n: TreeNode)
        ensures
            n@ == self@,
    {
        match self {
            TreeNode::Null => TreeNode::Null,
            TreeNode::Internal(d) => TreeNode::Internal(clone_bytes(d)),
            TreeNode::Leaf(d) => TreeNode::Leaf(clone_bytes(d)),
        }
    }
}

} // verus!
