use vstd::prelude::*;

use crate::branch_mutations::SegmentMutations;
use crate::divergence::Divergence;

verus! {

/// A key/value attribute of a tree node.
pub struct NodeAttr {
    pub key: String,
    pub value: String,
}

/// A node of the reference tree.
pub struct AuspiceTreeNode {
    pub name: String,
    /// Identifier of a node of the reference tree; nodes added by placement hold 0.
    pub id: usize,
    /// Whether the node was present when the tree was loaded.
    pub is_ref_node: bool,
    pub div: Option<Divergence>,
    pub clade: String,
    /// Display attributes, in order.
    pub node_attrs: Vec<NodeAttr>,
    /// Clade-defining attributes.
    pub custom_attrs: Vec<NodeAttr>,
    /// Written mutations per segment on the branch leading to this node.
    pub branch_mutations: Vec<SegmentMutations>,
    /// Free-form labels of the branch leading to this node.
    pub branch_labels: Vec<NodeAttr>,
    pub children: Vec<AuspiceTreeNode>,
}

/// The reference tree of a run.
pub struct AuspiceTree {
    pub tree: AuspiceTreeNode,
}

pub open spec fn attr_is(a: NodeAttr, key: Seq<char>, value: Seq<char>) -> bool {
    a.key@ == key && a.value@ == value
}

impl NodeAttr {
    pub fn new(key: &str, value: String) -> (r: NodeAttr)
        ensures
            r.key@ == key@,
            r.value == value,
    {
        NodeAttr { key: String::from_str(key), value }
    }
}

/// A copy of a list of attributes.
pub fn clone_attrs(v: &Vec<NodeAttr>) -> (r: Vec<NodeAttr>)
    ensures
        r@ == v@,
{
    let mut out: Vec<NodeAttr> = Vec::new();
    let mut i: usize = 0;
    while i < v.len()
        invariant
            i <= v@.len(),
            out@ == v@.subrange(0, i as int),
        decreases v@.len() - i,
    {
        let a = NodeAttr { key: v[i].key.clone(), value: v[i].value.clone() };
        out.push(a);
        i = i + 1;
        proof {
            assert(out@ =~= v@.subrange(0, i as int));
        }
    }
    proof {
        assert(v@.subrange(0, i as int) =~= v@);
    }
    out
}

} // verus!
