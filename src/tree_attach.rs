use vstd::prelude::*;

use std::collections::HashMap;

use crate::branch_mutations::{branch_mutations_of, convert_mutations_to_node_branch_attrs};
use crate::placement::PlacementResult;
use crate::text::{decimal, push_char, push_decimal};
use crate::tree::{attr_is, clone_attrs, AuspiceTree, AuspiceTreeNode, NodeAttr};
use crate::member_order::{
    before_in, in_member_order, lemma_name_lt_asymmetric, lemma_name_lt_irreflexive, lemma_sorted_unique,
    name_lt, order_members, strictly_sorted,
};
use crate::tree_builder::{
    build_dendrogram, calculate_distance_matrix, distance_matrix, is_inner_node_for, is_subtree_for,
    matrix_view, subtree_node, subtree_shape, Dendrogram,
};

verus! {

broadcast use vstd::std_specs::hash::group_hash_axioms;

/// Indices below `n` of the results placed on node `id`, ascending.
pub open spec fn targets(results: Seq<PlacementResult>, id: usize, n: nat) -> Seq<usize>
    decreases n,
{
    if n == 0 {
        Seq::<usize>::empty()
    } else {
        targets(results, id, (n - 1) as nat) + if results[n - 1].nearest_node_id == id {
            seq![(n - 1) as usize]
        } else {
            Seq::<usize>::empty()
        }
    }
}

/// The map holds, for each node identifier that some result is placed on, the
/// indices of those results, ascending; and no other key.
pub open spec fn positions_of(m: Map<usize, Vec<usize>>, results: Seq<PlacementResult>) -> bool {
    forall|id: usize|
        #![trigger m.contains_key(id)]
        #![trigger targets(results, id, results.len())]
        (m.contains_key(id) ==> m[id]@ == targets(results, id, results.len())) && (m.contains_key(id)
            <==> targets(results, id, results.len()).len() > 0)
}

pub open spec fn signed_decimal(x: int) -> Seq<char> {
    if x < 0 {
        seq!['-'] + decimal((-x) as nat)
    } else {
        decimal(x as nat)
    }
}

/// The alignment summary of a new node, such as `start: 0, end: 100 (score: 80)`.
pub open spec fn alignment_text(r: PlacementResult) -> Seq<char> {
    "start: "@ + decimal(r.alignment_start as nat) + ", end: "@ + decimal(r.alignment_end as nat)
        + " (score: "@ + signed_decimal(r.alignment_score as int) + ")"@
}

/// The display attributes of the node made for a placed query.
pub open spec fn new_leaf_attrs(a: Seq<NodeAttr>, r: PlacementResult) -> bool {
    &&& a.len() == if r.total_pcr_primer_changes > 0 {
        12int
    } else {
        11int
    }
    &&& attr_is(a[0], "node_type"@, "New"@)
    &&& attr_is(a[1], "region"@, "unknown"@)
    &&& attr_is(a[2], "country"@, "unknown"@)
    &&& attr_is(a[3], "division"@, "unknown"@)
    &&& attr_is(a[4], "alignment"@, alignment_text(r))
    &&& attr_is(a[5], "missing"@, r.summaries.missing@)
    &&& attr_is(a[6], "gaps"@, r.summaries.gaps@)
    &&& attr_is(a[7], "non_acgtns"@, r.summaries.non_acgtns@)
    &&& attr_is(a[8], "missing_genes"@, r.summaries.missing_genes@)
    &&& attr_is(a[9], "qc_status"@, r.summaries.qc_status@)
    &&& attr_is(
        a[10],
        "has_pcr_primer_changes"@,
        if r.total_pcr_primer_changes > 0 {
            "Yes"@
        } else {
            "No"@
        },
    )
    &&& r.total_pcr_primer_changes > 0 ==> attr_is(
        a[11],
        "pcr_primer_changes"@,
        r.summaries.pcr_primer_changes@,
    )
}

/// `c` is the leaf made for the placed query `r`.
pub open spec fn is_new_leaf_for(c: AuspiceTreeNode, r: PlacementResult) -> bool {
    &&& c.name@ == r.seq_name@ + "_new"@
    &&& c.id == 0
    &&& !c.is_ref_node
    &&& c.div == Some(r.divergence)
    &&& c.clade == r.clade
    &&& new_leaf_attrs(c.node_attrs@, r)
    &&& c.custom_attrs@ == r.custom_node_attributes@
    &&& branch_mutations_of(c.branch_mutations@, r.private_nuc_mutations, r.private_aa_mutations@)
    &&& c.branch_labels@.len() == 0
    &&& c.children@.len() == 0
}

/// `c` is the auxiliary copy of the leaf `x`: same identity and attributes, no
/// branch mutations or labels.
pub open spec fn is_aux_of(c: AuspiceTreeNode, x: AuspiceTreeNode) -> bool {
    &&& c.name == x.name
    &&& c.id == x.id
    &&& c.is_ref_node == x.is_ref_node
    &&& c.div == x.div
    &&& c.clade == x.clade
    &&& c.node_attrs@ == x.node_attrs@
    &&& c.custom_attrs@ == x.custom_attrs@
    &&& c.branch_mutations@.len() == 0
    &&& c.branch_labels@.len() == 0
    &&& c.children@.len() == 0
}

/// All of a node but its name and children are the same in `a` and `b`.
pub open spec fn same_node_data(a: AuspiceTreeNode, b: AuspiceTreeNode) -> bool {
    &&& a.id == b.id
    &&& a.is_ref_node == b.is_ref_node
    &&& a.div == b.div
    &&& a.clade == b.clade
    &&& a.node_attrs == b.node_attrs
    &&& a.custom_attrs == b.custom_attrs
    &&& a.branch_mutations == b.branch_mutations
    &&& a.branch_labels == b.branch_labels
}

/// What one attachment pass makes of the subtree `old`. A node that is not a
/// reference node is left as it is, with all below it. A reference node has its
/// children attached first; where results are placed on it, the new branch comes
/// first among its children (one leaf for a single result, a grouped subtree for
/// several), and a former leaf also gains, last, an auxiliary copy of itself and
/// the name suffix `_parent`.
pub open spec fn attached(old: AuspiceTreeNode, new: AuspiceTreeNode, results: Seq<PlacementResult>) -> bool
    decreases old,
{
    if !old.is_ref_node {
        new == old
    } else {
        let g = targets(results, old.id, results.len());
        let k = old.children@.len();
        let off: int = if g.len() > 0 {
            1
        } else {
            0
        };
        let aux: int = if g.len() > 0 && k == 0 {
            1
        } else {
            0
        };
        &&& same_node_data(new, old)
        &&& new.name@ == if aux == 1 {
            old.name@ + "_parent"@
        } else {
            old.name@
        }
        &&& new.children@.len() == off + k + aux
        &&& forall|i: int|
            0 <= i < k ==> attached(#[trigger] old.children@[i], new.children@[off + i], results)
        &&& g.len() == 1 ==> is_new_leaf_for(new.children@[0], results[g[0] as int])
        &&& g.len() > 1 ==> is_group_subtree(new.children@[0], old, results, g)
        &&& aux == 1 ==> is_aux_of(new.children@[1], old)
    }
}

/// `c` is the subtree built under `x` for the queries at the indices of `group`:
/// clustered with the queries in the order of `member_before`, by name and index.
pub open spec fn is_group_subtree(
    c: AuspiceTreeNode,
    x: AuspiceTreeNode,
    results: Seq<PlacementResult>,
    group: Seq<usize>,
) -> bool {
    exists|s: Seq<usize>|
        in_member_order(results, group, s) && is_subtree_for(c, subtree_shape(results, s), x, results, s)
}

/// The subtree built for a group does not depend on the order in which the group
/// lists its indices.
pub proof fn lemma_subtree_independent_of_group_order(
    node: AuspiceTreeNode,
    results: Seq<PlacementResult>,
    g1: Seq<usize>,
    g2: Seq<usize>,
    c: AuspiceTreeNode,
)
    requires
        g1.to_multiset() == g2.to_multiset(),
    ensures
        is_group_subtree(c, node, results, g1) == is_group_subtree(c, node, results, g2),
{
    assert forall|x: usize| g1.contains(x) <==> g2.contains(x) by {
        vstd::seq_lib::to_multiset_contains(g1, x);
        vstd::seq_lib::to_multiset_contains(g2, x);
    }
    assert forall|s: Seq<usize>| in_member_order(results, g1, s) == in_member_order(results, g2, s) by {}
}

/// The group `g` holds a result equal to `q`.
pub open spec fn holds_query(results: Seq<PlacementResult>, g: Seq<usize>, q: PlacementResult) -> bool {
    exists|k: usize| #![trigger results[k as int]] g.contains(k) && results[k as int] == q
}

/// The queries themselves, not where they stand in the list of results, decide the
/// subtree: for two lists of results and a group in each that hold the same
/// queries, with distinct sequence names, the queries come in the same order and
/// the clustering has the same shape.
pub proof fn lemma_subtree_independent_of_query_order(
    results1: Seq<PlacementResult>,
    g1: Seq<usize>,
    s1: Seq<usize>,
    results2: Seq<PlacementResult>,
    g2: Seq<usize>,
    s2: Seq<usize>,
)
    requires
        in_member_order(results1, g1, s1),
        in_member_order(results2, g2, s2),
        forall|k: usize| g1.contains(k) ==> k < results1.len(),
        forall|k: usize| g2.contains(k) ==> k < results2.len(),
        forall|q: PlacementResult| #[trigger] holds_query(results1, g1, q) == holds_query(results2, g2, q),
        forall|a: usize, b: usize|
            g1.contains(a) && g1.contains(b) && results1[a as int].seq_name@ == results1[b as int].seq_name@
                ==> a == b,
        forall|a: usize, b: usize|
            g2.contains(a) && g2.contains(b) && results2[a as int].seq_name@ == results2[b as int].seq_name@
                ==> a == b,
    ensures
        s1.map_values(|k: usize| results1[k as int]) == s2.map_values(|k: usize| results2[k as int]),
        subtree_shape(results1, s1) == subtree_shape(results2, s2),
{
    let q1 = s1.map_values(|k: usize| results1[k as int]);
    let q2 = s2.map_values(|k: usize| results2[k as int]);
    let by_name = |p: PlacementResult, q: PlacementResult| name_lt(p.seq_name@, q.seq_name@);
    assert forall|x: PlacementResult| !#[trigger] by_name(x, x) by {
        lemma_name_lt_irreflexive(x.seq_name@);
    }
    assert forall|x: PlacementResult, y: PlacementResult| #[trigger] by_name(x, y) implies !#[trigger] by_name(
        y,
        x,
    ) by {
        lemma_name_lt_asymmetric(x.seq_name@, y.seq_name@);
    }
    lemma_sorted_by_name(results1, g1, s1);
    lemma_sorted_by_name(results2, g2, s2);
    assert forall|q: PlacementResult| q1.contains(q) <==> q2.contains(q) by {
        if q1.contains(q) {
            let a = choose|a: int| 0 <= a < q1.len() && q1[a] == q;
            assert(s1.contains(s1[a]));
            assert(g1.contains(s1[a]) && results1[s1[a] as int] == q);
            assert(holds_query(results1, g1, q));
            let k = choose|k: usize| g2.contains(k) && results2[k as int] == q;
            assert(s2.contains(k));
            let b = choose|b: int| 0 <= b < s2.len() && s2[b] == k;
            assert(q2[b] == q);
        }
        if q2.contains(q) {
            let a = choose|a: int| 0 <= a < q2.len() && q2[a] == q;
            assert(s2.contains(s2[a]));
            assert(g2.contains(s2[a]) && results2[s2[a] as int] == q);
            assert(holds_query(results2, g2, q));
            assert(holds_query(results1, g1, q));
            let k = choose|k: usize| g1.contains(k) && results1[k as int] == q;
            assert(s1.contains(k));
            let b = choose|b: int| 0 <= b < s1.len() && s1[b] == k;
            assert(q1[b] == q);
        }
    }
    lemma_sorted_unique(q1, q2, by_name);
    let m1 = distance_matrix(results1, s1);
    let m2 = distance_matrix(results2, s2);
    assert(s1.len() == s2.len()) by {
        assert(q1.len() == q2.len());
    }
    assert forall|i: int| 0 <= i < m1.len() implies #[trigger] m1[i] == m2[i] by {
        assert(q1[i] == q2[i]);
        assert forall|j: int| 0 <= j < m1.len() implies #[trigger] m1[i][j] == m2[i][j] by {
            assert(q1[j] == q2[j]);
        }
        assert(m1[i] =~= m2[i]);
    }
    assert(m1 =~= m2);
}

/// In a group with distinct sequence names, the member order is the order of names.
proof fn lemma_sorted_by_name(results: Seq<PlacementResult>, g: Seq<usize>, s: Seq<usize>)
    requires
        in_member_order(results, g, s),
        forall|a: usize, b: usize|
            g.contains(a) && g.contains(b) && results[a as int].seq_name@ == results[b as int].seq_name@
                ==> a == b,
    ensures
        strictly_sorted(
            s.map_values(|k: usize| results[k as int]),
            |p: PlacementResult, q: PlacementResult| name_lt(p.seq_name@, q.seq_name@),
        ),
{
    let q = s.map_values(|k: usize| results[k as int]);
    let by_name = |p: PlacementResult, q: PlacementResult| name_lt(p.seq_name@, q.seq_name@);
    assert forall|a: int, b: int| 0 <= a < b < q.len() implies #[trigger] by_name(q[a], q[b]) by {
        assert(before_in(results)(s[a], s[b]));
        assert(s.contains(s[a]) && s.contains(s[b]));
        if s[a] == s[b] {
            lemma_name_lt_irreflexive(results[s[a] as int].seq_name@);
        }
    }
}

/// A reference leaf on which exactly one query is placed ends with two children:
/// the leaf made for the query, then the auxiliary copy of itself, which keeps its
/// identifier and has no branch mutations. It stays a reference node and its name
/// gains `_parent`.
pub proof fn lemma_single_query_on_leaf(
    old: AuspiceTreeNode,
    new: AuspiceTreeNode,
    results: Seq<PlacementResult>,
)
    requires
        old.is_ref_node,
        old.children@.len() == 0,
        targets(results, old.id, results.len()).len() == 1,
        attached(old, new, results),
    ensures
        new.is_ref_node,
        new.id == old.id,
        new.name@ == old.name@ + "_parent"@,
        new.children@.len() == 2,
        is_new_leaf_for(new.children@[0], results[targets(results, old.id, results.len())[0] as int]),
        is_aux_of(new.children@[1], old),
        new.children@[1].id == old.id,
        new.children@[1].branch_mutations@.len() == 0,
{
}

/// A pass is not idempotent: on a reference node that results are placed on, a
/// second pass with the same results adds one more child.
pub proof fn lemma_second_pass_adds_children(
    old: AuspiceTreeNode,
    once: AuspiceTreeNode,
    twice: AuspiceTreeNode,
    results: Seq<PlacementResult>,
)
    requires
        old.is_ref_node,
        targets(results, old.id, results.len()).len() > 0,
        attached(old, once, results),
        attached(once, twice, results),
    ensures
        twice.children@.len() == once.children@.len() + 1,
{
}

proof fn lemma_subtree_under_same_node(
    c: AuspiceTreeNode,
    d: Dendrogram,
    x: AuspiceTreeNode,
    y: AuspiceTreeNode,
    results: Seq<PlacementResult>,
    members: Seq<usize>,
)
    requires
        x.name == y.name,
        x.div == y.div,
        x.clade == y.clade,
        is_subtree_for(c, d, x, results, members),
    ensures
        is_subtree_for(c, d, y, results, members),
    decreases d,
{
    match d {
        Dendrogram::Leaf(_) => {},
        Dendrogram::Join(a, b) => {
            assert(is_inner_node_for(c, y));
            lemma_subtree_under_same_node(c.children@[0], *a, x, y, results, members);
            lemma_subtree_under_same_node(c.children@[1], *b, x, y, results, members);
        },
    }
}

fn push_signed(s: &mut String, x: i64)
    ensures
        final(s)@ == old(s)@ + signed_decimal(x as int),
{
    if x < 0 {
        push_char(s, '-');
        push_decimal(s, (0i128 - x as i128) as u128);
        proof {
            assert(final(s)@ =~= old(s)@ + signed_decimal(x as int));
        }
    } else {
        push_decimal(s, x as u128);
    }
}

fn alignment_summary(r: &PlacementResult) -> (t: String)
    ensures
        t@ == alignment_text(*r),
{
    let mut t = String::from_str("start: ");
    push_decimal(&mut t, r.alignment_start as u128);
    t.append(", end: ");
    push_decimal(&mut t, r.alignment_end as u128);
    t.append(" (score: ");
    push_signed(&mut t, r.alignment_score);
    t.append(")");
    proof {
        assert(t@ =~= alignment_text(*r));
    }
    t
}

fn new_leaf_node_attrs(r: &PlacementResult) -> (a: Vec<NodeAttr>)
    ensures
        new_leaf_attrs(a@, *r),
{
    let mut a: Vec<NodeAttr> = Vec::new();
    a.push(NodeAttr::new("node_type", String::from_str("New")));
    a.push(NodeAttr::new("region", String::from_str("unknown")));
    a.push(NodeAttr::new("country", String::from_str("unknown")));
    a.push(NodeAttr::new("division", String::from_str("unknown")));
    a.push(NodeAttr::new("alignment", alignment_summary(r)));
    a.push(NodeAttr::new("missing", r.summaries.missing.clone()));
    a.push(NodeAttr::new("gaps", r.summaries.gaps.clone()));
    a.push(NodeAttr::new("non_acgtns", r.summaries.non_acgtns.clone()));
    a.push(NodeAttr::new("missing_genes", r.summaries.missing_genes.clone()));
    a.push(NodeAttr::new("qc_status", r.summaries.qc_status.clone()));
    if r.total_pcr_primer_changes > 0 {
        a.push(NodeAttr::new("has_pcr_primer_changes", String::from_str("Yes")));
        a.push(NodeAttr::new("pcr_primer_changes", r.summaries.pcr_primer_changes.clone()));
    } else {
        a.push(NodeAttr::new("has_pcr_primer_changes", String::from_str("No")));
    }
    a
}

/// The leaf that stands for a placed query.
pub(crate) fn new_leaf(r: &PlacementResult) -> (c: AuspiceTreeNode)
    ensures
        is_new_leaf_for(c, *r),
{
    let mut name = r.seq_name.clone();
    name.append("_new");
    AuspiceTreeNode {
        name,
        id: 0,
        is_ref_node: false,
        div: Some(r.divergence),
        clade: r.clade.clone(),
        node_attrs: new_leaf_node_attrs(r),
        custom_attrs: clone_attrs(&r.custom_node_attributes),
        branch_mutations: convert_mutations_to_node_branch_attrs(
            &r.private_nuc_mutations,
            &r.private_aa_mutations,
        ),
        branch_labels: Vec::new(),
        children: Vec::new(),
    }
}

/// Turns the leaf `node` into an inner node: an auxiliary copy of it, without
/// branch mutations or labels, becomes its child, and its name gains `_parent`.
fn add_aux_node(node: &mut AuspiceTreeNode)
    requires
        old(node).children@.len() == 0,
    ensures
        same_node_data(*final(node), *old(node)),
        final(node).name@ == old(node).name@ + "_parent"@,
        final(node).children@.len() == 1,
        is_aux_of(final(node).children@[0], *old(node)),
{
    let aux = AuspiceTreeNode {
        name: node.name.clone(),
        id: node.id,
        is_ref_node: node.is_ref_node,
        div: node.div,
        clade: node.clade.clone(),
        node_attrs: clone_attrs(&node.node_attrs),
        custom_attrs: clone_attrs(&node.custom_attrs),
        branch_mutations: Vec::new(),
        branch_labels: Vec::new(),
        children: Vec::new(),
    };
    node.children.push(aux);
    node.name.append("_parent");
}

/// Puts `child` first among the children of `node`, adding the auxiliary copy
/// first where `node` is a leaf.
fn graft(node: &mut AuspiceTreeNode, child: AuspiceTreeNode)
    ensures
        same_node_data(*final(node), *old(node)),
        old(node).children@.len() == 0 ==> {
            &&& final(node).name@ == old(node).name@ + "_parent"@
            &&& final(node).children@.len() == 2
            &&& is_aux_of(final(node).children@[1], *old(node))
        },
        old(node).children@.len() > 0 ==> {
            &&& final(node).name == old(node).name
            &&& final(node).children@ == seq![child] + old(node).children@
        },
        final(node).children@[0] == child,
{
    if node.children.len() == 0 {
        add_aux_node(node);
    }
    node.children.insert(0, child);
    proof {
        if old(node).children@.len() > 0 {
            assert(node.children@ =~= seq![child] + old(node).children@);
        }
    }
}

/// Attaches the leaf for `result` under `node`.
fn attach_new_node(node: &mut AuspiceTreeNode, result: &PlacementResult)
    requires
        old(node).is_ref_node,
        old(node).id == result.nearest_node_id,
    ensures
        same_node_data(*final(node), *old(node)),
        old(node).children@.len() == 0 ==> {
            &&& final(node).name@ == old(node).name@ + "_parent"@
            &&& final(node).children@.len() == 2
            &&& is_aux_of(final(node).children@[1], *old(node))
        },
        old(node).children@.len() > 0 ==> {
            &&& final(node).name == old(node).name
            &&& final(node).children@.len() == old(node).children@.len() + 1
            &&& forall|i: int|
                0 <= i < old(node).children@.len() ==> #[trigger] final(node).children@[i + 1]
                    == old(node).children@[i]
        },
        is_new_leaf_for(final(node).children@[0], *result),
{
    let leaf = new_leaf(result);
    graft(node, leaf);
}

/// The subtree for several results placed on `node`: the queries at the indices
/// that `positions` holds, ordered by sequence name (then index), clustered by the
/// distance between their private substitutions, under new inner nodes at zero
/// distance from `node`. `None` where `positions` is empty.
pub fn build_subtree(node: &AuspiceTreeNode, results: &[PlacementResult], positions: &Vec<usize>) -> (r:
    Option<AuspiceTreeNode>)
    requires
        forall|k: int| 0 <= k < positions@.len() ==> #[trigger] positions@[k] < results@.len(),
    ensures
        r is None <==> positions@.len() == 0,
        r matches Some(c) ==> is_group_subtree(c, *node, results@, positions@),
{
    if positions.len() == 0 {
        return None;
    }
    let members = order_members(results, positions);
    let matrix = calculate_distance_matrix(results, &members);
    proof {
        assert(matrix@.len() == matrix_view(matrix@).len());
        assert forall|i: int| 0 <= i < matrix_view(matrix@).len() implies (#[trigger] matrix_view(
            matrix@,
        )[i]).len() == matrix_view(matrix@).len() by {
            assert(matrix_view(matrix@)[i] == distance_matrix(results@, members@)[i]);
        }
        assert(positions@.contains(positions@[0]));
        assert(members@.contains(positions@[0]));
    }
    let shape = build_dendrogram(&matrix);
    let c = subtree_node(&shape, node, results, &members);
    Some(c)
}

/// Attaches the subtree for several results under `node`.
fn attach_new_nodes(node: &mut AuspiceTreeNode, results: &[PlacementResult], positions: &Vec<usize>)
    requires
        old(node).is_ref_node,
        positions@.len() > 0,
        forall|k: int|
            0 <= k < positions@.len() ==> #[trigger] positions@[k] < results@.len()
                && results@[positions@[k] as int].nearest_node_id == old(node).id,
    ensures
        same_node_data(*final(node), *old(node)),
        old(node).children@.len() == 0 ==> {
            &&& final(node).name@ == old(node).name@ + "_parent"@
            &&& final(node).children@.len() == 2
            &&& is_aux_of(final(node).children@[1], *old(node))
        },
        old(node).children@.len() > 0 ==> {
            &&& final(node).name == old(node).name
            &&& final(node).children@.len() == old(node).children@.len() + 1
            &&& forall|i: int|
                0 <= i < old(node).children@.len() ==> #[trigger] final(node).children@[i + 1]
                    == old(node).children@[i]
        },
        is_group_subtree(final(node).children@[0], *old(node), results@, positions@),
{
    match build_subtree(node, results, positions) {
        Some(subtree) => graft(node, subtree),
        None => {},
    }
}

proof fn lemma_targets_in_range(results: Seq<PlacementResult>, id: usize, n: nat)
    requires
        n <= usize::MAX,
    ensures
        forall|j: int|
            0 <= j < targets(results, id, n).len() ==> #[trigger] targets(results, id, n)[j] < n
                && results[targets(results, id, n)[j] as int].nearest_node_id == id,
    decreases n,
{
    if n > 0 {
        lemma_targets_in_range(results, id, (n - 1) as nat);
        let prev = targets(results, id, (n - 1) as nat);
        let last: Seq<usize> = if results[n - 1].nearest_node_id == id {
            seq![(n - 1) as usize]
        } else {
            Seq::<usize>::empty()
        };
        assert(targets(results, id, n) == prev + last);
        assert forall|j: int| 0 <= j < targets(results, id, n).len() implies #[trigger] targets(
            results,
            id,
            n,
        )[j] < n && results[targets(results, id, n)[j] as int].nearest_node_id == id by {
            if j < prev.len() {
                assert(targets(results, id, n)[j] == prev[j]);
            } else {
                assert(last.len() == 1);
                assert(targets(results, id, n)[j] == last[j - prev.len()]);
                assert(last[0] == (n - 1) as usize);
            }
        }
    }
}

/// Groups result indices by the node each result is placed on.
fn group_by_target(results: &[PlacementResult]) -> (m: HashMap<usize, Vec<usize>>)
    ensures
        positions_of(m@, results@),
{
    let mut m: HashMap<usize, Vec<usize>> = HashMap::new();
    let mut i: usize = 0;
    while i < results.len()
        invariant
            i <= results@.len(),
            forall|id: usize|
                #![trigger m@.contains_key(id)]
                #![trigger targets(results@, id, i as nat)]
                (m@.contains_key(id) ==> m@[id]@ == targets(results@, id, i as nat)) && (
                m@.contains_key(id) <==> targets(results@, id, i as nat).len() > 0),
        decreases results@.len() - i,
    {
        let key = results[i].nearest_node_id;
        let ghost old_m = m@;
        let mut v = match m.remove(&key) {
            Some(v) => v,
            None => Vec::new(),
        };
        v.push(i);
        m.insert(key, v);
        proof {
            assert forall|id: usize|
                #![trigger m@.contains_key(id)]
                #![trigger targets(results@, id, (i + 1) as nat)]
                (m@.contains_key(id) ==> m@[id]@ == targets(results@, id, (i + 1) as nat)) && (
                m@.contains_key(id) <==> targets(results@, id, (i + 1) as nat).len() > 0) by {
                let before = targets(results@, id, i as nat);
                assert(targets(results@, id, (i + 1) as nat) == before + if results@[i as int].nearest_node_id
                    == id {
                    seq![i]
                } else {
                    Seq::<usize>::empty()
                });
                if id == key {
                    assert(targets(results@, id, (i + 1) as nat) =~= before.push(i));
                } else {
                    assert(targets(results@, id, (i + 1) as nat) =~= before);
                    assert(old_m.contains_key(id) == m@.contains_key(id));
                }
            }
        }
        i = i + 1;
    }
    m
}

/// One attachment pass over the subtree `node`.
fn tree_attach_new_nodes_impl_in_place_recursive(
    node: AuspiceTreeNode,
    results: &[PlacementResult],
    attachment_positions: &HashMap<usize, Vec<usize>>,
) -> (r: AuspiceTreeNode)
    requires
        positions_of(attachment_positions@, results@),
    ensures
        attached(node, r, results@),
    decreases node,
{
    if !node.is_ref_node {
        return node;
    }
    let ghost old_node = node;
    let AuspiceTreeNode {
        name,
        id,
        is_ref_node,
        div,
        clade,
        node_attrs,
        custom_attrs,
        branch_mutations,
        branch_labels,
        children,
    } = node;
    let ghost kids = children@;
    let mut rest = children;
    let mut done: Vec<AuspiceTreeNode> = Vec::new();
    while rest.len() > 0
        invariant
            kids == old_node.children@,
            old_node == node,
            done@.len() + rest@.len() == kids.len(),
            rest@ == kids.subrange(done@.len() as int, kids.len() as int),
            positions_of(attachment_positions@, results@),
            forall|i: int| 0 <= i < done@.len() ==> attached(#[trigger] kids[i], done@[i], results@),
        decreases rest@.len(),
    {
        let child = rest.remove(0);
        proof {
            assert(child == kids[done@.len() as int]);
            assert(decreases_to!(old_node => old_node.children@[done@.len() as int]));
            assert(decreases_to!(old_node => child));
        }
        let updated = tree_attach_new_nodes_impl_in_place_recursive(child, results, attachment_positions);
        done.push(updated);
        proof {
            assert(rest@ =~= kids.subrange(done@.len() as int, kids.len() as int));
        }
    }
    let mut updated_node = AuspiceTreeNode {
        name,
        id,
        is_ref_node,
        div,
        clade,
        node_attrs,
        custom_attrs,
        branch_mutations,
        branch_labels,
        children: done,
    };
    let ghost attached_children = done@;
    let ghost pre = updated_node;
    let n_results = results.len();
    proof {
        assert(done@.len() == kids.len());
        lemma_targets_in_range(results@, id, results@.len());
    }
    // Look for the query results for which this node was found to be nearest.
    match attachment_positions.get(&id) {
        Some(positions) => {
            if positions.len() > 1 {
                attach_new_nodes(&mut updated_node, results, positions);
            } else {
                attach_new_node(&mut updated_node, &results[positions[0]]);
            }
        },
        None => {},
    }
    proof {
        let g = targets(results@, old_node.id, results@.len());
        let off: int = if g.len() > 0 {
            1
        } else {
            0
        };
        if g.len() > 1 {
            let c = updated_node.children@[0];
            assert(is_group_subtree(c, pre, results@, g));
            let w = choose|w: Seq<usize>|
                in_member_order(results@, g, w) && is_subtree_for(
                    c,
                    subtree_shape(results@, w),
                    pre,
                    results@,
                    w,
                );
            assert(pre.name == old_node.name && pre.div == old_node.div && pre.clade == old_node.clade);
            lemma_subtree_under_same_node(c, subtree_shape(results@, w), pre, old_node, results@, w);
        }
        assert forall|i: int| 0 <= i < kids.len() implies attached(
            #[trigger] old_node.children@[i],
            updated_node.children@[off + i],
            results@,
        ) by {
            if off == 1 {
                assert(updated_node.children@[i + 1] == attached_children[i]);
            }
        }
    }
    updated_node
}

/// A placed query whose target is not a reference node of the tree.
#[derive(Clone, Copy, Debug, PartialEq, Eq, Structural)]
pub struct AttachError {
    pub node_id: usize,
    pub query_index: usize,
}

/// The subtree `node` holds a reference node with identifier `id` that is reached
/// through reference nodes only.
pub open spec fn has_ref_node(node: AuspiceTreeNode, id: usize) -> bool
    decreases node,
{
    node.is_ref_node && (node.id == id || exists|i: int|
        0 <= i < node.children@.len() && has_ref_node(#[trigger] node.children@[i], id))
}

/// Every result is placed on a reference node of the tree.
pub open spec fn targets_known(root: AuspiceTreeNode, results: Seq<PlacementResult>) -> bool {
    forall|i: int| 0 <= i < results.len() ==> has_ref_node(root, #[trigger] results[i].nearest_node_id)
}

fn find_ref_node(node: &AuspiceTreeNode, id: usize) -> (r: bool)
    ensures
        r == has_ref_node(*node, id),
    decreases node,
{
    if !node.is_ref_node {
        return false;
    }
    if node.id == id {
        return true;
    }
    let mut i: usize = 0;
    while i < node.children.len()
        invariant
            node.is_ref_node,
            node.id != id,
            i <= node.children@.len(),
            forall|k: int| 0 <= k < i ==> !has_ref_node(#[trigger] node.children@[k], id),
        decreases node.children@.len() - i,
    {
        proof {
            assert(decreases_to!(*node => node.children@[i as int]));
        }
        if find_ref_node(&node.children[i], id) {
            return true;
        }
        i = i + 1;
    }
    false
}

/// Grafts every placed query onto the reference tree, in one pass: each result
/// goes under the reference node it is placed on. Calling it twice adds the
/// queries twice. Where some result is placed on a node that is not a reference
/// node of the tree, nothing is attached and the first such result is reported.
pub fn tree_attach_new_nodes_in_place(tree: &mut AuspiceTree, results: &[PlacementResult]) -> (r:
    Result<(), AttachError>)
    ensures
        r is Ok <==> targets_known(old(tree).tree, results@),
        r is Ok ==> attached(old(tree).tree, final(tree).tree, results@),
        r matches Err(e) ==> {
            &&& e.query_index < results@.len()
            &&& e.node_id == results@[e.query_index as int].nearest_node_id
            &&& !has_ref_node(old(tree).tree, e.node_id)
            &&& *final(tree) == *old(tree)
        },
{
    let mut i: usize = 0;
    while i < results.len()
        invariant
            i <= results@.len(),
            forall|k: int|
                0 <= k < i ==> has_ref_node(tree.tree, #[trigger] results@[k].nearest_node_id),
        decreases results@.len() - i,
    {
        let id = results[i].nearest_node_id;
        if !find_ref_node(&tree.tree, id) {
            return Err(AttachError { node_id: id, query_index: i });
        }
        i = i + 1;
    }
    let attachment_positions = group_by_target(results);
    let mut root = AuspiceTreeNode {
        name: String::new(),
        id: 0,
        is_ref_node: false,
        div: None,
        clade: String::new(),
        node_attrs: Vec::new(),
        custom_attrs: Vec::new(),
        branch_mutations: Vec::new(),
        branch_labels: Vec::new(),
        children: Vec::new(),
    };
    std::mem::swap(&mut root, &mut tree.tree);
    tree.tree = tree_attach_new_nodes_impl_in_place_recursive(root, results, &attachment_positions);
    Ok(())
}

} // verus!
