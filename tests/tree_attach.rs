use nextclade::branch_mutations::{PrivateNucMutations, SegmentMutations};
use nextclade::divergence::{BranchLength, Divergence};
use nextclade::letter::Nuc;
use nextclade::mutation::NucSub;
use nextclade::placement::{PlacementResult, QuerySummaries};
use nextclade::tree::{AuspiceTree, AuspiceTreeNode, NodeAttr};
use nextclade::tree_attach::{build_subtree, tree_attach_new_nodes_in_place, AttachError};
use nextclade::tree_builder::calculate_distance_matrix;

fn ref_node(name: &str, id: usize, children: Vec<AuspiceTreeNode>) -> AuspiceTreeNode {
    AuspiceTreeNode {
        name: name.to_owned(),
        id,
        is_ref_node: true,
        div: Some(Divergence { base_bits: 0, branch: BranchLength { substitutions: 0, sites: 1 } }),
        clade: "20A".to_owned(),
        node_attrs: vec![NodeAttr { key: "country".to_owned(), value: "Spain".to_owned() }],
        custom_attrs: vec![],
        branch_mutations: vec![SegmentMutations {
            segment: "nuc".to_owned(),
            mutations: vec!["C241T".to_owned()],
        }],
        branch_labels: vec![NodeAttr { key: "clade".to_owned(), value: "20A".to_owned() }],
        children,
    }
}

fn summaries() -> QuerySummaries {
    QuerySummaries {
        missing: String::new(),
        gaps: String::new(),
        non_acgtns: String::new(),
        pcr_primer_changes: String::new(),
        missing_genes: String::new(),
        qc_status: "good".to_owned(),
    }
}

fn result(index: usize, name: &str, target: usize, subs: Vec<NucSub>) -> PlacementResult {
    let n = subs.len();
    PlacementResult {
        index,
        seq_name: name.to_owned(),
        nearest_node_id: target,
        nearest_nodes: None,
        clade: "20A".to_owned(),
        divergence: Divergence { base_bits: 0, branch: BranchLength { substitutions: n, sites: 1 } },
        private_nuc_mutations: PrivateNucMutations { private_substitutions: subs, private_deletions: vec![] },
        private_aa_mutations: vec![],
        custom_node_attributes: vec![NodeAttr { key: "lineage".to_owned(), value: "B.1".to_owned() }],
        alignment_start: 0,
        alignment_end: 29903,
        alignment_score: 89000,
        total_pcr_primer_changes: 0,
        summaries: summaries(),
    }
}

fn a10t() -> NucSub {
    NucSub { pos: 9, ref_nuc: Nuc::A, qry_nuc: Nuc::T }
}

fn c20g() -> NucSub {
    NucSub { pos: 19, ref_nuc: Nuc::C, qry_nuc: Nuc::G }
}

fn attr<'a>(n: &'a AuspiceTreeNode, key: &str) -> Option<&'a str> {
    n.node_attrs.iter().find(|a| a.key == key).map(|a| a.value.as_str())
}

#[test]
fn single_query_on_leaf_gets_aux_and_new_leaf() {
    let leaf = ref_node("X", 7, vec![]);
    let mut tree = AuspiceTree { tree: ref_node("root", 1, vec![leaf]) };
    let results = vec![result(0, "q1", 7, vec![a10t()])];
    tree_attach_new_nodes_in_place(&mut tree, &results).unwrap();

    let x = &tree.tree.children[0];
    assert_eq!(x.name, "X_parent");
    assert!(x.is_ref_node);
    assert_eq!(x.id, 7);
    assert_eq!(x.children.len(), 2);

    let new_leaf = &x.children[0];
    assert_eq!(new_leaf.name, "q1_new");
    assert!(!new_leaf.is_ref_node);
    assert_eq!(new_leaf.branch_mutations[0].segment, "nuc");
    assert_eq!(new_leaf.branch_mutations[0].mutations, vec!["A10T"]);
    assert_eq!(attr(new_leaf, "node_type"), Some("New"));
    assert_eq!(attr(new_leaf, "alignment"), Some("start: 0, end: 29903 (score: 89000)"));
    assert_eq!(attr(new_leaf, "has_pcr_primer_changes"), Some("No"));
    assert_eq!(attr(new_leaf, "qc_status"), Some("good"));
    assert_eq!(new_leaf.custom_attrs[0].value, "B.1");

    let aux = &x.children[1];
    assert_eq!(aux.id, 7);
    assert_eq!(aux.name, "X");
    assert!(aux.is_ref_node);
    assert!(aux.branch_mutations.is_empty());
    assert!(aux.branch_labels.is_empty());
    assert_eq!(attr(aux, "country"), Some("Spain"));

    assert_eq!(tree.tree.name, "root");
    assert_eq!(tree.tree.children.len(), 1);
}

#[test]
fn two_queries_on_leaf_form_a_grouped_subtree() {
    let mut tree = AuspiceTree { tree: ref_node("R", 3, vec![]) };
    let results = vec![result(0, "Q1", 3, vec![a10t()]), result(1, "Q2", 3, vec![a10t(), c20g()])];
    tree_attach_new_nodes_in_place(&mut tree, &results).unwrap();

    let r = &tree.tree;
    assert_eq!(r.name, "R_parent");
    assert!(r.is_ref_node);
    assert_eq!(r.children.len(), 2);

    let group = &r.children[0];
    assert!(!group.is_ref_node);
    assert_eq!(group.name, "R_group");
    assert_eq!(group.children.len(), 2);
    assert_eq!(group.children[0].name, "Q1_new");
    assert_eq!(group.children[1].name, "Q2_new");
    assert_eq!(
        group.children[0].div,
        Some(Divergence { base_bits: 0, branch: BranchLength { substitutions: 1, sites: 1 } })
    );
    assert_eq!(
        group.children[1].div,
        Some(Divergence { base_bits: 0, branch: BranchLength { substitutions: 2, sites: 1 } })
    );
    assert_eq!(group.children[1].branch_mutations[0].mutations, vec!["A10T", "C20G"]);

    let aux = &r.children[1];
    assert_eq!(aux.name, "R");
    assert_eq!(aux.id, 3);
    assert!(aux.branch_mutations.is_empty());
}

fn shape(n: &AuspiceTreeNode) -> String {
    if n.children.is_empty() {
        n.name.clone()
    } else {
        let inner: Vec<String> = n.children.iter().map(shape).collect();
        format!("({})", inner.join(","))
    }
}

fn sub(pos: usize, r: Nuc, q: Nuc) -> NucSub {
    NucSub { pos, ref_nuc: r, qry_nuc: q }
}

#[test]
fn subtree_does_not_depend_on_group_order() {
    let node = ref_node("R", 3, vec![]);
    let results = vec![
        result(0, "Q1", 3, vec![a10t()]),
        result(1, "Q2", 3, vec![a10t(), c20g()]),
        result(2, "Q3", 3, vec![c20g()]),
    ];
    let a = build_subtree(&node, &results, &vec![0, 1, 2]).unwrap();
    let b = build_subtree(&node, &results, &vec![2, 0, 1]).unwrap();
    let c = build_subtree(&node, &results, &vec![1, 2, 0]).unwrap();
    assert_eq!(shape(&a), "((Q1_new,Q2_new),Q3_new)");
    assert_eq!(shape(&a), shape(&b));
    assert_eq!(shape(&a), shape(&c));
}

#[test]
fn equally_close_queries_cluster_by_name_whatever_their_order() {
    let node = ref_node("R", 3, vec![]);
    let q1 = || result(0, "Q1", 3, vec![a10t()]);
    let q2 = || result(0, "Q2", 3, vec![c20g()]);
    let q3 = || result(0, "Q3", 3, vec![sub(29, Nuc::G, Nuc::A)]);
    let first = vec![q1(), q2(), q3()];
    let second = vec![q3(), q1(), q2()];
    let a = build_subtree(&node, &first, &vec![0, 1, 2]).unwrap();
    let b = build_subtree(&node, &second, &vec![0, 1, 2]).unwrap();
    assert_eq!(shape(&a), "((Q1_new,Q2_new),Q3_new)");
    assert_eq!(shape(&a), shape(&b));
}

#[test]
fn closest_queries_become_siblings() {
    let node = ref_node("R", 3, vec![]);
    let results = vec![
        result(0, "Q1", 3, vec![a10t(), c20g(), sub(29, Nuc::G, Nuc::A)]),
        result(1, "Q2", 3, vec![sub(39, Nuc::T, Nuc::C)]),
        result(2, "Q3", 3, vec![sub(39, Nuc::T, Nuc::C), sub(49, Nuc::A, Nuc::G)]),
    ];
    let t = build_subtree(&node, &results, &vec![0, 1, 2]).unwrap();
    assert_eq!(shape(&t), "(Q1_new,(Q2_new,Q3_new))");
    assert_eq!(t.name, "R_group");
    assert!(!t.is_ref_node);
    assert_eq!(t.children[1].name, "R_group");
}

#[test]
fn distance_matrix_counts_differing_substitutions() {
    let results = vec![
        result(0, "Q1", 3, vec![a10t(), c20g(), sub(29, Nuc::G, Nuc::A)]),
        result(1, "Q2", 3, vec![sub(39, Nuc::T, Nuc::C)]),
        result(2, "Q3", 3, vec![sub(39, Nuc::T, Nuc::C), sub(49, Nuc::A, Nuc::G)]),
    ];
    let m = calculate_distance_matrix(&results, &vec![0, 1, 2]);
    assert_eq!(m, vec![vec![0, 4, 5], vec![4, 0, 1], vec![5, 1, 0]]);
}

#[test]
fn empty_group_builds_nothing() {
    let node = ref_node("R", 3, vec![]);
    let results = vec![result(0, "Q1", 3, vec![])];
    assert!(build_subtree(&node, &results, &vec![]).is_none());
}

#[test]
fn query_on_inner_node_goes_first_without_aux() {
    let mut tree = AuspiceTree {
        tree: ref_node("root", 1, vec![ref_node("A", 2, vec![]), ref_node("B", 3, vec![])]),
    };
    let results = vec![result(0, "q", 1, vec![])];
    tree_attach_new_nodes_in_place(&mut tree, &results).unwrap();
    let root = &tree.tree;
    assert_eq!(root.name, "root");
    assert_eq!(root.children.len(), 3);
    assert_eq!(root.children[0].name, "q_new");
    assert_eq!(root.children[1].name, "A");
    assert_eq!(root.children[2].name, "B");
}

#[test]
fn new_nodes_are_never_attachment_targets() {
    let mut below = ref_node("N", 5, vec![]);
    below.is_ref_node = false;
    let mut tree = AuspiceTree { tree: ref_node("root", 1, vec![below]) };
    let results = vec![result(0, "q", 5, vec![])];
    let r = tree_attach_new_nodes_in_place(&mut tree, &results);
    assert_eq!(r, Err(AttachError { node_id: 5, query_index: 0 }));
    assert_eq!(tree.tree.children.len(), 1);
    assert!(tree.tree.children[0].children.is_empty());
    assert_eq!(tree.tree.children[0].name, "N");
}

#[test]
fn unknown_target_aborts_the_whole_pass() {
    let mut tree = AuspiceTree { tree: ref_node("root", 1, vec![ref_node("X", 7, vec![])]) };
    let results = vec![result(0, "q1", 7, vec![a10t()]), result(1, "q2", 99, vec![])];
    let r = tree_attach_new_nodes_in_place(&mut tree, &results);
    assert_eq!(r, Err(AttachError { node_id: 99, query_index: 1 }));
    assert_eq!(tree.tree.name, "root");
    assert!(tree.tree.children[0].children.is_empty());
    assert_eq!(tree.tree.children[0].name, "X");
}

#[test]
fn second_pass_adds_duplicate_children() {
    let mut tree = AuspiceTree { tree: ref_node("root", 1, vec![ref_node("X", 7, vec![])]) };
    let results = vec![result(0, "q1", 7, vec![a10t()])];
    tree_attach_new_nodes_in_place(&mut tree, &results).unwrap();
    assert_eq!(tree.tree.children[0].children.len(), 2);
    tree_attach_new_nodes_in_place(&mut tree, &results).unwrap();
    let x = &tree.tree.children[0];
    assert_eq!(x.children.len(), 3);
    assert_eq!(x.children[0].name, "q1_new");
    assert_eq!(x.children[1].name, "q1_new");
    assert_eq!(x.name, "X_parent");
    // the auxiliary copy shares the identifier of the node, and also received the query
    assert_eq!(x.children[2].id, 7);
    assert_eq!(x.children[2].children.len(), 2);
}

#[test]
fn pcr_primer_changes_are_listed() {
    let mut tree = AuspiceTree { tree: ref_node("root", 1, vec![]) };
    let mut r = result(0, "q", 1, vec![]);
    r.total_pcr_primer_changes = 2;
    r.summaries.pcr_primer_changes = "CDC_N1:C28274T".to_owned();
    r.alignment_score = -5;
    tree_attach_new_nodes_in_place(&mut tree, &[r]).unwrap();
    let leaf = &tree.tree.children[0];
    assert_eq!(attr(leaf, "has_pcr_primer_changes"), Some("Yes"));
    assert_eq!(attr(leaf, "pcr_primer_changes"), Some("CDC_N1:C28274T"));
    assert_eq!(attr(leaf, "alignment"), Some("start: 0, end: 29903 (score: -5)"));
}
