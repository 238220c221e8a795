use nextclade::branch_mutations::PrivateNucMutations;
use nextclade::divergence::{calculate_branch_length, BranchLength, DivergenceUnits, NucRange};
use nextclade::letter::Nuc;
use nextclade::mutation::NucSub;
use nextclade::placement::{
    nextclade_run_one, GraphNode, NearestNodeCandidate, PlacementError, PlacementParams,
    QueryAnalysis, QuerySummaries,
};
use nextclade::tree::NodeAttr;

fn subs(n: usize) -> Vec<NucSub> {
    (0..n).map(|i| NucSub { pos: 100 * i, ref_nuc: Nuc::A, qry_nuc: Nuc::G }).collect()
}

fn analysis(candidates: Vec<(usize, u64)>, n_subs: usize) -> QueryAnalysis {
    QueryAnalysis {
        nearest_node_candidates: candidates
            .into_iter()
            .map(|(node_key, distance)| NearestNodeCandidate { node_key, distance })
            .collect(),
        private_nuc_mutations: PrivateNucMutations {
            private_substitutions: subs(n_subs),
            private_deletions: vec![],
        },
        private_aa_mutations: vec![],
        alignment_start: 0,
        alignment_end: 100,
        alignment_score: 300,
        total_pcr_primer_changes: 0,
        summaries: QuerySummaries {
            missing: String::new(),
            gaps: String::new(),
            non_acgtns: String::new(),
            pcr_primer_changes: String::new(),
            missing_genes: String::new(),
            qc_status: String::new(),
        },
    }
}

fn graph() -> Vec<GraphNode> {
    vec![
        GraphNode { name: "root".to_owned(), clade: "19A".to_owned(), div_bits: None, clade_node_attrs: vec![] },
        GraphNode {
            name: "n1".to_owned(),
            clade: "20A".to_owned(),
            div_bits: Some(2.5f64.to_bits()),
            clade_node_attrs: vec![NodeAttr { key: "lineage".to_owned(), value: "B.1".to_owned() }],
        },
        GraphNode { name: "n2".to_owned(), clade: "20B".to_owned(), div_bits: Some(3.0f64.to_bits()), clade_node_attrs: vec![] },
    ]
}

fn params(with_ties: bool, units: DivergenceUnits) -> PlacementParams {
    PlacementParams {
        include_nearest_node_info: with_ties,
        divergence_units: units,
        masked_ranges: vec![],
        ref_seq_len: 30000,
    }
}

#[test]
fn nearest_candidate_decides_placement() {
    let r = nextclade_run_one(4, "seq", analysis(vec![(1, 2), (2, 2), (0, 5)], 3), &graph(), &params(true, DivergenceUnits::NumSubstitutionsPerYear))
        .unwrap();
    assert_eq!(r.index, 4);
    assert_eq!(r.seq_name, "seq");
    assert_eq!(r.nearest_node_id, 1);
    assert_eq!(r.clade, "20A");
    assert_eq!(r.custom_node_attributes[0].value, "B.1");
    assert_eq!(r.nearest_nodes, Some(vec!["n1".to_owned(), "n2".to_owned()]));
    assert_eq!(r.divergence.base_bits, 2.5f64.to_bits());
    assert_eq!(r.divergence.branch, BranchLength { substitutions: 3, sites: 1 });
}

#[test]
fn ties_are_not_reported_unless_asked() {
    let r = nextclade_run_one(0, "seq", analysis(vec![(2, 1), (1, 1)], 0), &graph(), &params(false, DivergenceUnits::NumSubstitutionsPerYear))
        .unwrap();
    assert_eq!(r.nearest_node_id, 2);
    assert_eq!(r.nearest_nodes, None);
}

#[test]
fn node_without_divergence_counts_as_zero() {
    let r = nextclade_run_one(0, "seq", analysis(vec![(0, 0)], 1), &graph(), &params(false, DivergenceUnits::NumSubstitutionsPerYear))
        .unwrap();
    assert_eq!(r.divergence.base_bits, 0.0f64.to_bits());
}

#[test]
fn per_site_divergence_divides_by_reference_length() {
    let r = nextclade_run_one(0, "seq", analysis(vec![(1, 0)], 3), &graph(), &params(false, DivergenceUnits::NumSubstitutionsPerYearPerSite))
        .unwrap();
    assert_eq!(r.divergence.branch, BranchLength { substitutions: 3, sites: 30000 });
}

#[test]
fn no_candidates_is_an_error() {
    let r = nextclade_run_one(0, "seq", analysis(vec![], 0), &graph(), &params(true, DivergenceUnits::NumSubstitutionsPerYear));
    assert_eq!(r.err(), Some(PlacementError::NoCandidates));
}

#[test]
fn unknown_nearest_node_is_an_error() {
    let r = nextclade_run_one(0, "seq", analysis(vec![(9, 0)], 0), &graph(), &params(false, DivergenceUnits::NumSubstitutionsPerYear));
    assert_eq!(r.err(), Some(PlacementError::UnknownNode { node_key: 9 }));
}

#[test]
fn unknown_tied_node_is_an_error_when_reported() {
    let a = analysis(vec![(1, 0), (7, 0)], 0);
    let r = nextclade_run_one(0, "seq", a, &graph(), &params(true, DivergenceUnits::NumSubstitutionsPerYear));
    assert_eq!(r.err(), Some(PlacementError::UnknownNode { node_key: 7 }));
    let a = analysis(vec![(1, 0), (7, 0)], 0);
    let r = nextclade_run_one(0, "seq", a, &graph(), &params(false, DivergenceUnits::NumSubstitutionsPerYear));
    assert!(r.is_ok());
}

#[test]
fn branch_length_plain_and_per_site() {
    let s = subs(3);
    let plain = calculate_branch_length(&s, &vec![], DivergenceUnits::NumSubstitutionsPerYear, 30000);
    assert_eq!(plain, BranchLength { substitutions: 3, sites: 1 });
    let per_site = calculate_branch_length(&s, &vec![], DivergenceUnits::NumSubstitutionsPerYearPerSite, 30000);
    assert_eq!(per_site, BranchLength { substitutions: 3, sites: 30000 });
}

#[test]
fn masked_substitutions_are_not_counted() {
    let s = subs(3); // positions 0, 100, 200
    let masked = vec![NucRange { begin: 50, end: 101 }, NucRange { begin: 200, end: 201 }];
    let b = calculate_branch_length(&s, &masked, DivergenceUnits::NumSubstitutionsPerYear, 30000);
    assert_eq!(b, BranchLength { substitutions: 1, sites: 1 });
}

#[test]
fn per_site_branch_length_as_a_number() {
    let s = subs(3);
    let parent_div = 0.25f64;
    let per_site = calculate_branch_length(&s, &vec![], DivergenceUnits::NumSubstitutionsPerYearPerSite, 30000);
    let plain = calculate_branch_length(&s, &vec![], DivergenceUnits::NumSubstitutionsPerYear, 30000);
    let value = |b: BranchLength| parent_div + b.substitutions as f64 / b.sites as f64;
    assert_eq!(value(per_site), parent_div + 3.0 / 30000.0);
    assert_eq!(value(plain), parent_div + 3.0);
}
