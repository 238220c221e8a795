use vstd::prelude::*;

use crate::branch_mutations::{PrivateAaMutations, PrivateNucMutations};
use crate::divergence::{
    branch_length_of, calculate_branch_length, count_unmasked, Divergence, DivergenceUnits, NucRange,
};
use crate::mutation::NucSub;
use crate::tree::{clone_attrs, NodeAttr};

verus! {

/// Texts that describe a query, rendered by the formatting layer.
pub struct QuerySummaries {
    pub missing: String,
    pub gaps: String,
    pub non_acgtns: String,
    pub pcr_primer_changes: String,
    pub missing_genes: String,
    pub qc_status: String,
}

/// Where one query goes in the reference tree, and what it carries there.
pub struct PlacementResult {
    pub index: usize,
    pub seq_name: String,
    pub nearest_node_id: usize,
    /// Names of all candidates as near as the nearest one, where asked for.
    pub nearest_nodes: Option<Vec<String>>,
    pub clade: String,
    pub divergence: Divergence,
    pub private_nuc_mutations: PrivateNucMutations,
    pub private_aa_mutations: Vec<PrivateAaMutations>,
    pub custom_node_attributes: Vec<NodeAttr>,
    pub alignment_start: usize,
    pub alignment_end: usize,
    pub alignment_score: i64,
    pub total_pcr_primer_changes: usize,
    pub summaries: QuerySummaries,
}

} // verus!

verus! {

/// A node of the reference tree that a query may be placed on, with its distance
/// to the query, as the nearest-node search reports it.
#[derive(Clone, Copy, Debug, PartialEq, Eq, Structural)]
pub struct NearestNodeCandidate {
    pub node_key: usize,
    pub distance: u64,
}

/// What placement reads of a reference tree node; nodes are found by their key,
/// the position in the list.
pub struct GraphNode {
    pub name: String,
    pub clade: String,
    /// Divergence, as the bit pattern of an IEEE-754 double, where the node has one.
    pub div_bits: Option<u64>,
    pub clade_node_attrs: Vec<NodeAttr>,
}

/// Settings of a run that placement reads.
pub struct PlacementParams {
    pub include_nearest_node_info: bool,
    pub divergence_units: DivergenceUnits,
    pub masked_ranges: Vec<NucRange>,
    pub ref_seq_len: usize,
}

/// What the alignment, mutation-calling and nearest-node layers found for one query.
pub struct QueryAnalysis {
    /// Candidate nodes, nearest first.
    pub nearest_node_candidates: Vec<NearestNodeCandidate>,
    pub private_nuc_mutations: PrivateNucMutations,
    pub private_aa_mutations: Vec<PrivateAaMutations>,
    pub alignment_start: usize,
    pub alignment_end: usize,
    pub alignment_score: i64,
    pub total_pcr_primer_changes: usize,
    pub summaries: QuerySummaries,
}

/// Why a query could not be placed.
#[derive(Clone, Copy, Debug, PartialEq, Eq, Structural)]
pub enum PlacementError {
    /// The nearest-node search reported no candidate.
    NoCandidates,
    /// A candidate names a node that the tree does not have.
    UnknownNode { node_key: usize },
}

/// Keys of the first `n` candidates whose distance is `d`, in order.
pub open spec fn tied_keys(c: Seq<NearestNodeCandidate>, d: u64, n: nat) -> Seq<usize>
    decreases n,
{
    if n == 0 {
        Seq::<usize>::empty()
    } else {
        tied_keys(c, d, (n - 1) as nat) + if c[n - 1].distance == d {
            seq![c[n - 1].node_key]
        } else {
            Seq::<usize>::empty()
        }
    }
}

/// Keys of all candidates as near as the first one.
pub open spec fn nearest_keys(c: Seq<NearestNodeCandidate>) -> Seq<usize> {
    tied_keys(c, c[0].distance, c.len())
}

/// Placement succeeds: there is a candidate, the tree has the nearest one, and,
/// where the tied candidates are reported, each of those too.
pub open spec fn placeable(c: Seq<NearestNodeCandidate>, n_nodes: nat, include_nearest: bool) -> bool {
    &&& c.len() > 0
    &&& c[0].node_key < n_nodes
    &&& include_nearest ==> forall|i: int|
        0 <= i < nearest_keys(c).len() ==> #[trigger] nearest_keys(c)[i] < n_nodes
}

/// The divergence of a query placed on `node`: the node's own (zero where it has
/// none; 0 is the bit pattern of 0.0) plus the branch length of the private
/// substitutions outside masked ranges.
pub open spec fn placed_divergence(
    node: GraphNode,
    subs: Seq<NucSub>,
    params: PlacementParams,
) -> (u64, (nat, nat)) {
    (
        match node.div_bits {
            Some(b) => b,
            None => 0u64,
        },
        branch_length_of(
            count_unmasked(subs, params.masked_ranges@),
            params.divergence_units,
            params.ref_seq_len as nat,
        ),
    )
}

/// Places one analysed query: it goes on the first (nearest) candidate, takes that
/// node's clade and clade attributes, and derives its divergence from the node's.
/// The names of all equally near candidates are reported where the parameters ask
/// for it; they never change where the query goes.
pub fn nextclade_run_one(
    index: usize,
    seq_name: &str,
    analysis: QueryAnalysis,
    graph: &Vec<GraphNode>,
    params: &PlacementParams,
) -> (r: Result<PlacementResult, PlacementError>)
    ensures
        r is Ok <==> placeable(
            analysis.nearest_node_candidates@,
            graph@.len(),
            params.include_nearest_node_info,
        ),
        r == Err::<PlacementResult, PlacementError>(PlacementError::NoCandidates)
            <==> analysis.nearest_node_candidates@.len() == 0,
        r matches Err(PlacementError::UnknownNode { node_key }) ==> node_key >= graph@.len()
            && nearest_keys(analysis.nearest_node_candidates@).contains(node_key),
        r matches Ok(p) ==> {
            let c = analysis.nearest_node_candidates@;
            let node = graph@[c[0].node_key as int];
            let ties = nearest_keys(c);
            &&& p.index == index
            &&& p.seq_name@ == seq_name@
            &&& p.nearest_node_id == c[0].node_key
            &&& p.clade == node.clade
            &&& p.custom_node_attributes@ == node.clade_node_attrs@
            &&& (p.divergence.base_bits, (p.divergence.branch.substitutions as nat, p.divergence.branch.sites as nat))
                == placed_divergence(node, analysis.private_nuc_mutations.private_substitutions@, *params)
            &&& p.private_nuc_mutations == analysis.private_nuc_mutations
            &&& p.private_aa_mutations == analysis.private_aa_mutations
            &&& p.alignment_start == analysis.alignment_start
            &&& p.alignment_end == analysis.alignment_end
            &&& p.alignment_score == analysis.alignment_score
            &&& p.total_pcr_primer_changes == analysis.total_pcr_primer_changes
            &&& p.summaries == analysis.summaries
            &&& match p.nearest_nodes {
                None => !params.include_nearest_node_info,
                Some(names) => {
                    &&& params.include_nearest_node_info
                    &&& names@.len() == ties.len()
                    &&& forall|i: int|
                        0 <= i < ties.len() ==> #[trigger] names@[i] == graph@[ties[i] as int].name
                },
            }
        },
{
    let c = &analysis.nearest_node_candidates;
    if c.len() == 0 {
        return Err(PlacementError::NoCandidates);
    }
    let nearest_key = c[0].node_key;
    if nearest_key >= graph.len() {
        proof {
            lemma_first_is_tied(c@);
        }
        return Err(PlacementError::UnknownNode { node_key: nearest_key });
    }
    let nearest_node = &graph[nearest_key];

    let nearest_nodes = if params.include_nearest_node_info {
        let d = c[0].distance;
        let mut names: Vec<String> = Vec::new();
        let mut i: usize = 0;
        while i < c.len()
            invariant
                i <= c@.len(),
                c@ == analysis.nearest_node_candidates@,
                c@.len() > 0,
                params.include_nearest_node_info,
                nearest_key == c@[0].node_key,
                nearest_key < graph@.len(),
                d == c@[0].distance,
                names@.len() == tied_keys(c@, d, i as nat).len(),
                forall|j: int| 0 <= j < tied_keys(c@, d, i as nat).len() ==> #[trigger] tied_keys(c@, d, i as nat)[j] < graph@.len(),
                forall|j: int|
                    0 <= j < names@.len() ==> #[trigger] names@[j] == graph@[tied_keys(c@, d, i as nat)[j] as int].name,
            decreases c@.len() - i,
        {
            let ghost before = tied_keys(c@, d, i as nat);
            let ghost old_names = names@;
            proof {
                assert(tied_keys(c@, d, (i + 1) as nat) == before + if c@[i as int].distance == d {
                    seq![c@[i as int].node_key]
                } else {
                    Seq::<usize>::empty()
                });
            }
            if c[i].distance == d {
                let key = c[i].node_key;
                if key >= graph.len() {
                    proof {
                        lemma_tied_prefix(c@, d, (i + 1) as nat);
                        assert(tied_keys(c@, d, (i + 1) as nat)[before.len() as int] == key);
                        assert(tied_keys(c@, d, (i + 1) as nat).len() == before.len() + 1);
                        assert(nearest_keys(c@)[before.len() as int] == key);
                        assert(!placeable(c@, graph@.len() as nat, true));
                    }
                    return Err(PlacementError::UnknownNode { node_key: key });
                }
                names.push(graph[key].name.clone());
            }
            i = i + 1;
            proof {
                let now = tied_keys(c@, d, i as nat);
                assert forall|j: int| 0 <= j < now.len() implies #[trigger] now[j] < graph@.len() by {
                    if j < before.len() {
                        assert(now[j] == before[j]);
                    }
                }
                assert forall|j: int| 0 <= j < names@.len() implies #[trigger] names@[j] == graph@[now[j] as int].name by {
                    if j < old_names.len() {
                        assert(names@[j] == old_names[j]);
                        assert(now[j] == before[j]);
                    }
                }
            }
        }
        Some(names)
    } else {
        None
    };

    let branch = calculate_branch_length(
        &analysis.private_nuc_mutations.private_substitutions,
        &params.masked_ranges,
        params.divergence_units,
        params.ref_seq_len,
    );
    let base_bits = match nearest_node.div_bits {
        Some(b) => b,
        None => 0u64,
    };
    Ok(PlacementResult {
        index,
        seq_name: String::from_str(seq_name),
        nearest_node_id: nearest_key,
        nearest_nodes,
        clade: nearest_node.clade.clone(),
        divergence: Divergence { base_bits, branch },
        private_nuc_mutations: analysis.private_nuc_mutations,
        private_aa_mutations: analysis.private_aa_mutations,
        custom_node_attributes: clone_attrs(&nearest_node.clade_node_attrs),
        alignment_start: analysis.alignment_start,
        alignment_end: analysis.alignment_end,
        alignment_score: analysis.alignment_score,
        total_pcr_primer_changes: analysis.total_pcr_primer_changes,
        summaries: analysis.summaries,
    })
}

proof fn lemma_tied_prefix(c: Seq<NearestNodeCandidate>, d: u64, n: nat)
    requires
        n <= c.len(),
    ensures
        tied_keys(c, d, c.len()).len() >= tied_keys(c, d, n).len(),
        forall|j: int|
            0 <= j < tied_keys(c, d, n).len() ==> #[trigger] tied_keys(c, d, c.len())[j] == tied_keys(
                c,
                d,
                n,
            )[j],
    decreases c.len() - n,
{
    if n < c.len() {
        lemma_tied_prefix(c, d, n + 1);
        let next = tied_keys(c, d, n + 1);
        assert(next == tied_keys(c, d, n) + if c[n as int].distance == d {
            seq![c[n as int].node_key]
        } else {
            Seq::<usize>::empty()
        });
        assert forall|j: int| 0 <= j < tied_keys(c, d, n).len() implies #[trigger] tied_keys(c, d, c.len())[j] == tied_keys(c, d, n)[j] by {
            assert(next[j] == tied_keys(c, d, n)[j]);
            assert(tied_keys(c, d, c.len())[j] == next[j]);
        }
    }
}

proof fn lemma_first_is_tied(c: Seq<NearestNodeCandidate>)
    requires
        c.len() > 0,
    ensures
        nearest_keys(c).len() > 0,
        nearest_keys(c)[0] == c[0].node_key,
{
    lemma_tied_prefix(c, c[0].distance, 1);
    assert(tied_keys(c, c[0].distance, 0) =~= Seq::<usize>::empty());
    assert(tied_keys(c, c[0].distance, 1) =~= seq![c[0].node_key]);
}

} // verus!
