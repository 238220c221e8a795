use vstd::prelude::*;

use crate::mutation::{
    aa_del_label, aa_sub_label, label_text, nuc_del_label, nuc_sub_label, AaDel, AaSub,
    MutationLabel, NucDel, NucSub,
};

verus! {

/// Mutations of a query that its nearest node does not carry.
pub struct PrivateNucMutations {
    pub private_substitutions: Vec<NucSub>,
    pub private_deletions: Vec<NucDel>,
}

/// Amino acid mutations of one gene that the query's nearest node does not carry.
pub struct PrivateAaMutations {
    pub gene_name: String,
    pub private_substitutions: Vec<AaSub>,
    pub private_deletions: Vec<AaDel>,
}

/// The written mutations of one segment (`nuc`, or a gene) on a branch.
pub struct SegmentMutations {
    pub segment: String,
    pub mutations: Vec<String>,
}

/// The order of written mutations: by position, then reference letter, then query letter.
pub open spec fn label_le(a: MutationLabel, b: MutationLabel) -> bool {
    a.pos < b.pos || (a.pos == b.pos && ((a.ref_letter as u32) < (b.ref_letter as u32) || (
    a.ref_letter == b.ref_letter && (a.qry_letter as u32) <= (b.qry_letter as u32))))
}

/// `x` inserted into `s` after every element that does not follow it.
pub open spec fn insert_sorted(s: Seq<MutationLabel>, x: MutationLabel) -> Seq<MutationLabel>
    decreases s.len(),
{
    if s.len() == 0 {
        seq![x]
    } else if label_le(s.last(), x) {
        s.push(x)
    } else {
        insert_sorted(s.drop_last(), x).push(s.last())
    }
}

/// The labels in the order of `label_le`, equal labels kept in their order.
pub open spec fn sort_labels(s: Seq<MutationLabel>) -> Seq<MutationLabel>
    decreases s.len(),
{
    if s.len() == 0 {
        s
    } else {
        insert_sorted(sort_labels(s.drop_last()), s.last())
    }
}

/// Substitutions and then deletions, the latter written as substitutions of a gap.
pub open spec fn nuc_labels(m: PrivateNucMutations) -> Seq<MutationLabel> {
    m.private_substitutions@.map_values(|s: NucSub| nuc_sub_label(s))
        + m.private_deletions@.map_values(|d: NucDel| nuc_del_label(d))
}

pub open spec fn aa_labels(m: PrivateAaMutations) -> Seq<MutationLabel> {
    m.private_substitutions@.map_values(|s: AaSub| aa_sub_label(s))
        + m.private_deletions@.map_values(|d: AaDel| aa_del_label(d))
}

/// The strings are the written forms of the labels, in their order.
pub open spec fn texts_of(r: Seq<String>, labels: Seq<MutationLabel>) -> bool {
    &&& r.len() == labels.len()
    &&& forall|i: int| 0 <= i < r.len() ==> (#[trigger] r[i])@ == label_text(labels[i])
}

/// A segment entry with the given name and the sorted written labels.
pub open spec fn segment_of(seg: SegmentMutations, name: Seq<char>, labels: Seq<MutationLabel>) -> bool {
    &&& seg.segment@ == name
    &&& texts_of(seg.mutations@, sort_labels(labels))
}

/// The branch mutations of a new node: `nuc` first, then one entry per gene, in
/// the order given.
pub open spec fn branch_mutations_of(
    r: Seq<SegmentMutations>,
    nuc: PrivateNucMutations,
    aa: Seq<PrivateAaMutations>,
) -> bool {
    &&& r.len() == aa.len() + 1
    &&& segment_of(r[0], seq!['n', 'u', 'c'], nuc_labels(nuc))
    &&& forall|i: int|
        0 <= i < aa.len() ==> segment_of(
            #[trigger] r[i + 1],
            aa[i].gene_name@,
            aa_labels(aa[i]),
        )
}

fn label_le_exec(a: &MutationLabel, b: &MutationLabel) -> (r: bool)
    ensures
        r == label_le(*a, *b),
{
    a.pos < b.pos || (a.pos == b.pos && ((a.ref_letter as u32) < (b.ref_letter as u32) || (
    a.ref_letter == b.ref_letter && (a.qry_letter as u32) <= (b.qry_letter as u32))))
}

proof fn lemma_insert_sorted_at(s: Seq<MutationLabel>, x: MutationLabel, j: int)
    requires
        0 <= j <= s.len(),
        forall|k: int| j <= k < s.len() ==> !label_le(s[k], x),
        j == 0 || label_le(s[j - 1], x),
    ensures
        insert_sorted(s, x) == s.insert(j, x),
    decreases s.len(),
{
    if s.len() == 0 {
        assert(insert_sorted(s, x) =~= s.insert(j, x));
    } else if j == s.len() {
        assert(insert_sorted(s, x) =~= s.insert(j, x));
    } else {
        lemma_insert_sorted_at(s.drop_last(), x, j);
        assert(insert_sorted(s, x) =~= s.insert(j, x));
    }
}

fn insert_label(v: &mut Vec<MutationLabel>, x: MutationLabel)
    ensures
        final(v)@ == insert_sorted(old(v)@, x),
{
    let mut j: usize = v.len();
    while j > 0 && !label_le_exec(&v[j - 1], &x)
        invariant
            j <= v@.len(),
            forall|k: int| j <= k < v@.len() ==> !label_le(v@[k], x),
        decreases j,
    {
        j = j - 1;
    }
    proof {
        lemma_insert_sorted_at(v@, x, j as int);
    }
    v.insert(j, x);
}

fn sorted_labels(labels: &Vec<MutationLabel>) -> (r: Vec<MutationLabel>)
    ensures
        r@ == sort_labels(labels@),
{
    let mut out: Vec<MutationLabel> = Vec::new();
    let mut i: usize = 0;
    while i < labels.len()
        invariant
            i <= labels@.len(),
            out@ == sort_labels(labels@.subrange(0, i as int)),
        decreases labels@.len() - i,
    {
        proof {
            assert(labels@.subrange(0, i as int + 1).drop_last() =~= labels@.subrange(0, i as int));
        }
        insert_label(&mut out, labels[i]);
        i = i + 1;
    }
    proof {
        assert(labels@.subrange(0, i as int) =~= labels@);
    }
    out
}

fn label_texts(labels: &Vec<MutationLabel>) -> (r: Vec<String>)
    ensures
        texts_of(r@, labels@),
{
    let mut out: Vec<String> = Vec::new();
    let mut i: usize = 0;
    while i < labels.len()
        invariant
            i <= labels@.len(),
            texts_of(out@, labels@.subrange(0, i as int)),
        decreases labels@.len() - i,
    {
        let t = labels[i].to_string();
        out.push(t);
        i = i + 1;
    }
    proof {
        assert(labels@.subrange(0, i as int) =~= labels@);
    }
    out
}

/// Written private nucleotide mutations of a branch: substitutions and deletions
/// (as substitutions of a gap), sorted.
pub fn convert_nuc_mutations_to_node_branch_attrs(m: &PrivateNucMutations) -> (r: Vec<String>)
    ensures
        texts_of(r@, sort_labels(nuc_labels(*m))),
{
    let mut labels: Vec<MutationLabel> = Vec::new();
    let mut i: usize = 0;
    while i < m.private_substitutions.len()
        invariant
            i <= m.private_substitutions@.len(),
            labels@ == m.private_substitutions@.subrange(0, i as int).map_values(
                |s: NucSub| nuc_sub_label(s),
            ),
        decreases m.private_substitutions@.len() - i,
    {
        labels.push(m.private_substitutions[i].label());
        i = i + 1;
        proof {
            assert(labels@ =~= m.private_substitutions@.subrange(0, i as int).map_values(
                |s: NucSub| nuc_sub_label(s),
            ));
        }
    }
    let mut j: usize = 0;
    while j < m.private_deletions.len()
        invariant
            i == m.private_substitutions@.len(),
            j <= m.private_deletions@.len(),
            labels@ == m.private_substitutions@.subrange(0, i as int).map_values(
                |s: NucSub| nuc_sub_label(s),
            ) + m.private_deletions@.subrange(0, j as int).map_values(|d: NucDel| nuc_del_label(d)),
        decreases m.private_deletions@.len() - j,
    {
        let d = m.private_deletions[j].to_sub();
        labels.push(d.label());
        j = j + 1;
        proof {
            assert(labels@ =~= m.private_substitutions@.subrange(0, i as int).map_values(
                |s: NucSub| nuc_sub_label(s),
            ) + m.private_deletions@.subrange(0, j as int).map_values(|d: NucDel| nuc_del_label(d)));
        }
    }
    proof {
        assert(m.private_substitutions@.subrange(0, i as int) =~= m.private_substitutions@);
        assert(m.private_deletions@.subrange(0, j as int) =~= m.private_deletions@);
    }
    let sorted = sorted_labels(&labels);
    label_texts(&sorted)
}

/// Written private amino acid mutations of one gene: substitutions and deletions
/// (as substitutions of a gap), sorted.
pub fn convert_aa_mutations_to_node_branch_attrs(m: &PrivateAaMutations) -> (r: Vec<String>)
    ensures
        texts_of(r@, sort_labels(aa_labels(*m))),
{
    let mut labels: Vec<MutationLabel> = Vec::new();
    let mut i: usize = 0;
    while i < m.private_substitutions.len()
        invariant
            i <= m.private_substitutions@.len(),
            labels@ == m.private_substitutions@.subrange(0, i as int).map_values(
                |s: AaSub| aa_sub_label(s),
            ),
        decreases m.private_substitutions@.len() - i,
    {
        labels.push(m.private_substitutions[i].label());
        i = i + 1;
        proof {
            assert(labels@ =~= m.private_substitutions@.subrange(0, i as int).map_values(
                |s: AaSub| aa_sub_label(s),
            ));
        }
    }
    let mut j: usize = 0;
    while j < m.private_deletions.len()
        invariant
            i == m.private_substitutions@.len(),
            j <= m.private_deletions@.len(),
            labels@ == m.private_substitutions@.subrange(0, i as int).map_values(
                |s: AaSub| aa_sub_label(s),
            ) + m.private_deletions@.subrange(0, j as int).map_values(|d: AaDel| aa_del_label(d)),
        decreases m.private_deletions@.len() - j,
    {
        let d = m.private_deletions[j].to_sub();
        labels.push(d.label());
        j = j + 1;
        proof {
            assert(labels@ =~= m.private_substitutions@.subrange(0, i as int).map_values(
                |s: AaSub| aa_sub_label(s),
            ) + m.private_deletions@.subrange(0, j as int).map_values(|d: AaDel| aa_del_label(d)));
        }
    }
    proof {
        assert(m.private_substitutions@.subrange(0, i as int) =~= m.private_substitutions@);
        assert(m.private_deletions@.subrange(0, j as int) =~= m.private_deletions@);
    }
    let sorted = sorted_labels(&labels);
    label_texts(&sorted)
}

/// Branch mutations of a new node: `nuc`, then each gene in the order given.
pub fn convert_mutations_to_node_branch_attrs(
    nuc: &PrivateNucMutations,
    aa: &Vec<PrivateAaMutations>,
) -> (r: Vec<SegmentMutations>)
    ensures
        branch_mutations_of(r@, *nuc, aa@),
{
    let mut out: Vec<SegmentMutations> = Vec::new();
    let nuc_name = String::from_str("nuc");
    proof {
        reveal_strlit("nuc");
        assert(nuc_name@ =~= seq!['n', 'u', 'c']);
    }
    out.push(SegmentMutations {
        segment: nuc_name,
        mutations: convert_nuc_mutations_to_node_branch_attrs(nuc),
    });
    let mut i: usize = 0;
    while i < aa.len()
        invariant
            i <= aa@.len(),
            out@.len() == i + 1,
            segment_of(out@[0], seq!['n', 'u', 'c'], nuc_labels(*nuc)),
            forall|k: int|
                0 <= k < i ==> segment_of(
                    #[trigger] out@[k + 1],
                    aa@[k].gene_name@,
                    aa_labels(aa@[k]),
                ),
        decreases aa@.len() - i,
    {
        let seg = SegmentMutations {
            segment: aa[i].gene_name.clone(),
            mutations: convert_aa_mutations_to_node_branch_attrs(&aa[i]),
        };
        out.push(seg);
        i = i + 1;
    }
    out
}

} // verus!
