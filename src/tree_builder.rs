use vstd::prelude::*;

use crate::mutation::NucSub;
use crate::placement::PlacementResult;
use crate::tree::{attr_is, AuspiceTreeNode, NodeAttr};
use crate::tree_attach::{is_new_leaf_for, new_leaf};

verus! {

/// The shape of a clustering: leaves are positions in a list of queries, inner
/// nodes join two clusters.
#[derive(Debug)]
pub enum Dendrogram {
    Leaf(usize),
    Join(Box<Dendrogram>, Box<Dendrogram>),
}

/// A cluster while clustering runs: its shape and the positions it holds.
pub struct Cluster {
    pub tree: Dendrogram,
    pub members: Vec<usize>,
}

/// Number of elements of `a` that `b` does not hold.
pub open spec fn count_missing(a: Seq<NucSub>, b: Seq<NucSub>) -> nat
    decreases a.len(),
{
    if a.len() == 0 {
        0
    } else {
        count_missing(a.drop_last(), b) + if b.contains(a.last()) {
            0nat
        } else {
            1nat
        }
    }
}

/// The size of the difference between two sets of private substitutions, each way.
pub open spec fn mutation_distance(a: Seq<NucSub>, b: Seq<NucSub>) -> nat {
    count_missing(a, b) + count_missing(b, a)
}

pub open spec fn query_subs(r: PlacementResult) -> Seq<NucSub> {
    r.private_nuc_mutations.private_substitutions@
}

/// Pairwise distances between the queries at `members`.
pub open spec fn distance_matrix(results: Seq<PlacementResult>, members: Seq<usize>) -> Seq<Seq<u128>> {
    Seq::new(
        members.len(),
        |i: int|
            Seq::new(
                members.len(),
                |j: int|
                    mutation_distance(
                        query_subs(results[members[i] as int]),
                        query_subs(results[members[j] as int]),
                    ) as u128,
            ),
    )
}

pub open spec fn matrix_view(m: Seq<Vec<u128>>) -> Seq<Seq<u128>> {
    m.map_values(|row: Vec<u128>| row@)
}

pub open spec fn square(m: Seq<Seq<u128>>) -> bool {
    forall|i: int| 0 <= i < m.len() ==> (#[trigger] m[i]).len() == m.len()
}

pub open spec fn min_of(p: u128, q: u128) -> u128 {
    if p <= q {
        p
    } else {
        q
    }
}

/// The least distance from position `x` to a position of `b`.
pub open spec fn min_to(m: Seq<Seq<u128>>, x: usize, b: Seq<usize>) -> u128
    decreases b.len(),
{
    if b.len() == 0 {
        u128::MAX
    } else {
        min_of(min_to(m, x, b.drop_last()), m[x as int][b.last() as int])
    }
}

/// Single linkage: the least distance between a position of `a` and one of `b`.
pub open spec fn linkage(m: Seq<Seq<u128>>, a: Seq<usize>, b: Seq<usize>) -> u128
    decreases a.len(),
{
    if a.len() == 0 {
        u128::MAX
    } else {
        min_of(linkage(m, a.drop_last(), b), min_to(m, a.last(), b))
    }
}

pub open spec fn cluster_view(cs: Seq<Cluster>) -> Seq<(Dendrogram, Seq<usize>)> {
    cs.map_values(|c: Cluster| (c.tree, c.members@))
}

/// Scans the pairs `(i, j)`, `i < j`, in order from `(i, j)` on, keeping the first
/// pair of least linkage.
pub open spec fn scan_pairs(
    cs: Seq<(Dendrogram, Seq<usize>)>,
    m: Seq<Seq<u128>>,
    i: int,
    j: int,
    bi: int,
    bj: int,
    bd: u128,
) -> (int, int)
    decreases cs.len() - i, cs.len() - j,
{
    if i < 0 || i >= cs.len() {
        (bi, bj)
    } else if j >= cs.len() {
        scan_pairs(cs, m, i + 1, i + 2, bi, bj, bd)
    } else {
        let d = linkage(m, cs[i].1, cs[j].1);
        if d < bd {
            scan_pairs(cs, m, i, j + 1, i, j, d)
        } else {
            scan_pairs(cs, m, i, j + 1, bi, bj, bd)
        }
    }
}

/// The closest pair of clusters; the first in order among equally close ones.
pub open spec fn closest(cs: Seq<(Dendrogram, Seq<usize>)>, m: Seq<Seq<u128>>) -> (int, int) {
    scan_pairs(cs, m, 0, 1, 0, 1, linkage(m, cs[0].1, cs[1].1))
}

/// Clusters `i` and `j` joined into one at `i`.
pub open spec fn merge(cs: Seq<(Dendrogram, Seq<usize>)>, i: int, j: int) -> Seq<(Dendrogram, Seq<usize>)> {
    if 0 <= i < j < cs.len() {
        cs.update(i, (Dendrogram::Join(Box::new(cs[i].0), Box::new(cs[j].0)), cs[i].1 + cs[j].1)).remove(
            j,
        )
    } else {
        cs.drop_last()
    }
}

/// Agglomerative clustering: the closest two clusters are joined until one is left.
pub open spec fn agglomerate(cs: Seq<(Dendrogram, Seq<usize>)>, m: Seq<Seq<u128>>) -> Dendrogram
    decreases cs.len(),
{
    if cs.len() == 0 {
        Dendrogram::Leaf(0)
    } else if cs.len() == 1 {
        cs[0].0
    } else {
        let p = closest(cs, m);
        agglomerate(merge(cs, p.0, p.1), m)
    }
}

pub open spec fn singletons(n: nat) -> Seq<(Dendrogram, Seq<usize>)> {
    Seq::new(n, |k: int| (Dendrogram::Leaf(k as usize), seq![k as usize]))
}

/// The clustering of `n` positions under the distances `m`.
pub open spec fn cluster_tree(m: Seq<Seq<u128>>, n: nat) -> Dendrogram {
    agglomerate(singletons(n), m)
}

/// The shape of the subtree built for the queries at `members`.
pub open spec fn subtree_shape(results: Seq<PlacementResult>, members: Seq<usize>) -> Dendrogram {
    cluster_tree(distance_matrix(results, members), members.len())
}

pub open spec fn leaves_below(d: Dendrogram, n: nat) -> bool
    decreases d,
{
    match d {
        Dendrogram::Leaf(k) => k < n,
        Dendrogram::Join(a, b) => leaves_below(*a, n) && leaves_below(*b, n),
    }
}

/// `c` is an inner node made under `x`: a new node at zero distance from `x`.
pub open spec fn is_inner_node_for(c: AuspiceTreeNode, x: AuspiceTreeNode) -> bool {
    &&& c.name@ == x.name@ + "_group"@
    &&& c.id == 0
    &&& !c.is_ref_node
    &&& c.div == x.div
    &&& c.clade == x.clade
    &&& c.node_attrs@.len() == 1
    &&& attr_is(c.node_attrs@[0], "node_type"@, "New"@)
    &&& c.custom_attrs@.len() == 0
    &&& c.branch_mutations@.len() == 0
    &&& c.branch_labels@.len() == 0
}

/// `c` is the subtree of shape `d` under `x`, with one leaf per query at `members`.
pub open spec fn is_subtree_for(
    c: AuspiceTreeNode,
    d: Dendrogram,
    x: AuspiceTreeNode,
    results: Seq<PlacementResult>,
    members: Seq<usize>,
) -> bool
    decreases d,
{
    match d {
        Dendrogram::Leaf(k) => k < members.len() && members[k as int] < results.len()
            && is_new_leaf_for(c, results[members[k as int] as int]),
        Dendrogram::Join(a, b) => {
            &&& is_inner_node_for(c, x)
            &&& c.children@.len() == 2
            &&& is_subtree_for(c.children@[0], *a, x, results, members)
            &&& is_subtree_for(c.children@[1], *b, x, results, members)
        },
    }
}

fn contains_sub(b: &Vec<NucSub>, x: NucSub) -> (r: bool)
    ensures
        r == b@.contains(x),
{
    let mut k: usize = 0;
    while k < b.len()
        invariant
            k <= b@.len(),
            forall|q: int| 0 <= q < k ==> b@[q] != x,
        decreases b@.len() - k,
    {
        if b[k] == x {
            return true;
        }
        k = k + 1;
    }
    false
}

fn count_missing_exec(a: &Vec<NucSub>, b: &Vec<NucSub>) -> (r: u128)
    ensures
        r as nat == count_missing(a@, b@),
        r <= usize::MAX,
{
    let mut count: u128 = 0;
    let mut k: usize = 0;
    while k < a.len()
        invariant
            k <= a@.len(),
            count as nat == count_missing(a@.subrange(0, k as int), b@),
            count <= k,
        decreases a@.len() - k,
    {
        proof {
            assert(a@.subrange(0, k as int + 1).drop_last() =~= a@.subrange(0, k as int));
        }
        if !contains_sub(b, a[k]) {
            count = count + 1;
        }
        k = k + 1;
    }
    proof {
        assert(a@.subrange(0, k as int) =~= a@);
    }
    count
}

/// Pairwise distances between the queries at `members`: the number of private
/// substitutions that one of the two has and the other has not.
pub fn calculate_distance_matrix(results: &[PlacementResult], members: &Vec<usize>) -> (m: Vec<
    Vec<u128>,
>)
    requires
        forall|k: int| 0 <= k < members@.len() ==> #[trigger] members@[k] < results@.len(),
    ensures
        matrix_view(m@) == distance_matrix(results@, members@),
{
    let n = members.len();
    let mut m: Vec<Vec<u128>> = Vec::new();
    let mut i: usize = 0;
    while i < n
        invariant
            n == members@.len(),
            i <= n,
            forall|k: int| 0 <= k < members@.len() ==> #[trigger] members@[k] < results@.len(),
            m@.len() == i,
            forall|p: int|
                0 <= p < i ==> (#[trigger] m@[p])@ == distance_matrix(results@, members@)[p],
        decreases n - i,
    {
        let mut row: Vec<u128> = Vec::new();
        let mut j: usize = 0;
        while j < n
            invariant
                n == members@.len(),
                i < n,
                j <= n,
                forall|k: int| 0 <= k < members@.len() ==> #[trigger] members@[k] < results@.len(),
                row@.len() == j,
                forall|q: int|
                    0 <= q < j ==> #[trigger] row@[q] == distance_matrix(results@, members@)[i as int][q],
            decreases n - j,
        {
            let a = &results[members[i]].private_nuc_mutations.private_substitutions;
            let b = &results[members[j]].private_nuc_mutations.private_substitutions;
            let d = count_missing_exec(a, b) + count_missing_exec(b, a);
            row.push(d);
            j = j + 1;
        }
        proof {
            assert(row@ =~= distance_matrix(results@, members@)[i as int]);
        }
        m.push(row);
        i = i + 1;
    }
    proof {
        assert(matrix_view(m@) =~= distance_matrix(results@, members@));
    }
    m
}

fn min_to_exec(m: &Vec<Vec<u128>>, x: usize, b: &Vec<usize>) -> (r: u128)
    requires
        square(matrix_view(m@)),
        x < m@.len(),
        forall|k: int| 0 <= k < b@.len() ==> #[trigger] b@[k] < m@.len(),
    ensures
        r == min_to(matrix_view(m@), x, b@),
{
    let ghost mv = matrix_view(m@);
    let mut best: u128 = u128::MAX;
    let mut k: usize = 0;
    while k < b.len()
        invariant
            mv == matrix_view(m@),
            square(mv),
            x < m@.len(),
            forall|q: int| 0 <= q < b@.len() ==> #[trigger] b@[q] < m@.len(),
            k <= b@.len(),
            best == min_to(mv, x, b@.subrange(0, k as int)),
        decreases b@.len() - k,
    {
        proof {
            assert(b@.subrange(0, k as int + 1).drop_last() =~= b@.subrange(0, k as int));
            assert(mv[x as int] == m@[x as int]@);
        }
        let d = m[x][b[k]];
        if d < best {
            best = d;
        }
        k = k + 1;
    }
    proof {
        assert(b@.subrange(0, k as int) =~= b@);
    }
    best
}

fn linkage_exec(m: &Vec<Vec<u128>>, a: &Vec<usize>, b: &Vec<usize>) -> (r: u128)
    requires
        square(matrix_view(m@)),
        forall|k: int| 0 <= k < a@.len() ==> #[trigger] a@[k] < m@.len(),
        forall|k: int| 0 <= k < b@.len() ==> #[trigger] b@[k] < m@.len(),
    ensures
        r == linkage(matrix_view(m@), a@, b@),
{
    let mut best: u128 = u128::MAX;
    let mut k: usize = 0;
    while k < a.len()
        invariant
            square(matrix_view(m@)),
            forall|q: int| 0 <= q < a@.len() ==> #[trigger] a@[q] < m@.len(),
            forall|q: int| 0 <= q < b@.len() ==> #[trigger] b@[q] < m@.len(),
            k <= a@.len(),
            best == linkage(matrix_view(m@), a@.subrange(0, k as int), b@),
        decreases a@.len() - k,
    {
        proof {
            assert(a@.subrange(0, k as int + 1).drop_last() =~= a@.subrange(0, k as int));
        }
        let d = min_to_exec(m, a[k], b);
        if d < best {
            best = d;
        }
        k = k + 1;
    }
    proof {
        assert(a@.subrange(0, k as int) =~= a@);
    }
    best
}

/// Every position held by a cluster is below `n`.
pub open spec fn members_below(cs: Seq<Cluster>, n: nat) -> bool {
    forall|c: int, k: int|
        0 <= c < cs.len() && 0 <= k < cs[c].members@.len() ==> #[trigger] cs[c].members@[k] < n
}

fn closest_pair(cs: &Vec<Cluster>, m: &Vec<Vec<u128>>) -> (r: (usize, usize))
    requires
        cs@.len() >= 2,
        square(matrix_view(m@)),
        members_below(cs@, m@.len()),
    ensures
        r.0 < r.1 < cs@.len(),
        (r.0 as int, r.1 as int) == closest(cluster_view(cs@), matrix_view(m@)),
{
    let ghost v = cluster_view(cs@);
    let ghost mv = matrix_view(m@);
    let n = cs.len();
    proof {
        assert(v[0].1 == cs@[0].members@);
        assert(v[1].1 == cs@[1].members@);
    }
    let mut bi: usize = 0;
    let mut bj: usize = 1;
    let mut bd: u128 = linkage_exec(m, &cs[0].members, &cs[1].members);
    let mut i: usize = 0;
    while i < n
        invariant
            n == cs@.len(),
            n >= 2,
            v == cluster_view(cs@),
            mv == matrix_view(m@),
            square(mv),
            members_below(cs@, m@.len()),
            i <= n,
            bi < bj < n,
            closest(v, mv) == scan_pairs(v, mv, i as int, i + 1, bi as int, bj as int, bd),
        decreases n - i,
    {
        let mut j: usize = i + 1;
        while j < n
            invariant
                n == cs@.len(),
                v == cluster_view(cs@),
                mv == matrix_view(m@),
                square(mv),
                members_below(cs@, m@.len()),
                i < n,
                i < j <= n,
                bi < bj < n,
                closest(v, mv) == scan_pairs(v, mv, i as int, j as int, bi as int, bj as int, bd),
            decreases n - j,
        {
            proof {
                assert(v[i as int].1 == cs@[i as int].members@);
                assert(v[j as int].1 == cs@[j as int].members@);
            }
            let d = linkage_exec(m, &cs[i].members, &cs[j].members);
            if d < bd {
                bi = i;
                bj = j;
                bd = d;
            }
            j = j + 1;
        }
        i = i + 1;
    }
    (bi, bj)
}

/// Agglomerative single-linkage clustering of the positions `0..n` of the
/// distance matrix `m`.
pub fn build_dendrogram(m: &Vec<Vec<u128>>) -> (d: Dendrogram)
    requires
        square(matrix_view(m@)),
    ensures
        d == cluster_tree(matrix_view(m@), m@.len()),
        m@.len() > 0 ==> leaves_below(d, m@.len()),
{
    let ghost mv = matrix_view(m@);
    let n = m.len();
    if n == 0 {
        return Dendrogram::Leaf(0);
    }
    let mut cs: Vec<Cluster> = Vec::new();
    let mut k: usize = 0;
    while k < n
        invariant
            n == m@.len(),
            k <= n,
            cs@.len() == k,
            cluster_view(cs@) == singletons(k as nat),
            members_below(cs@, n as nat),
            forall|c: int| 0 <= c < cs@.len() ==> leaves_below(#[trigger] cs@[c].tree, n as nat),
        decreases n - k,
    {
        let ghost old_cs = cs@;
        let mut members: Vec<usize> = Vec::new();
        members.push(k);
        proof {
            assert(members@ =~= seq![k]);
        }
        cs.push(Cluster { tree: Dendrogram::Leaf(k), members });
        k = k + 1;
        proof {
            assert forall|q: int| 0 <= q < k implies #[trigger] cluster_view(cs@)[q] == singletons(
                k as nat,
            )[q] by {
                if q < k - 1 {
                    assert(cs@[q] == old_cs[q]);
                    assert(cluster_view(old_cs)[q] == singletons((k - 1) as nat)[q]);
                }
            }
            assert(cluster_view(cs@) =~= singletons(k as nat));
        }
    }
    while cs.len() > 1
        invariant
            n == m@.len(),
            mv == matrix_view(m@),
            square(mv),
            cs@.len() >= 1,
            agglomerate(cluster_view(cs@), mv) == cluster_tree(mv, n as nat),
            members_below(cs@, n as nat),
            forall|c: int| 0 <= c < cs@.len() ==> leaves_below(#[trigger] cs@[c].tree, n as nat),
        decreases cs@.len(),
    {
        let ghost before = cs@;
        let (i, j) = closest_pair(&cs, m);
        let cj = cs.remove(j);
        let ci = cs.remove(i);
        let Cluster { tree: ti, members: mut mi } = ci;
        let Cluster { tree: tj, members: mut mj } = cj;
        let ghost mi0 = mi@;
        mi.append(&mut mj);
        let joined = Cluster { tree: Dendrogram::Join(Box::new(ti), Box::new(tj)), members: mi };
        cs.insert(i, joined);
        proof {
            let v = cluster_view(before);
            assert(v[i as int] == (before[i as int].tree, before[i as int].members@));
            assert(v[j as int] == (before[j as int].tree, before[j as int].members@));
            assert(cluster_view(cs@) =~= merge(v, i as int, j as int));
            assert(leaves_below(before[i as int].tree, n as nat));
            assert(leaves_below(before[j as int].tree, n as nat));
            assert forall|c: int| 0 <= c < cs@.len() implies leaves_below(#[trigger] cs@[c].tree, n as nat) by {
                if c < i {
                    assert(cs@[c] == before[c]);
                } else if c > i && c < j {
                    assert(cs@[c] == before[c]);
                } else if c >= j {
                    assert(cs@[c] == before[c + 1]);
                }
            }
            assert forall|c: int, q: int|
                0 <= c < cs@.len() && 0 <= q < cs@[c].members@.len() implies #[trigger] cs@[c].members@[q] < n by {
                if c < i {
                    assert(cs@[c] == before[c]);
                } else if c == i {
                    if q < mi0.len() {
                        assert(cs@[c].members@[q] == before[i as int].members@[q]);
                    } else {
                        assert(cs@[c].members@[q] == before[j as int].members@[q - mi0.len()]);
                    }
                } else if c < j {
                    assert(cs@[c] == before[c]);
                } else {
                    assert(cs@[c] == before[c + 1]);
                }
            }
        }
    }
    let last = cs.remove(0);
    last.tree
}

/// The tree nodes of the clustering `d` under `x`: a leaf for each query, a new
/// inner node for each join.
pub fn subtree_node(
    d: &Dendrogram,
    x: &AuspiceTreeNode,
    results: &[PlacementResult],
    members: &Vec<usize>,
) -> (c: AuspiceTreeNode)
    requires
        leaves_below(*d, members@.len()),
        forall|k: int| 0 <= k < members@.len() ==> #[trigger] members@[k] < results@.len(),
    ensures
        is_subtree_for(c, *d, *x, results@, members@),
    decreases d,
{
    match d {
        Dendrogram::Leaf(k) => new_leaf(&results[members[*k]]),
        Dendrogram::Join(a, b) => {
            let ca = subtree_node(&**a, x, results, members);
            let cb = subtree_node(&**b, x, results, members);
            let mut name = x.name.clone();
            name.append("_group");
            let mut attrs: Vec<NodeAttr> = Vec::new();
            attrs.push(NodeAttr::new("node_type", String::from_str("New")));
            let mut children: Vec<AuspiceTreeNode> = Vec::new();
            children.push(ca);
            children.push(cb);
            AuspiceTreeNode {
                name,
                id: 0,
                is_ref_node: false,
                div: x.div,
                clade: x.clade.clone(),
                node_attrs: attrs,
                custom_attrs: Vec::new(),
                branch_mutations: Vec::new(),
                branch_labels: Vec::new(),
                children,
            }
        },
    }
}

} // verus!
