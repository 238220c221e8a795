use vstd::prelude::*;

use crate::mutation::NucSub;

verus! {

/// How divergence is measured along the tree.
#[derive(Clone, Copy, Debug, PartialEq, Eq, Structural)]
pub enum DivergenceUnits {
    /// Substitutions counted as they are.
    NumSubstitutionsPerYear,
    /// Substitutions divided by the length of the reference sequence.
    NumSubstitutionsPerYearPerSite,
}

/// A half-open range `begin..end` of reference positions.
#[derive(Clone, Copy, Debug, PartialEq, Eq, Structural)]
pub struct NucRange {
    pub begin: usize,
    pub end: usize,
}

/// A branch length as an exact quotient: `substitutions / sites`.
#[derive(Clone, Copy, Debug, PartialEq, Eq, Structural)]
pub struct BranchLength {
    pub substitutions: usize,
    pub sites: usize,
}

/// The divergence of a node: the divergence of a parent, held as the bit pattern
/// of an IEEE-754 double, plus a branch length. This library carries the parent's
/// value as it is and never computes with it.
#[derive(Clone, Copy, Debug, PartialEq, Eq, Structural)]
pub struct Divergence {
    pub base_bits: u64,
    pub branch: BranchLength,
}

pub open spec fn is_masked(pos: usize, ranges: Seq<NucRange>) -> bool {
    exists|k: int| 0 <= k < ranges.len() && (#[trigger] ranges[k]).begin <= pos < ranges[k].end
}

/// Number of substitutions outside every masked range.
pub open spec fn count_unmasked(subs: Seq<NucSub>, ranges: Seq<NucRange>) -> nat
    decreases subs.len(),
{
    if subs.len() == 0 {
        0
    } else {
        count_unmasked(subs.drop_last(), ranges) + if is_masked(subs.last().pos, ranges) {
            0nat
        } else {
            1nat
        }
    }
}

/// The branch length for `n` counted substitutions: per site, over the reference
/// length, or else as a plain count.
pub open spec fn branch_length_of(n: nat, units: DivergenceUnits, ref_seq_len: nat) -> (nat, nat) {
    match units {
        DivergenceUnits::NumSubstitutionsPerYearPerSite => (n, ref_seq_len),
        DivergenceUnits::NumSubstitutionsPerYear => (n, 1),
    }
}

fn is_masked_exec(pos: usize, ranges: &Vec<NucRange>) -> (r: bool)
    ensures
        r == is_masked(pos, ranges@),
{
    let mut k: usize = 0;
    while k < ranges.len()
        invariant
            k <= ranges@.len(),
            forall|q: int| 0 <= q < k ==> !((#[trigger] ranges@[q]).begin <= pos < ranges@[q].end),
        decreases ranges@.len() - k,
    {
        if ranges[k].begin <= pos && pos < ranges[k].end {
            return true;
        }
        k = k + 1;
    }
    false
}

/// Branch length from a query's private substitutions, leaving out those in masked
/// ranges.
pub fn calculate_branch_length(
    private_substitutions: &Vec<NucSub>,
    masked_ranges: &Vec<NucRange>,
    units: DivergenceUnits,
    ref_seq_len: usize,
) -> (r: BranchLength)
    ensures
        (r.substitutions as nat, r.sites as nat) == branch_length_of(
            count_unmasked(private_substitutions@, masked_ranges@),
            units,
            ref_seq_len as nat,
        ),
{
    let mut n: usize = 0;
    let mut i: usize = 0;
    while i < private_substitutions.len()
        invariant
            i <= private_substitutions@.len(),
            n == count_unmasked(private_substitutions@.subrange(0, i as int), masked_ranges@),
            n <= i,
        decreases private_substitutions@.len() - i,
    {
        proof {
            assert(private_substitutions@.subrange(0, i as int + 1).drop_last()
                =~= private_substitutions@.subrange(0, i as int));
        }
        if !is_masked_exec(private_substitutions[i].pos, masked_ranges) {
            n = n + 1;
        }
        i = i + 1;
    }
    proof {
        assert(private_substitutions@.subrange(0, i as int) =~= private_substitutions@);
    }
    match units {
        DivergenceUnits::NumSubstitutionsPerYearPerSite => BranchLength { substitutions: n, sites: ref_seq_len },
        DivergenceUnits::NumSubstitutionsPerYear => BranchLength { substitutions: n, sites: 1 },
    }
}

} // verus!
