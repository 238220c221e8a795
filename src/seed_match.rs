use vstd::prelude::*;

use crate::letter::Nuc;

verus! {

/// Position and score of the best placement of a k-mer found in a reference.
pub struct SeedMatchResult {
    pub shift: usize,
    pub score: usize,
}

/// The k-mer, placed at `shift`, occurs there letter for letter.
pub open spec fn occurs_at(kmer: Seq<Nuc>, reference: Seq<Nuc>, shift: int) -> bool {
    forall|i: int| 0 <= i < kmer.len() ==> kmer[i] == reference[shift + i]
}

/// Matches counted for the k-mer placed at `shift`, from position `pos` on, given
/// `acc` matches before `pos`. Counting stops as soon as more than `tolerance`
/// mismatches have been seen; the count reached at that point is the score.
pub open spec fn window_score_from(
    kmer: Seq<Nuc>,
    reference: Seq<Nuc>,
    shift: int,
    tolerance: int,
    pos: int,
    acc: int,
) -> int
    decreases kmer.len() - pos,
{
    if pos >= kmer.len() {
        acc
    } else {
        let acc2 = if kmer[pos] == reference[shift + pos] {
            acc + 1
        } else {
            acc
        };
        if pos + 1 - acc2 > tolerance {
            acc2
        } else {
            window_score_from(kmer, reference, shift, tolerance, pos + 1, acc2)
        }
    }
}

/// Score of the k-mer placed at `shift`.
pub open spec fn window_score(kmer: Seq<Nuc>, reference: Seq<Nuc>, shift: int, tolerance: int) -> int {
    window_score_from(kmer, reference, shift, tolerance, 0, 0)
}

/// The scan over candidate offsets `shift..end`, carrying the best `(shift, score)`
/// seen so far: a strictly better score replaces the best one, and a perfect score
/// ends the scan at once.
pub open spec fn scan(
    kmer: Seq<Nuc>,
    reference: Seq<Nuc>,
    tolerance: int,
    shift: int,
    end: int,
    best_shift: int,
    best_score: int,
) -> (int, int)
    decreases end - shift,
{
    if shift >= end {
        (best_shift, best_score)
    } else {
        let s = window_score(kmer, reference, shift, tolerance);
        if s > best_score {
            if s == kmer.len() {
                (shift, s)
            } else {
                scan(kmer, reference, tolerance, shift + 1, end, shift, s)
            }
        } else {
            scan(kmer, reference, tolerance, shift + 1, end, best_shift, best_score)
        }
    }
}

/// The `(shift, score)` that seed matching returns: offsets from `start_pos` up to
/// and excluding `R - K` are scanned, starting from the default `(0, 0)`.
pub open spec fn seed_match_spec(kmer: Seq<Nuc>, reference: Seq<Nuc>, start_pos: int, tolerance: int) -> (
    int,
    int,
) {
    scan(kmer, reference, tolerance, start_pos, reference.len() - kmer.len(), 0, 0)
}

/// Finds the best-scoring offset of `kmer` in `ref_seq` at or after `start_pos`.
pub fn seed_match(kmer: &[Nuc], ref_seq: &[Nuc], start_pos: usize, mismatches_allowed: usize) -> (r:
    SeedMatchResult)
    requires
        kmer@.len() <= ref_seq@.len(),
    ensures
        (r.shift as int, r.score as int) == seed_match_spec(
            kmer@,
            ref_seq@,
            start_pos as int,
            mismatches_allowed as int,
        ),
{
    let ref_len = ref_seq.len();
    let kmer_len = kmer.len();

    let mut max_score: usize = 0;
    let mut max_shift: usize = 0;

    let end_pos = ref_len - kmer_len;
    let mut shift: usize = start_pos;
    while shift < end_pos
        invariant_except_break
            seed_match_spec(kmer@, ref_seq@, start_pos as int, mismatches_allowed as int) == scan(
                kmer@,
                ref_seq@,
                mismatches_allowed as int,
                shift as int,
                end_pos as int,
                max_shift as int,
                max_score as int,
            ),
        invariant
            kmer_len == kmer@.len(),
            ref_len == ref_seq@.len(),
            end_pos == ref_seq@.len() - kmer@.len(),
            start_pos <= shift,
            max_score <= kmer_len,
        ensures
            seed_match_spec(kmer@, ref_seq@, start_pos as int, mismatches_allowed as int) == (
                max_shift as int,
                max_score as int,
            ),
        decreases end_pos - shift,
    {
        let mut tmp_score: usize = 0;
        let mut pos: usize = 0;
        while pos < kmer_len
            invariant_except_break
                window_score_from(
                    kmer@,
                    ref_seq@,
                    shift as int,
                    mismatches_allowed as int,
                    pos as int,
                    tmp_score as int,
                ) == window_score(kmer@, ref_seq@, shift as int, mismatches_allowed as int),
            invariant
                kmer_len == kmer@.len(),
                ref_len == ref_seq@.len(),
                shift < end_pos,
                end_pos == ref_seq@.len() - kmer@.len(),
                pos <= kmer_len,
                tmp_score <= pos,
            ensures
                tmp_score as int == window_score(
                    kmer@,
                    ref_seq@,
                    shift as int,
                    mismatches_allowed as int,
                ),
            decreases kmer_len - pos,
        {
            if kmer[pos] == ref_seq[shift + pos] {
                tmp_score = tmp_score + 1;
            }
            if pos + 1 - tmp_score > mismatches_allowed {
                break;
            }
            pos = pos + 1;
        }
        if tmp_score > max_score {
            max_score = tmp_score;
            max_shift = shift;
            if tmp_score == kmer_len {
                break;
            }
        }
        shift = shift + 1;
    }

    SeedMatchResult { shift: max_shift, score: max_score }
}

proof fn lemma_score_bound(kmer: Seq<Nuc>, reference: Seq<Nuc>, shift: int, tolerance: int, pos: int, acc: int)
    requires
        0 <= pos <= kmer.len(),
        0 <= acc <= pos,
    ensures
        window_score_from(kmer, reference, shift, tolerance, pos, acc) <= acc + kmer.len() - pos,
        window_score_from(kmer, reference, shift, tolerance, pos, acc) == acc + kmer.len() - pos
            ==> forall|i: int| pos <= i < kmer.len() ==> kmer[i] == reference[shift + i],
    decreases kmer.len() - pos,
{
    if pos < kmer.len() {
        let acc2 = if kmer[pos] == reference[shift + pos] {
            acc + 1
        } else {
            acc
        };
        if pos + 1 - acc2 <= tolerance {
            lemma_score_bound(kmer, reference, shift, tolerance, pos + 1, acc2);
        }
    }
}

proof fn lemma_verbatim_scores_full(
    kmer: Seq<Nuc>,
    reference: Seq<Nuc>,
    shift: int,
    tolerance: int,
    pos: int,
)
    requires
        0 <= pos <= kmer.len(),
        0 <= tolerance,
        occurs_at(kmer, reference, shift),
    ensures
        window_score_from(kmer, reference, shift, tolerance, pos, pos) == kmer.len(),
    decreases kmer.len() - pos,
{
    if pos < kmer.len() {
        lemma_verbatim_scores_full(kmer, reference, shift, tolerance, pos + 1);
    }
}

/// A window scores the full k-mer length exactly when the k-mer occurs there.
proof fn lemma_full_score_iff_occurs(kmer: Seq<Nuc>, reference: Seq<Nuc>, shift: int, tolerance: int)
    requires
        0 <= tolerance,
    ensures
        window_score(kmer, reference, shift, tolerance) <= kmer.len(),
        window_score(kmer, reference, shift, tolerance) == kmer.len() <==> occurs_at(
            kmer,
            reference,
            shift,
        ),
{
    lemma_score_bound(kmer, reference, shift, tolerance, 0, 0);
    if occurs_at(kmer, reference, shift) {
        lemma_verbatim_scores_full(kmer, reference, shift, tolerance, 0);
    }
}

proof fn lemma_scan_finds_first_occurrence(
    kmer: Seq<Nuc>,
    reference: Seq<Nuc>,
    tolerance: int,
    shift: int,
    end: int,
    best_shift: int,
    best_score: int,
    p: int,
)
    requires
        0 <= tolerance,
        shift <= p < end,
        best_score < kmer.len(),
        occurs_at(kmer, reference, p),
        forall|q: int| shift <= q < p ==> !occurs_at(kmer, reference, q),
    ensures
        scan(kmer, reference, tolerance, shift, end, best_shift, best_score) == (p, kmer.len() as int),
    decreases p - shift,
{
    lemma_full_score_iff_occurs(kmer, reference, shift, tolerance);
    if shift < p {
        let s = window_score(kmer, reference, shift, tolerance);
        if s > best_score {
            lemma_scan_finds_first_occurrence(kmer, reference, tolerance, shift + 1, end, shift, s, p);
        } else {
            lemma_scan_finds_first_occurrence(
                kmer,
                reference,
                tolerance,
                shift + 1,
                end,
                best_shift,
                best_score,
                p,
            );
        }
    }
}

/// Where a non-empty k-mer occurs verbatim at or after `start_pos`, and before the
/// last window `R - K`, seed matching returns the leftmost such occurrence with the
/// full score.
pub proof fn lemma_seed_match_finds_verbatim_kmer(
    kmer: Seq<Nuc>,
    reference: Seq<Nuc>,
    start_pos: int,
    tolerance: int,
    p: int,
)
    requires
        0 < kmer.len() <= reference.len(),
        0 <= tolerance,
        0 <= start_pos <= p < reference.len() - kmer.len(),
        occurs_at(kmer, reference, p),
        forall|q: int| start_pos <= q < p ==> !occurs_at(kmer, reference, q),
    ensures
        seed_match_spec(kmer, reference, start_pos, tolerance) == (p, kmer.len() as int),
{
    lemma_scan_finds_first_occurrence(
        kmer,
        reference,
        tolerance,
        start_pos,
        reference.len() - kmer.len(),
        0,
        0,
        p,
    );
}

proof fn lemma_scan_without_score(
    kmer: Seq<Nuc>,
    reference: Seq<Nuc>,
    tolerance: int,
    shift: int,
    end: int,
)
    requires
        forall|q: int| shift <= q < end ==> window_score(kmer, reference, q, tolerance) == 0,
    ensures
        scan(kmer, reference, tolerance, shift, end, 0, 0) == (0int, 0int),
    decreases end - shift,
{
    if shift < end {
        lemma_scan_without_score(kmer, reference, tolerance, shift + 1, end);
    }
}

/// Where no scanned offset scores above zero, seed matching returns shift 0 and
/// score 0, whatever `start_pos` is.
pub proof fn lemma_seed_match_default_without_score(
    kmer: Seq<Nuc>,
    reference: Seq<Nuc>,
    start_pos: int,
    tolerance: int,
)
    requires
        forall|q: int|
            start_pos <= q < reference.len() - kmer.len() ==> window_score(
                kmer,
                reference,
                q,
                tolerance,
            ) == 0,
    ensures
        seed_match_spec(kmer, reference, start_pos, tolerance) == (0int, 0int),
{
    lemma_scan_without_score(kmer, reference, tolerance, start_pos, reference.len() - kmer.len());
}

proof fn lemma_strict_score_from(kmer: Seq<Nuc>, reference: Seq<Nuc>, shift: int, pos: int)
    requires
        0 <= pos <= kmer.len(),
        forall|i: int| 0 <= i < pos ==> kmer[i] == reference[shift + i],
    ensures
        ({
            let s = window_score_from(kmer, reference, shift, 0, pos, pos);
            &&& pos <= s <= kmer.len()
            &&& forall|i: int| 0 <= i < s ==> kmer[i] == reference[shift + i]
            &&& s < kmer.len() ==> kmer[s] != reference[shift + s]
        }),
    decreases kmer.len() - pos,
{
    if pos < kmer.len() && kmer[pos] == reference[shift + pos] {
        lemma_strict_score_from(kmer, reference, shift, pos + 1);
    }
}

/// With no mismatch allowed, scoring a window stops at its first mismatch: the
/// score is the length of the longest prefix of the k-mer that matches there.
pub proof fn lemma_no_tolerance_stops_at_first_mismatch(
    kmer: Seq<Nuc>,
    reference: Seq<Nuc>,
    shift: int,
)
    ensures
        ({
            let s = window_score(kmer, reference, shift, 0);
            &&& 0 <= s <= kmer.len()
            &&& forall|i: int| 0 <= i < s ==> kmer[i] == reference[shift + i]
            &&& s < kmer.len() ==> kmer[s] != reference[shift + s]
        }),
{
    lemma_strict_score_from(kmer, reference, shift, 0);
}

} // verus!
