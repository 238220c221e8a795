use nextclade::letter::Nuc;
use nextclade::seed_match::seed_match;

fn nucs(s: &str) -> Vec<Nuc> {
    s.chars()
        .map(|c| match c {
            'A' => Nuc::A,
            'C' => Nuc::C,
            'G' => Nuc::G,
            'T' => Nuc::T,
            'N' => Nuc::N,
            '-' => Nuc::Gap,
            _ => panic!("unexpected letter {c}"),
        })
        .collect()
}

#[test]
fn finds_first_verbatim_occurrence() {
    let reference = nucs("ACGTACGTTT");
    let kmer = nucs("GTA");
    let r = seed_match(&kmer, &reference, 0, 1);
    assert_eq!((r.shift, r.score), (2, 3));
}

#[test]
fn finds_first_occurrence_at_or_after_start() {
    let reference = nucs("ACGTACGTACGTTT");
    let kmer = nucs("ACG");
    let r = seed_match(&kmer, &reference, 1, 0);
    assert_eq!((r.shift, r.score), (4, 3));
}

#[test]
fn last_window_is_never_scanned() {
    let reference = nucs("AAAACGT");
    let kmer = nucs("CGT");
    let r = seed_match(&kmer, &reference, 0, 0);
    assert_eq!((r.shift, r.score), (0, 0));
}

#[test]
fn no_score_gives_default_whatever_the_start() {
    let reference = nucs("AAAAAAAAAA");
    let kmer = nucs("CGT");
    let r = seed_match(&kmer, &reference, 3, 0);
    assert_eq!((r.shift, r.score), (0, 0));
}

#[test]
fn no_tolerance_stops_at_first_mismatch() {
    let reference = nucs("ACTTGGGGGG");
    let kmer = nucs("ACGT");
    let r = seed_match(&kmer, &reference, 0, 0);
    assert_eq!((r.shift, r.score), (0, 2));
}

#[test]
fn one_mismatch_allowed_scores_past_it() {
    let reference = nucs("ACTTGGGGGG");
    let kmer = nucs("ACGT");
    let r = seed_match(&kmer, &reference, 0, 1);
    assert_eq!((r.shift, r.score), (0, 3));
}

#[test]
fn equal_scores_keep_the_earlier_offset() {
    let reference = nucs("ACTTACTTGGGG");
    let kmer = nucs("ACGT");
    let r = seed_match(&kmer, &reference, 0, 1);
    assert_eq!((r.shift, r.score), (0, 3));
}

#[test]
fn start_past_the_scan_gives_default() {
    let reference = nucs("ACGTACGT");
    let kmer = nucs("ACG");
    let r = seed_match(&kmer, &reference, 6, 0);
    assert_eq!((r.shift, r.score), (0, 0));
}

#[test]
fn empty_kmer_scores_zero() {
    let reference = nucs("ACGT");
    let r = seed_match(&[], &reference, 1, 0);
    assert_eq!((r.shift, r.score), (0, 0));
}

#[test]
fn kmer_as_long_as_reference_scans_nothing() {
    let reference = nucs("ACGT");
    let r = seed_match(&reference, &reference, 0, 0);
    assert_eq!((r.shift, r.score), (0, 0));
}
