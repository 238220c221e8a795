use nextclade::branch_mutations::{
    convert_aa_mutations_to_node_branch_attrs, convert_mutations_to_node_branch_attrs,
    convert_nuc_mutations_to_node_branch_attrs, PrivateAaMutations, PrivateNucMutations,
};
use nextclade::letter::{Aa, Nuc};
use nextclade::mutation::{AaDel, AaSub, AaSubParseError, NucDel, NucSub};

#[test]
fn nuc_sub_is_written_one_based() {
    let s = NucSub { pos: 9, ref_nuc: Nuc::A, qry_nuc: Nuc::T };
    assert_eq!(s.to_string(), "A10T");
}

#[test]
fn nuc_del_becomes_gap_substitution() {
    let d = NucDel { pos: 0, ref_nuc: Nuc::C };
    assert_eq!(d.to_sub().to_string(), "C1-");
}

#[test]
fn aa_sub_is_written_without_gene() {
    let s = AaSub { cds_name: "S".to_owned(), pos: 500, ref_aa: Aa::N, qry_aa: Aa::Y };
    assert_eq!(s.to_string_without_gene(), "N501Y");
    assert_eq!(s.to_string(), "S:N501Y");
    assert!(!s.is_del());
}

#[test]
fn aa_stop_and_gap_letters() {
    let s = AaSub { cds_name: "ORF1a".to_owned(), pos: 3675, ref_aa: Aa::Stop, qry_aa: Aa::Gap };
    assert_eq!(s.to_string_without_gene(), "*3676-");
    assert!(s.is_del());
}

#[test]
fn aa_del_keeps_gene_and_position() {
    let d = AaDel { cds_name: "N".to_owned(), pos: 30, ref_aa: Aa::E };
    let s = d.to_sub();
    assert_eq!(s.cds_name, "N");
    assert_eq!(s.pos, 30);
    assert!(s.is_del());
}

#[test]
fn nuc_branch_mutations_are_sorted_with_deletions() {
    let m = PrivateNucMutations {
        private_substitutions: vec![
            NucSub { pos: 19, ref_nuc: Nuc::C, qry_nuc: Nuc::G },
            NucSub { pos: 9, ref_nuc: Nuc::A, qry_nuc: Nuc::T },
        ],
        private_deletions: vec![NucDel { pos: 14, ref_nuc: Nuc::G }],
    };
    assert_eq!(convert_nuc_mutations_to_node_branch_attrs(&m), vec!["A10T", "G15-", "C20G"]);
}

#[test]
fn same_position_sorted_by_letters() {
    let m = PrivateNucMutations {
        private_substitutions: vec![
            NucSub { pos: 4, ref_nuc: Nuc::T, qry_nuc: Nuc::G },
            NucSub { pos: 4, ref_nuc: Nuc::T, qry_nuc: Nuc::A },
            NucSub { pos: 4, ref_nuc: Nuc::C, qry_nuc: Nuc::T },
        ],
        private_deletions: vec![],
    };
    assert_eq!(convert_nuc_mutations_to_node_branch_attrs(&m), vec!["C5T", "T5A", "T5G"]);
}

#[test]
fn large_positions_are_written_in_full() {
    let m = PrivateNucMutations {
        private_substitutions: vec![NucSub { pos: 29902, ref_nuc: Nuc::G, qry_nuc: Nuc::A }],
        private_deletions: vec![],
    };
    assert_eq!(convert_nuc_mutations_to_node_branch_attrs(&m), vec!["G29903A"]);
}

#[test]
fn aa_branch_mutations_are_sorted() {
    let m = PrivateAaMutations {
        gene_name: "S".to_owned(),
        private_substitutions: vec![
            AaSub { cds_name: "S".to_owned(), pos: 613, ref_aa: Aa::D, qry_aa: Aa::G },
            AaSub { cds_name: "S".to_owned(), pos: 500, ref_aa: Aa::N, qry_aa: Aa::Y },
        ],
        private_deletions: vec![AaDel { cds_name: "S".to_owned(), pos: 68, ref_aa: Aa::H }],
    };
    assert_eq!(convert_aa_mutations_to_node_branch_attrs(&m), vec!["H69-", "N501Y", "D614G"]);
}

#[test]
fn branch_mutations_nuc_then_genes() {
    let nuc = PrivateNucMutations {
        private_substitutions: vec![NucSub { pos: 9, ref_nuc: Nuc::A, qry_nuc: Nuc::T }],
        private_deletions: vec![],
    };
    let aa = vec![
        PrivateAaMutations {
            gene_name: "E".to_owned(),
            private_substitutions: vec![],
            private_deletions: vec![],
        },
        PrivateAaMutations {
            gene_name: "S".to_owned(),
            private_substitutions: vec![AaSub {
                cds_name: "S".to_owned(),
                pos: 500,
                ref_aa: Aa::N,
                qry_aa: Aa::Y,
            }],
            private_deletions: vec![],
        },
    ];
    let r = convert_mutations_to_node_branch_attrs(&nuc, &aa);
    assert_eq!(r.len(), 3);
    assert_eq!(r[0].segment, "nuc");
    assert_eq!(r[0].mutations, vec!["A10T"]);
    assert_eq!(r[1].segment, "E");
    assert!(r[1].mutations.is_empty());
    assert_eq!(r[2].segment, "S");
    assert_eq!(r[2].mutations, vec!["N501Y"]);
}

#[test]
fn parses_aa_substitution() {
    let s = AaSub::from_str("S:N501Y").unwrap();
    assert_eq!(s.cds_name, "S");
    assert_eq!(s.pos, 500);
    assert_eq!(s.ref_aa, Aa::N);
    assert_eq!(s.qry_aa, Aa::Y);
}

#[test]
fn parses_first_substitution_in_text() {
    let s = AaSub::from_str("see E:T9I and S:D614G").unwrap();
    assert_eq!(s.cds_name, "E");
    assert_eq!(s.pos, 8);
    assert_eq!(s.to_string_without_gene(), "T9I");
}

#[test]
fn parses_stop_and_gap() {
    let s = AaSub::from_str("N:*3676-").unwrap();
    assert_eq!(s.ref_aa, Aa::Stop);
    assert_eq!(s.qry_aa, Aa::Gap);
    assert!(s.is_del());
}

#[test]
fn rejects_text_without_substitution() {
    assert_eq!(AaSub::from_str("N501Y").err(), Some(AaSubParseError::NotASubstitution));
    assert_eq!(AaSub::from_str("").err(), Some(AaSubParseError::NotASubstitution));
    assert_eq!(AaSub::from_str("S:N12345678901Y").err(), Some(AaSubParseError::NotASubstitution));
    assert_eq!(AaSub::from_str("s:n501y").err(), Some(AaSubParseError::NotASubstitution));
}

#[test]
fn rejects_position_zero() {
    assert_eq!(AaSub::from_str("S:N0Y").err(), Some(AaSubParseError::InvalidPosition));
}

#[test]
fn ten_digit_position_is_read() {
    let s = AaSub::from_str("S:N1234567890Y").unwrap();
    assert_eq!(s.pos, 1234567889);
}
