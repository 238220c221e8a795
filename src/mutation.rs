use vstd::prelude::*;

use crate::letter::{aa_char, is_aa_letter, nuc_char, Aa, Nuc};
use crate::text::{chars_of, decimal, push_char, push_decimal};

verus! {

/// A nucleotide substitution at a 0-based position of the reference.
#[derive(Clone, Copy, Debug, PartialEq, Eq, Structural)]
pub struct NucSub {
    pub pos: usize,
    pub ref_nuc: Nuc,
    pub qry_nuc: Nuc,
}

/// A deleted nucleotide at a 0-based position of the reference.
#[derive(Clone, Copy, Debug, PartialEq, Eq, Structural)]
pub struct NucDel {
    pub pos: usize,
    pub ref_nuc: Nuc,
}

/// An amino acid substitution at a 0-based codon position of a coding sequence.
#[derive(Debug)]
pub struct AaSub {
    pub cds_name: String,
    pub pos: usize,
    pub ref_aa: Aa,
    pub qry_aa: Aa,
}

/// A deleted amino acid at a 0-based codon position of a coding sequence.
#[derive(Debug)]
pub struct AaDel {
    pub cds_name: String,
    pub pos: usize,
    pub ref_aa: Aa,
}

/// A mutation as it is written: reference letter, position, query letter.
#[derive(Clone, Copy, Debug, PartialEq, Eq, Structural)]
pub struct MutationLabel {
    pub pos: usize,
    pub ref_letter: char,
    pub qry_letter: char,
}

/// The text of a mutation: reference letter, 1-based position, query letter.
pub open spec fn label_text(l: MutationLabel) -> Seq<char> {
    seq![l.ref_letter] + decimal(l.pos as nat + 1) + seq![l.qry_letter]
}

pub open spec fn nuc_sub_label(s: NucSub) -> MutationLabel {
    MutationLabel { pos: s.pos, ref_letter: nuc_char(s.ref_nuc), qry_letter: nuc_char(s.qry_nuc) }
}

pub open spec fn aa_sub_label(s: AaSub) -> MutationLabel {
    MutationLabel { pos: s.pos, ref_letter: aa_char(s.ref_aa), qry_letter: aa_char(s.qry_aa) }
}

/// A deletion written as the substitution of a gap.
pub open spec fn nuc_del_label(d: NucDel) -> MutationLabel {
    MutationLabel { pos: d.pos, ref_letter: nuc_char(d.ref_nuc), qry_letter: '-' }
}

/// A deletion written as the substitution of a gap.
pub open spec fn aa_del_label(d: AaDel) -> MutationLabel {
    MutationLabel { pos: d.pos, ref_letter: aa_char(d.ref_aa), qry_letter: '-' }
}

impl MutationLabel {
    /// The written form, such as `A10T`.
    pub fn to_string(&self) -> (r: String)
        ensures
            r@ == label_text(*self),
    {
        let mut s = String::new();
        push_char(&mut s, self.ref_letter);
        push_decimal(&mut s, self.pos as u128 + 1);
        push_char(&mut s, self.qry_letter);
        proof {
            assert(s@ =~= label_text(*self));
        }
        s
    }
}

impl NucSub {
    pub fn label(&self) -> (r: MutationLabel)
        ensures
            r == nuc_sub_label(*self),
    {
        MutationLabel { pos: self.pos, ref_letter: self.ref_nuc.to_char(), qry_letter: self.qry_nuc.to_char() }
    }

    /// The written form, such as `A10T` for a substitution at 0-based position 9.
    pub fn to_string(&self) -> (r: String)
        ensures
            r@ == label_text(nuc_sub_label(*self)),
    {
        self.label().to_string()
    }
}

impl NucDel {
    /// The deletion as the substitution of a gap.
    pub fn to_sub(&self) -> (r: NucSub)
        ensures
            r == (NucSub { pos: self.pos, ref_nuc: self.ref_nuc, qry_nuc: Nuc::Gap }),
    {
        NucSub { pos: self.pos, ref_nuc: self.ref_nuc, qry_nuc: Nuc::Gap }
    }
}

impl AaSub {
    /// Checks whether this substitution is a deletion (the substitution of a gap).
    pub fn is_del(&self) -> (r: bool)
        ensures
            r == (self.qry_aa == Aa::Gap),
    {
        self.qry_aa.is_gap()
    }

    pub fn label(&self) -> (r: MutationLabel)
        ensures
            r == aa_sub_label(*self),
    {
        MutationLabel { pos: self.pos, ref_letter: self.ref_aa.to_char(), qry_letter: self.qry_aa.to_char() }
    }

    /// The written form without the coding sequence's name, such as `N501Y`.
    pub fn to_string_without_gene(&self) -> (r: String)
        ensures
            r@ == label_text(aa_sub_label(*self)),
    {
        self.label().to_string()
    }

    /// The written form with the coding sequence's name, such as `S:N501Y`.
    pub fn to_string(&self) -> (r: String)
        ensures
            r@ == self.cds_name@ + seq![':'] + label_text(aa_sub_label(*self)),
    {
        let mut s = self.cds_name.clone();
        push_char(&mut s, ':');
        s.append(self.to_string_without_gene().as_str());
        proof {
            assert(s@ =~= self.cds_name@ + seq![':'] + label_text(aa_sub_label(*self)));
        }
        s
    }
}

impl AaDel {
    /// The deletion as the substitution of a gap.
    pub fn to_sub(&self) -> (r: AaSub)
        ensures
            r.cds_name@ == self.cds_name@,
            r.pos == self.pos,
            r.ref_aa == self.ref_aa,
            r.qry_aa == Aa::Gap,
    {
        AaSub { cds_name: self.cds_name.clone(), pos: self.pos, ref_aa: self.ref_aa, qry_aa: Aa::Gap }
    }
}

/// Why a text is not an amino acid substitution.
#[derive(Clone, Copy, Debug, PartialEq, Eq, Structural)]
pub enum AaSubParseError {
    /// No part of the text has the form `S:N501Y`.
    NotASubstitution,
    /// The 1-based position is 0, or too large for this machine.
    InvalidPosition,
}

pub open spec fn is_ascii_digit(c: char) -> bool {
    '0' <= c && c <= '9'
}

/// The number of consecutive ASCII digits in `s` from index `i` on.
pub open spec fn digit_run(s: Seq<char>, i: int) -> nat
    decreases s.len() - i,
{
    if 0 <= i < s.len() && is_ascii_digit(s[i]) {
        1 + digit_run(s, i + 1)
    } else {
        0
    }
}

/// An amino acid substitution is written at index `i` of `s`: a letter naming the
/// coding sequence, `:`, the reference letter, one to ten digits of the 1-based
/// position, and the query letter.
pub open spec fn sub_at(s: Seq<char>, i: int) -> bool {
    let run = digit_run(s, i + 3);
    &&& 0 <= i
    &&& i + 3 < s.len()
    &&& is_aa_letter(s[i])
    &&& s[i + 1] == ':'
    &&& is_aa_letter(s[i + 2])
    &&& 1 <= run <= 10
    &&& i + 3 + run < s.len()
    &&& is_aa_letter(s[i + 3 + run])
}

/// The first index from `i` on where a substitution is written, or -1.
pub open spec fn first_sub_from(s: Seq<char>, i: int) -> int
    decreases s.len() - i,
{
    if i < 0 || i >= s.len() {
        -1
    } else if sub_at(s, i) {
        i
    } else {
        first_sub_from(s, i + 1)
    }
}

/// The number that a string of decimal digits denotes.
pub open spec fn decimal_value(ds: Seq<char>) -> nat
    decreases ds.len(),
{
    if ds.len() == 0 {
        0
    } else {
        decimal_value(ds.drop_last()) * 10 + ((ds.last() as u32) as int - 48) as nat
    }
}

pub open spec fn pow10(k: nat) -> nat
    decreases k,
{
    if k == 0 {
        1
    } else {
        10 * pow10((k - 1) as nat)
    }
}

/// The 1-based position written in the first substitution of `s`.
pub open spec fn written_position(s: Seq<char>) -> nat {
    let i = first_sub_from(s, 0);
    decimal_value(s.subrange(i + 3, i + 3 + digit_run(s, i + 3)))
}

fn is_aa_letter_exec(c: char) -> (r: bool)
    ensures
        r == is_aa_letter(c),
{
    ('A' <= c && c <= 'Z') || c == '*' || c == '-'
}

proof fn lemma_pow10_bound(k: nat)
    requires
        k <= 10,
    ensures
        pow10(k) <= 10_000_000_000,
    decreases 10 - k,
{
    if k < 10 {
        lemma_pow10_bound(k + 1);
        assert(pow10(k + 1) == 10 * pow10(k));
    } else {
        reveal_with_fuel(pow10, 11);
        assert(pow10(10) == 10_000_000_000);
    }
}

/// The value of the digits `chars[start..start + len]`.
fn digits_value(chars: &Vec<char>, start: usize, len: usize) -> (v: u64)
    requires
        start + len <= chars@.len(),
        len <= 10,
        forall|k: int| start <= k < start + len ==> is_ascii_digit(#[trigger] chars@[k]),
    ensures
        v == decimal_value(chars@.subrange(start as int, start + len)),
{
    let n = chars.len();
    let mut acc: u64 = 0;
    let mut k: usize = 0;
    while k < len
        invariant
            n == chars@.len(),
            start + len <= chars@.len(),
            len <= 10,
            k <= len,
            forall|q: int| start <= q < start + len ==> is_ascii_digit(#[trigger] chars@[q]),
            acc == decimal_value(chars@.subrange(start as int, start + k)),
            acc < pow10(k as nat),
        decreases len - k,
    {
        let c = chars[start + k];
        assert(is_ascii_digit(chars@[start + k]));
        let d = (c as u32 - '0' as u32) as u64;
        proof {
            lemma_pow10_bound((k + 1) as nat);
            assert(acc * 10 + d < pow10((k + 1) as nat)) by (nonlinear_arith)
                requires
                    acc < pow10(k as nat),
                    d <= 9,
                    pow10((k + 1) as nat) == 10 * pow10(k as nat),
            ;
            assert(chars@.subrange(start as int, start + k + 1).drop_last() =~= chars@.subrange(
                start as int,
                start + k,
            ));
        }
        acc = acc * 10 + d;
        k = k + 1;
    }
    acc
}

impl AaSub {
    /// Reads the first amino acid substitution written in `s`, such as `S:N501Y`
    /// (a 1-based position in the text, 0-based in the result).
    pub fn from_str(s: &str) -> (r: Result<AaSub, AaSubParseError>)
        ensures
            r == Err::<AaSub, AaSubParseError>(AaSubParseError::NotASubstitution) <==> first_sub_from(
                s@,
                0,
            ) < 0,
            r == Err::<AaSub, AaSubParseError>(AaSubParseError::InvalidPosition) <==> (first_sub_from(
                s@,
                0,
            ) >= 0 && (written_position(s@) == 0 || written_position(s@) - 1 > usize::MAX)),
            r matches Ok(a) ==> {
                let i = first_sub_from(s@, 0);
                let run = digit_run(s@, i + 3);
                &&& a.cds_name@ == seq![s@[i]]
                &&& aa_char(a.ref_aa) == s@[i + 2]
                &&& a.pos == written_position(s@) - 1
                &&& aa_char(a.qry_aa) == s@[i + 3 + run]
            },
    {
        let chars = chars_of(s);
        let n = chars.len();
        let mut i: usize = 0;
        while i < n
            invariant
                chars@ == s@,
                n == chars@.len(),
                i <= n,
                first_sub_from(s@, 0) == first_sub_from(s@, i as int),
            decreases n - i,
        {
            if n - i > 3 && is_aa_letter_exec(chars[i]) && chars[i + 1] == ':' && is_aa_letter_exec(
                chars[i + 2],
            ) {
                let start = i + 3;
                let mut run: usize = 0;
                while start + run < n && run <= 10 && chars[start + run] >= '0' && chars[start + run]
                    <= '9'
                    invariant
                        chars@ == s@,
                        n == chars@.len(),
                        start < n,
                        run <= 11,
                        start + run <= n,
                        digit_run(s@, start as int) == run + digit_run(s@, start + run),
                        forall|q: int| start <= q < start + run ==> is_ascii_digit(#[trigger] s@[q]),
                    decreases n - (start + run),
                {
                    run = run + 1;
                }
                if 1 <= run && run <= 10 && start + run < n && is_aa_letter_exec(chars[start + run]) {
                    assert(sub_at(s@, i as int));
                    let value = digits_value(&chars, start, run);
                    let ref_aa = Aa::from_char(chars[i + 2]);
                    let qry_aa = Aa::from_char(chars[start + run]);
                    if value == 0 || value - 1 > usize::MAX as u64 {
                        return Err(AaSubParseError::InvalidPosition);
                    }
                    let mut cds_name = String::new();
                    push_char(&mut cds_name, chars[i]);
                    proof {
                        assert(cds_name@ =~= seq![s@[i as int]]);
                    }
                    match (ref_aa, qry_aa) {
                        (Option::Some(ref_aa), Option::Some(qry_aa)) => {
                            return Ok(AaSub { cds_name, pos: (value - 1) as usize, ref_aa, qry_aa });
                        },
                        _ => {
                            return Err(AaSubParseError::NotASubstitution);
                        },
                    }
                }
            }
            i = i + 1;
        }
        Err(AaSubParseError::NotASubstitution)
    }
}

} // verus!
