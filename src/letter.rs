use vstd::prelude::*;

verus! {

/// A nucleotide letter (IUPAC code, or the gap `-`).
#[derive(Clone, Copy, Debug, PartialEq, Eq, Structural, Hash)]
pub enum Nuc {
    T,
    A,
    W,
    C,
    Y,
    M,
    H,
    G,
    K,
    R,
    D,
    S,
    B,
    V,
    N,
    Gap,
}

/// The character that denotes a nucleotide.
pub open spec fn nuc_char(n: Nuc) -> char {
    match n {
        Nuc::T => 'T',
        Nuc::A => 'A',
        Nuc::W => 'W',
        Nuc::C => 'C',
        Nuc::Y => 'Y',
        Nuc::M => 'M',
        Nuc::H => 'H',
        Nuc::G => 'G',
        Nuc::K => 'K',
        Nuc::R => 'R',
        Nuc::D => 'D',
        Nuc::S => 'S',
        Nuc::B => 'B',
        Nuc::V => 'V',
        Nuc::N => 'N',
        Nuc::Gap => '-',
    }
}

impl Nuc {
    pub fn is_gap(&self) -> (r: bool)
        ensures
            r == (*self == Nuc::Gap),
    {
        matches!(*self, Nuc::Gap)
    }

    pub fn to_char(&self) -> (r: char)
        ensures
            r == nuc_char(*self),
    {
        match *self {
            Nuc::T => 'T',
            Nuc::A => 'A',
            Nuc::W => 'W',
            Nuc::C => 'C',
            Nuc::Y => 'Y',
            Nuc::M => 'M',
            Nuc::H => 'H',
            Nuc::G => 'G',
            Nuc::K => 'K',
            Nuc::R => 'R',
            Nuc::D => 'D',
            Nuc::S => 'S',
            Nuc::B => 'B',
            Nuc::V => 'V',
            Nuc::N => 'N',
            Nuc::Gap => '-',
        }
    }
}

/// An amino acid letter, the stop codon `*`, or the gap `-`.
#[derive(Clone, Copy, Debug, PartialEq, Eq, Structural, Hash)]
pub enum Aa {
    A,
    B,
    C,
    D,
    E,
    F,
    G,
    H,
    I,
    J,
    K,
    L,
    M,
    N,
    O,
    P,
    Q,
    R,
    S,
    T,
    U,
    V,
    W,
    Y,
    Z,
    X,
    Stop,
    Gap,
}

/// The character that denotes an amino acid.
pub open spec fn aa_char(a: Aa) -> char {
    match a {
        Aa::A => 'A',
        Aa::B => 'B',
        Aa::C => 'C',
        Aa::D => 'D',
        Aa::E => 'E',
        Aa::F => 'F',
        Aa::G => 'G',
        Aa::H => 'H',
        Aa::I => 'I',
        Aa::J => 'J',
        Aa::K => 'K',
        Aa::L => 'L',
        Aa::M => 'M',
        Aa::N => 'N',
        Aa::O => 'O',
        Aa::P => 'P',
        Aa::Q => 'Q',
        Aa::R => 'R',
        Aa::S => 'S',
        Aa::T => 'T',
        Aa::U => 'U',
        Aa::V => 'V',
        Aa::W => 'W',
        Aa::Y => 'Y',
        Aa::Z => 'Z',
        Aa::X => 'X',
        Aa::Stop => '*',
        Aa::Gap => '-',
    }
}

impl Aa {
    pub fn is_gap(&self) -> (r: bool)
        ensures
            r == (*self == Aa::Gap),
    {
        matches!(*self, Aa::Gap)
    }

    pub fn to_char(&self) -> (r: char)
        ensures
            r == aa_char(*self),
    {
        match *self {
            Aa::A => 'A',
            Aa::B => 'B',
            Aa::C => 'C',
            Aa::D => 'D',
            Aa::E => 'E',
            Aa::F => 'F',
            Aa::G => 'G',
            Aa::H => 'H',
            Aa::I => 'I',
            Aa::J => 'J',
            Aa::K => 'K',
            Aa::L => 'L',
            Aa::M => 'M',
            Aa::N => 'N',
            Aa::O => 'O',
            Aa::P => 'P',
            Aa::Q => 'Q',
            Aa::R => 'R',
            Aa::S => 'S',
            Aa::T => 'T',
            Aa::U => 'U',
            Aa::V => 'V',
            Aa::W => 'W',
            Aa::Y => 'Y',
            Aa::Z => 'Z',
            Aa::X => 'X',
            Aa::Stop => '*',
            Aa::Gap => '-',
        }
    }
}

/// The characters that denote an amino acid: capital letters, `*` and `-`.
pub open spec fn is_aa_letter(c: char) -> bool {
    ('A' <= c && c <= 'Z') || c == '*' || c == '-'
}

impl Aa {
    /// The amino acid that a character denotes, if any.
    pub fn from_char(c: char) -> (r: Option<Aa>)
        ensures
            r is None <==> !is_aa_letter(c),
            r matches Option::Some(a) ==> aa_char(a) == c,
    {
        match c {
        'A' => Option::Some(Aa::A),
        'B' => Option::Some(Aa::B),
        'C' => Option::Some(Aa::C),
        'D' => Option::Some(Aa::D),
        'E' => Option::Some(Aa::E),
        'F' => Option::Some(Aa::F),
        'G' => Option::Some(Aa::G),
        'H' => Option::Some(Aa::H),
        'I' => Option::Some(Aa::I),
        'J' => Option::Some(Aa::J),
        'K' => Option::Some(Aa::K),
        'L' => Option::Some(Aa::L),
        'M' => Option::Some(Aa::M),
        'N' => Option::Some(Aa::N),
        'O' => Option::Some(Aa::O),
        'P' => Option::Some(Aa::P),
        'Q' => Option::Some(Aa::Q),
        'R' => Option::Some(Aa::R),
        'S' => Option::Some(Aa::S),
        'T' => Option::Some(Aa::T),
        'U' => Option::Some(Aa::U),
        'V' => Option::Some(Aa::V),
        'W' => Option::Some(Aa::W),
        'Y' => Option::Some(Aa::Y),
        'Z' => Option::Some(Aa::Z),
        'X' => Option::Some(Aa::X),
        '*' => Option::Some(Aa::Stop),
        '-' => Option::Some(Aa::Gap),
        _ => Option::None,
        }
    }
}

} // verus!
