//! The element types a compiled pattern is made of, their ghost models,
//! and the single-character match rules.

use vstd::prelude::*;

verus! {

/// How often a quantified atom may repeat.
#[derive(Clone, Copy, Debug, PartialEq, Eq, Structural)]
pub enum QuantKind {
    ZeroOrMore,
    OneOrMore,
}

/// A pattern element that matches exactly one input character.
#[derive(Debug, PartialEq)]
pub enum Atom {
    /// Matches exactly this character.
    Literal(char),
    /// Matches any ASCII digit.
    DigitClass,
    /// Matches any alphanumeric character.
    WordClass,
    /// Matches any character present in the member list.
    PositiveGroup(Vec<char>),
    /// Matches any character absent from the member list.
    NegativeGroup(Vec<char>),
}

/// One element of a compiled pattern, in match order.
#[derive(Debug, PartialEq)]
pub enum RegexElement {
    /// A single atom, consuming one matching input character.
    Single(Atom),
    /// Zero-width assertion: matching starts at position 0 of the input.
    StartAnchor,
    /// Zero-width assertion: the input is exhausted.
    EndAnchor,
    /// A repeated atom, consuming a run of matching input characters.
    Quantified(Atom, QuantKind),
}

/// Why a pattern failed to compile.
#[derive(Clone, Copy, Debug, PartialEq, Eq, Structural)]
pub enum CompileError {
    /// An unsupported character follows `\`.
    InvalidEscape,
    /// The pattern ends with a bare `\`.
    UnterminatedEscape,
    /// The pattern ends before a `[` group's closing `]`.
    UnterminatedGroup,
    /// A `*` or `+` with no atom before it.
    DanglingQuantifier,
    /// A `^` somewhere other than the start of the pattern.
    MisplacedAnchor,
}

/// Mathematical model of an [`Atom`]: group members become a set of characters.
pub enum AtomModel {
    Literal(char),
    DigitClass,
    WordClass,
    PositiveGroup(Set<char>),
    NegativeGroup(Set<char>),
}

/// Mathematical model of a [`RegexElement`].
pub enum ElemModel {
    Single(AtomModel),
    StartAnchor,
    EndAnchor,
    Quantified(AtomModel, QuantKind),
}

impl View for Atom {
    type V = AtomModel;

    open spec fn view(&self) -> AtomModel {
        match self {
            Atom::Literal(c) => AtomModel::Literal(*c),
            Atom::DigitClass => AtomModel::DigitClass,
            Atom::WordClass => AtomModel::WordClass,
            Atom::PositiveGroup(members) => AtomModel::PositiveGroup(members@.to_set()),
            Atom::NegativeGroup(members) => AtomModel::NegativeGroup(members@.to_set()),
        }
    }
}

impl View for RegexElement {
    type V = ElemModel;

    open spec fn view(&self) -> ElemModel {
        match self {
            RegexElement::Single(a) => ElemModel::Single(a@),
            RegexElement::StartAnchor => ElemModel::StartAnchor,
            RegexElement::EndAnchor => ElemModel::EndAnchor,
            RegexElement::Quantified(a, k) => ElemModel::Quantified(a@, *k),
        }
    }
}

/// The model of a compiled pattern: the models of its elements, in match order.
pub open spec fn seq_view(s: Seq<RegexElement>) -> Seq<ElemModel> {
    s.map_values(|e: RegexElement| e@)
}

/// Whether `c` is an ASCII digit.
pub open spec fn is_digit_char(c: char) -> bool {
    ('0' as u32) <= (c as u32) && (c as u32) <= ('9' as u32)
}

/// Whether `c` is an ASCII letter.
pub open spec fn is_ascii_letter(c: char) -> bool {
    (('a' as u32) <= (c as u32) && (c as u32) <= ('z' as u32)) || (('A' as u32) <= (c as u32) && (c
        as u32) <= ('Z' as u32))
}

/// Whether `c` is alphanumeric, as std's `char::is_alphanumeric` decides it.
/// The Unicode tables behind that test cannot be restated here, so the result
/// only carries a name; it depends on the character alone.
pub uninterp spec fn is_alnum(c: char) -> bool;

/// Relies on std's `char::is_alphanumeric` for the word class: its result is
/// a function of the character alone, named `is_alnum`; ASCII digits and
/// letters are documented to be alphanumeric.
pub assume_specification[ char::is_alphanumeric ](c: char) -> (r: bool)
    ensures
        r == is_alnum(c),
        is_digit_char(c) || is_ascii_letter(c) ==> r,
;

/// The one-character match rule of an atom.
pub open spec fn atom_matches(a: AtomModel, c: char) -> bool {
    match a {
        AtomModel::Literal(l) => c == l,
        AtomModel::DigitClass => is_digit_char(c),
        AtomModel::WordClass => is_alnum(c),
        AtomModel::PositiveGroup(members) => members.contains(c),
        AtomModel::NegativeGroup(members) => !members.contains(c),
    }
}

/// Whether the character list `members` contains `c`.
fn list_contains(members: &Vec<char>, c: char) -> (r: bool)
    ensures
        r == members@.to_set().contains(c),
{
    let mut i: usize = 0;
    while i < members.len()
        invariant
            i <= members@.len(),
            forall|j: int| 0 <= j < i ==> members@[j] != c,
        decreases members@.len() - i,
    {
        if members[i] == c {
            assert(members@.contains(c));
            return true;
        }
        i += 1;
    }
    assert(!members@.contains(c));
    false
}

/// Decides the one-character match rule of an atom.
pub fn atom_match(a: &Atom, c: char) -> (r: bool)
    ensures
        r == atom_matches(a@, c),
{
    match a {
        Atom::Literal(l) => *l == c,
        Atom::DigitClass => {
            let u = c as u32;
            ('0' as u32) <= u && u <= ('9' as u32)
        },
        Atom::WordClass => c.is_alphanumeric(),
        Atom::PositiveGroup(members) => list_contains(members, c),
        Atom::NegativeGroup(members) => !list_contains(members, c),
    }
}

} // verus!
