//! The pattern compiler: a single left-to-right pass with one character of
//! lookahead that turns a pattern into a flat sequence of elements.

use vstd::prelude::*;

use crate::elements::{Atom, AtomModel, CompileError, ElemModel, QuantKind, RegexElement, seq_view};

verus! {

/// Index of the first `]` in `p`, or `p.len()` if there is none.
pub open spec fn first_close(p: Seq<char>) -> int
    decreases p.len(),
{
    if p.len() == 0 {
        0
    } else if p[0] == ']' {
        0
    } else {
        1 + first_close(p.skip(1))
    }
}

pub proof fn lemma_first_close_bounds(p: Seq<char>)
    ensures
        0 <= first_close(p) <= p.len(),
        first_close(p) < p.len() ==> p[first_close(p)] == ']',
        forall|i: int| 0 <= i < first_close(p) ==> p[i] != ']',
    decreases p.len(),
{
    if p.len() > 0 && p[0] != ']' {
        lemma_first_close_bounds(p.skip(1));
        assert forall|i: int| 0 <= i < first_close(p) implies p[i] != ']' by {
            if i >= 1 {
                assert(p.skip(1)[i - 1] == p[i]);
            }
        }
        if first_close(p) < p.len() {
            assert(p.skip(1)[first_close(p) - 1] == p[first_close(p)]);
        }
    }
}

/// `j` is where the first `]` of `p` stands (or `p.len()`, if `j` is past every
/// character and none of them is `]`).
pub proof fn lemma_first_close_at(p: Seq<char>, j: int)
    requires
        0 <= j <= p.len(),
        forall|i: int| 0 <= i < j ==> p[i] != ']',
        j < p.len() ==> p[j] == ']',
    ensures
        first_close(p) == j,
    decreases p.len(),
{
    if p.len() == 0 {
    } else if p[0] == ']' {
        assert(j == 0);
    } else {
        assert(j >= 1);
        assert forall|i: int| 0 <= i < j - 1 implies p.skip(1)[i] != ']' by {
            assert(p.skip(1)[i] == p[i + 1]);
        }
        if j - 1 < p.skip(1).len() {
            assert(p.skip(1)[j - 1] == p[j]);
        }
        lemma_first_close_at(p.skip(1), j - 1);
    }
}

/// Parses the single atom at the front of `p`: the atom's model and how many
/// pattern characters it spans.
pub open spec fn spec_parse_atom(p: Seq<char>) -> Result<(AtomModel, int), CompileError>
    recommends
        p.len() > 0,
{
    if p[0] == '\\' {
        if p.len() < 2 {
            Err(CompileError::UnterminatedEscape)
        } else if p[1] == 'd' {
            Ok((AtomModel::DigitClass, 2))
        } else if p[1] == 'w' {
            Ok((AtomModel::WordClass, 2))
        } else {
            Err(CompileError::InvalidEscape)
        }
    } else if p[0] == '[' {
        if p.len() >= 2 && p[1] == '^' {
            let body = p.skip(2);
            let j = first_close(body);
            if j == body.len() {
                Err(CompileError::UnterminatedGroup)
            } else {
                Ok((AtomModel::NegativeGroup(body.take(j).to_set()), 2 + j + 1))
            }
        } else {
            let body = p.skip(1);
            let j = first_close(body);
            if j == body.len() {
                Err(CompileError::UnterminatedGroup)
            } else {
                Ok((AtomModel::PositiveGroup(body.take(j).to_set()), 1 + j + 1))
            }
        }
    } else {
        Ok((AtomModel::Literal(p[0]), 1))
    }
}

pub proof fn lemma_parse_atom_len(p: Seq<char>)
    requires
        p.len() > 0,
    ensures
        spec_parse_atom(p) matches Ok(an) ==> 1 <= an.1 <= p.len(),
{
    if p[0] == '[' {
        lemma_first_close_bounds(p.skip(1));
        lemma_first_close_bounds(p.skip(2));
    }
}

/// Compiles everything after a leading start anchor: one syntactic unit at a
/// time, wrapping an atom into a quantified element when `*` or `+` follows it.
pub open spec fn spec_compile_rest(p: Seq<char>) -> Result<Seq<ElemModel>, CompileError>
    decreases p.len(),
    via spec_compile_rest_decreases
{
    if p.len() == 0 {
        Ok(Seq::empty())
    } else if p[0] == '$' && p.len() == 1 {
        Ok(seq![ElemModel::EndAnchor])
    } else if p[0] == '^' {
        Err(CompileError::MisplacedAnchor)
    } else if p[0] == '*' || p[0] == '+' {
        Err(CompileError::DanglingQuantifier)
    } else {
        match spec_parse_atom(p) {
            Err(e) => Err(e),
            Ok((atom, n)) => {
                if n < p.len() && (p[n] == '*' || p[n] == '+') {
                    let kind = if p[n] == '*' {
                        QuantKind::ZeroOrMore
                    } else {
                        QuantKind::OneOrMore
                    };
                    match spec_compile_rest(p.skip(n + 1)) {
                        Ok(rest) => Ok(seq![ElemModel::Quantified(atom, kind)] + rest),
                        Err(e) => Err(e),
                    }
                } else {
                    match spec_compile_rest(p.skip(n)) {
                        Ok(rest) => Ok(seq![ElemModel::Single(atom)] + rest),
                        Err(e) => Err(e),
                    }
                }
            },
        }
    }
}

#[via_fn]
proof fn spec_compile_rest_decreases(p: Seq<char>) {
    if p.len() > 0 {
        lemma_parse_atom_len(p);
    }
}

/// Compiles a whole pattern: a leading `^` becomes the start anchor, the rest
/// compiles unit by unit.
pub open spec fn spec_compile(p: Seq<char>) -> Result<Seq<ElemModel>, CompileError> {
    if p.len() > 0 && p[0] == '^' {
        match spec_compile_rest(p.skip(1)) {
            Ok(rest) => Ok(seq![ElemModel::StartAnchor] + rest),
            Err(e) => Err(e),
        }
    } else {
        spec_compile_rest(p)
    }
}

/// Position of the first `]` at or after `start`, if any.
fn find_close(pattern: &Vec<char>, start: usize) -> (r: Option<usize>)
    requires
        start <= pattern@.len(),
    ensures
        match r {
            Some(k) => start <= k < pattern@.len() && first_close(pattern@.skip(start as int)) == k
                - start,
            None => first_close(pattern@.skip(start as int)) == pattern@.len() - start,
        },
{
    let ghost body = pattern@.skip(start as int);
    let mut k = start;
    while k < pattern.len()
        invariant
            start <= k <= pattern@.len(),
            body == pattern@.skip(start as int),
            forall|i: int| 0 <= i < k - start ==> body[i] != ']',
        decreases pattern@.len() - k,
    {
        if pattern[k] == ']' {
            proof {
                assert(body[k - start] == pattern@[k as int]);
                lemma_first_close_at(body, k - start);
            }
            return Some(k);
        }
        proof {
            assert(body[k - start] == pattern@[k as int]);
        }
        k += 1;
    }
    proof {
        lemma_first_close_at(body, body.len() as int);
    }
    None
}

/// Copies `pattern[start..end]` into a fresh member list.
fn collect_members(pattern: &Vec<char>, start: usize, end: usize) -> (r: Vec<char>)
    requires
        start <= end <= pattern@.len(),
    ensures
        r@ == pattern@.subrange(start as int, end as int),
{
    let mut members: Vec<char> = Vec::new();
    let mut i = start;
    while i < end
        invariant
            start <= i <= end <= pattern@.len(),
            members@ == pattern@.subrange(start as int, i as int),
        decreases end - i,
    {
        members.push(pattern[i]);
        proof {
            assert(members@ =~= pattern@.subrange(start as int, i + 1));
        }
        i += 1;
    }
    members
}

/// Parses the single atom that starts at `pattern[i]`; on success returns it
/// with the index just past it.
fn parse_atom_at(pattern: &Vec<char>, i: usize) -> (r: Result<(Atom, usize), CompileError>)
    requires
        i < pattern@.len(),
    ensures
        match r {
            Ok(an) => i < an.1 <= pattern@.len() && spec_parse_atom(pattern@.skip(i as int))
                == Ok::<_, CompileError>((an.0@, an.1 - i)),
            Err(e) => spec_parse_atom(pattern@.skip(i as int)) == Err::<(AtomModel, int), _>(e),
        },
{
    let ghost p = pattern@.skip(i as int);
    proof {
        assert(p[0] == pattern@[i as int]);
    }
    let len = pattern.len();
    let c = pattern[i];
    if c == '\\' {
        if i + 1 == len {
            Err(CompileError::UnterminatedEscape)
        } else {
            proof {
                assert(p[1] == pattern@[i + 1]);
            }
            let d = pattern[i + 1];
            if d == 'd' {
                Ok((Atom::DigitClass, i + 2))
            } else if d == 'w' {
                Ok((Atom::WordClass, i + 2))
            } else {
                Err(CompileError::InvalidEscape)
            }
        }
    } else if c == '[' {
        let negated = i + 1 < len && pattern[i + 1] == '^';
        proof {
            if i + 1 < pattern@.len() {
                assert(p[1] == pattern@[i + 1]);
            }
            assert(negated == (p.len() >= 2 && p[1] == '^'));
        }
        let body_start = if negated {
            i + 2
        } else {
            i + 1
        };
        let ghost body = pattern@.skip(body_start as int);
        proof {
            if negated {
                assert(body =~= p.skip(2));
            } else {
                assert(body =~= p.skip(1));
            }
        }
        match find_close(pattern, body_start) {
            None => Err(CompileError::UnterminatedGroup),
            Some(cl) => {
                let members = collect_members(pattern, body_start, cl);
                proof {
                    assert(members@ =~= body.take(cl - body_start));
                }
                if negated {
                    Ok((Atom::NegativeGroup(members), cl + 1))
                } else {
                    Ok((Atom::PositiveGroup(members), cl + 1))
                }
            },
        }
    } else {
        Ok((Atom::Literal(c), i + 1))
    }
}

/// Compiles the pattern from position `i` on, the leading anchor (if any)
/// already handled.
fn compile_rest(pattern: &Vec<char>, i: usize) -> (r: Result<Vec<RegexElement>, CompileError>)
    requires
        i <= pattern@.len(),
    ensures
        match r {
            Ok(elems) => spec_compile_rest(pattern@.skip(i as int)) == Ok::<_, CompileError>(
                seq_view(elems@),
            ),
            Err(e) => spec_compile_rest(pattern@.skip(i as int)) == Err::<Seq<ElemModel>, _>(e),
        },
    decreases pattern@.len() - i,
{
    let ghost p = pattern@.skip(i as int);
    if i == pattern.len() {
        let elems: Vec<RegexElement> = Vec::new();
        proof {
            assert(seq_view(elems@) =~= Seq::<ElemModel>::empty());
        }
        Ok(elems)
    } else {
        proof {
            assert(p[0] == pattern@[i as int]);
        }
        let c = pattern[i];
        if c == '$' && i + 1 == pattern.len() {
            let mut elems: Vec<RegexElement> = Vec::new();
            elems.push(RegexElement::EndAnchor);
            proof {
                assert(seq_view(elems@) =~= seq![ElemModel::EndAnchor]);
            }
            Ok(elems)
        } else if c == '^' {
            Err(CompileError::MisplacedAnchor)
        } else if c == '*' || c == '+' {
            Err(CompileError::DanglingQuantifier)
        } else {
            match parse_atom_at(pattern, i) {
                Err(e) => Err(e),
                Ok((atom, next)) => {
                    let ghost n = next - i;
                    let quantifier = if next < pattern.len() && (pattern[next] == '*'
                        || pattern[next] == '+') {
                        proof {
                            assert(p[n] == pattern@[next as int]);
                        }
                        if pattern[next] == '*' {
                            Some(QuantKind::ZeroOrMore)
                        } else {
                            Some(QuantKind::OneOrMore)
                        }
                    } else {
                        proof {
                            if n < p.len() {
                                assert(p[n] == pattern@[next as int]);
                            }
                        }
                        None
                    };
                    match quantifier {
                        Some(kind) => {
                            proof {
                                assert(p.skip(n + 1) =~= pattern@.skip(next + 1));
                            }
                            match compile_rest(pattern, next + 1) {
                                Err(e) => Err(e),
                                Ok(mut elems) => {
                                    let ghost tail = elems@;
                                    let element = RegexElement::Quantified(atom, kind);
                                    let ghost em = element@;
                                    elems.insert(0, element);
                                    proof {
                                        assert(seq_view(elems@) =~= seq![em] + seq_view(tail));
                                    }
                                    Ok(elems)
                                },
                            }
                        },
                        None => {
                            proof {
                                assert(p.skip(n) =~= pattern@.skip(next as int));
                            }
                            match compile_rest(pattern, next) {
                                Err(e) => Err(e),
                                Ok(mut elems) => {
                                    let ghost tail = elems@;
                                    let element = RegexElement::Single(atom);
                                    let ghost em = element@;
                                    elems.insert(0, element);
                                    proof {
                                        assert(seq_view(elems@) =~= seq![em] + seq_view(tail));
                                    }
                                    Ok(elems)
                                },
                            }
                        },
                    }
                },
            }
        }
    }
}

/// Compiles a pattern into its element sequence, or reports the first error
/// of the single left-to-right pass.
pub fn compile_pattern(pattern: &Vec<char>) -> (r: Result<Vec<RegexElement>, CompileError>)
    ensures
        match r {
            Ok(elems) => spec_compile(pattern@) == Ok::<_, CompileError>(seq_view(elems@)),
            Err(e) => spec_compile(pattern@) == Err::<Seq<ElemModel>, _>(e),
        },
{
    if pattern.len() > 0 && pattern[0] == '^' {
        match compile_rest(pattern, 1) {
            Err(e) => Err(e),
            Ok(mut elems) => {
                let ghost tail = elems@;
                elems.insert(0, RegexElement::StartAnchor);
                proof {
                    assert(seq_view(elems@) =~= seq![ElemModel::StartAnchor] + seq_view(tail));
                }
                Ok(elems)
            },
        }
    } else {
        let r = compile_rest(pattern, 0);
        proof {
            assert(pattern@.skip(0) =~= pattern@);
        }
        r
    }
}

} // verus!
