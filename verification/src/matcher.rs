//! The matcher: a backtracking search that tests a compiled element sequence
//! against an input line.

use vstd::prelude::*;

use crate::compiler::{compile_pattern, spec_compile};
use crate::elements::{
    Atom, AtomModel, CompileError, ElemModel, QuantKind, RegexElement, atom_match, atom_matches,
    seq_view,
};

verus! {

/// The fewest repetitions a quantifier kind accepts.
pub open spec fn min_reps(kind: QuantKind) -> int {
    match kind {
        QuantKind::ZeroOrMore => 0,
        QuantKind::OneOrMore => 1,
    }
}

/// Every character of `s` satisfies the atom's match rule.
pub open spec fn run_matches(a: AtomModel, s: Seq<char>) -> bool {
    forall|i: int| 0 <= i < s.len() ==> atom_matches(a, #[trigger] s[i])
}

/// Whether the element sequence matches a prefix of `input`, consuming
/// elements and characters left to right.  An exhausted element sequence
/// is a match whatever input remains; the end anchor additionally demands
/// exhausted input; a quantified atom consumes some run of matching
/// characters whose length the rest of the sequence is free to choose.
/// A start anchor never matches here: [`spec_is_match`] strips it before
/// this rule applies.
pub open spec fn matches_here(elems: Seq<ElemModel>, input: Seq<char>) -> bool
    decreases elems.len(),
{
    if elems.len() == 0 {
        true
    } else {
        let rest = elems.skip(1);
        match elems[0] {
            ElemModel::Single(a) => input.len() > 0 && atom_matches(a, input[0]) && matches_here(
                rest,
                input.skip(1),
            ),
            ElemModel::StartAnchor => false,
            ElemModel::EndAnchor => input.len() == 0 && matches_here(rest, input),
            ElemModel::Quantified(a, kind) => exists|k: int|
                min_reps(kind) <= k <= input.len() && run_matches(a, #[trigger] input.take(k))
                    && matches_here(rest, input.skip(k)),
        }
    }
}

/// Whether the compiled sequence matches somewhere in `input`: anchored
/// patterns are tried at position 0 only, all others at every start
/// position in increasing order.
pub open spec fn spec_is_match(elems: Seq<ElemModel>, input: Seq<char>) -> bool {
    if elems.len() > 0 && elems[0] is StartAnchor {
        matches_here(elems.skip(1), input)
    } else {
        exists|s: int| 0 <= s <= input.len() && matches_here(elems, #[trigger] input.skip(s))
    }
}

/// A run of some length followed by a match of `rest` is exactly the
/// `ZeroOrMore` case of [`matches_here`].
proof fn lemma_star_bridge(
    whole: Seq<ElemModel>,
    rest: Seq<ElemModel>,
    am: AtomModel,
    iv: Seq<char>,
    r: bool,
)
    requires
        whole.len() > 0,
        whole[0] == ElemModel::Quantified(am, QuantKind::ZeroOrMore),
        rest == whole.skip(1),
        r == exists|k: int|
            0 <= k <= iv.len() && run_matches(am, #[trigger] iv.take(k)) && matches_here(
                rest,
                iv.skip(k),
            ),
    ensures
        r == matches_here(whole, iv),
{
    if r {
        let k = choose|k: int|
            0 <= k <= iv.len() && run_matches(am, #[trigger] iv.take(k)) && matches_here(
                rest,
                iv.skip(k),
            );
        assert(min_reps(QuantKind::ZeroOrMore) <= k <= iv.len() && run_matches(am, iv.take(k))
            && matches_here(whole.skip(1), iv.skip(k)));
        assert(matches_here(whole, iv));
    } else {
        if matches_here(whole, iv) {
            let k = choose|k: int|
                min_reps(QuantKind::ZeroOrMore) <= k <= iv.len() && run_matches(
                    am,
                    #[trigger] iv.take(k),
                ) && matches_here(whole.skip(1), iv.skip(k));
            assert(0 <= k <= iv.len() && run_matches(am, iv.take(k)) && matches_here(
                rest,
                iv.skip(k),
            ));
            assert(false);
        }
    }
}

/// One obligatory matching character followed by a run of any further length
/// is exactly the `OneOrMore` case of [`matches_here`].
proof fn lemma_plus_bridge(
    whole: Seq<ElemModel>,
    rest: Seq<ElemModel>,
    am: AtomModel,
    iv: Seq<char>,
    r: bool,
)
    requires
        whole.len() > 0,
        whole[0] == ElemModel::Quantified(am, QuantKind::OneOrMore),
        rest == whole.skip(1),
        iv.len() > 0,
        atom_matches(am, iv[0]),
        r == exists|k: int|
            0 <= k <= iv.skip(1).len() && run_matches(am, #[trigger] iv.skip(1).take(k))
                && matches_here(rest, iv.skip(1).skip(k)),
    ensures
        r == matches_here(whole, iv),
{
    let jv = iv.skip(1);
    if r {
        let k1 = choose|k: int|
            0 <= k <= jv.len() && run_matches(am, #[trigger] jv.take(k)) && matches_here(
                rest,
                jv.skip(k),
            );
        assert forall|j: int| 0 <= j < iv.take(k1 + 1).len() implies atom_matches(
            am,
            #[trigger] iv.take(k1 + 1)[j],
        ) by {
            if j == 0 {
                assert(iv.take(k1 + 1)[0] == iv[0]);
            } else {
                assert(iv.take(k1 + 1)[j] == iv[j]);
                assert(jv.take(k1)[j - 1] == iv[j]);
                assert(atom_matches(am, jv.take(k1)[j - 1]));
            }
        }
        assert(run_matches(am, iv.take(k1 + 1)));
        assert(iv.skip(k1 + 1) =~= jv.skip(k1));
        assert(min_reps(QuantKind::OneOrMore) <= k1 + 1 <= iv.len() && run_matches(
            am,
            iv.take(k1 + 1),
        ) && matches_here(whole.skip(1), iv.skip(k1 + 1)));
        assert(matches_here(whole, iv));
    } else {
        if matches_here(whole, iv) {
            let k = choose|k: int|
                min_reps(QuantKind::OneOrMore) <= k <= iv.len() && run_matches(
                    am,
                    #[trigger] iv.take(k),
                ) && matches_here(whole.skip(1), iv.skip(k));
            assert forall|j: int| 0 <= j < jv.take(k - 1).len() implies atom_matches(
                am,
                #[trigger] jv.take(k - 1)[j],
            ) by {
                assert(jv.take(k - 1)[j] == iv[j + 1]);
                assert(iv.take(k)[j + 1] == iv[j + 1]);
                assert(atom_matches(am, iv.take(k)[j + 1]));
            }
            assert(run_matches(am, jv.take(k - 1)));
            assert(jv.skip(k - 1) =~= iv.skip(k));
            assert(0 <= k - 1 <= jv.len() && run_matches(am, jv.take(k - 1)) && matches_here(
                rest,
                jv.skip(k - 1),
            ));
            assert(false);
        }
    }
}

/// Tries every repetition count for the atom before continuation index `ci`:
/// true exactly when some run of characters matching `atom` lets the rest of
/// the element sequence match what follows the run.
fn match_star(atom: &Atom, elements: &Vec<RegexElement>, ci: usize, input: &Vec<char>, ii: usize)
    -> (r: bool)
    requires
        ci <= elements@.len(),
        ii <= input@.len(),
    ensures
        ({
            let cont = seq_view(elements@).skip(ci as int);
            let iv = input@.skip(ii as int);
            r == exists|k: int|
                0 <= k <= iv.len() && run_matches(atom@, #[trigger] iv.take(k)) && matches_here(
                    cont,
                    iv.skip(k),
                )
        }),
    decreases elements@.len() - ci + 1, input@.len() - ii, 0int,
{
    let ghost cont = seq_view(elements@).skip(ci as int);
    let ghost iv = input@.skip(ii as int);
    let ghost am = atom@;
    if match_here(elements, ci, input, ii) {
        proof {
            assert(iv.take(0) =~= Seq::<char>::empty());
            assert(iv.skip(0) =~= iv);
            assert(run_matches(am, iv.take(0)));
            assert(0 <= 0 <= iv.len() && run_matches(am, iv.take(0)) && matches_here(
                cont,
                iv.skip(0),
            ));
        }
        true
    } else if ii < input.len() && atom_match(atom, input[ii]) {
        let r = match_star(atom, elements, ci, input, ii + 1);
        proof {
            let jv = input@.skip(ii + 1);
            assert(jv =~= iv.skip(1));
            assert(iv[0] == input@[ii as int]);
            if r {
                let k1 = choose|k: int|
                    0 <= k <= jv.len() && run_matches(am, #[trigger] jv.take(k)) && matches_here(
                        cont,
                        jv.skip(k),
                    );
                assert forall|j: int| 0 <= j < iv.take(k1 + 1).len() implies atom_matches(
                    am,
                    #[trigger] iv.take(k1 + 1)[j],
                ) by {
                    if j == 0 {
                        assert(iv.take(k1 + 1)[0] == iv[0]);
                    } else {
                        assert(iv.take(k1 + 1)[j] == iv[j]);
                        assert(iv.skip(1).take(k1)[j - 1] == iv[j]);
                        assert(atom_matches(am, jv.take(k1)[j - 1]));
                    }
                }
                assert(run_matches(am, iv.take(k1 + 1)));
                assert(iv.skip(k1 + 1) =~= jv.skip(k1));
                assert(0 <= k1 + 1 <= iv.len() && run_matches(am, iv.take(k1 + 1)) && matches_here(
                    cont,
                    iv.skip(k1 + 1),
                ));
            } else {
                assert forall|k: int|
                    !(0 <= k <= iv.len() && run_matches(am, #[trigger] iv.take(k)) && matches_here(
                        cont,
                        iv.skip(k),
                    )) by {
                    if 0 <= k <= iv.len() && run_matches(am, iv.take(k)) && matches_here(
                        cont,
                        iv.skip(k),
                    ) {
                        if k == 0 {
                            assert(iv.skip(0) =~= iv);
                            assert(matches_here(cont, iv));
                            assert(false);
                        } else {
                            assert forall|j: int| 0 <= j < jv.take(k - 1).len() implies
                                atom_matches(am, #[trigger] jv.take(k - 1)[j]) by {
                                assert(jv.take(k - 1)[j] == iv[j + 1]);
                                assert(iv.take(k)[j + 1] == iv[j + 1]);
                                assert(atom_matches(am, iv.take(k)[j + 1]));
                            }
                            assert(run_matches(am, jv.take(k - 1)));
                            assert(jv.skip(k - 1) =~= iv.skip(k));
                            assert(0 <= k - 1 <= jv.len() && run_matches(am, jv.take(k - 1))
                                && matches_here(cont, jv.skip(k - 1)));
                            assert(false);
                        }
                    }
                }
            }
        }
        r
    } else {
        proof {
            assert forall|k: int|
                !(0 <= k <= iv.len() && run_matches(am, #[trigger] iv.take(k)) && matches_here(
                    cont,
                    iv.skip(k),
                )) by {
                if 0 <= k <= iv.len() && run_matches(am, iv.take(k)) && matches_here(
                    cont,
                    iv.skip(k),
                ) {
                    if k == 0 {
                        assert(iv.skip(0) =~= iv);
                        assert(matches_here(cont, iv));
                        assert(false);
                    } else {
                        assert(iv.len() > 0);
                        assert(ii < input@.len());
                        assert(iv.take(k)[0] == iv[0]);
                        assert(iv[0] == input@[ii as int]);
                        assert(atom_matches(am, input@[ii as int]));
                        assert(false);
                    }
                }
            }
        }
        false
    }
}

/// Whether the element sequence from index `ei` on matches the input from
/// index `ii` on, by the rule [`matches_here`] states.
pub fn match_here(elements: &Vec<RegexElement>, ei: usize, input: &Vec<char>, ii: usize) -> (r:
    bool)
    requires
        ei <= elements@.len(),
        ii <= input@.len(),
    ensures
        r == matches_here(seq_view(elements@).skip(ei as int), input@.skip(ii as int)),
    decreases elements@.len() - ei, input@.len() - ii, 1int,
{
    let ghost ev = seq_view(elements@).skip(ei as int);
    let ghost iv = input@.skip(ii as int);
    if ei == elements.len() {
        proof {
            assert(ev.len() == 0);
        }
        true
    } else {
        proof {
            assert(ev[0] == elements@[ei as int]@);
            assert(ev.skip(1) =~= seq_view(elements@).skip(ei + 1));
        }
        match &elements[ei] {
            RegexElement::StartAnchor => false,
            RegexElement::EndAnchor => {
                if ii == input.len() {
                    let r = match_here(elements, ei + 1, input, ii);
                    proof {
                        assert(iv.len() == 0);
                    }
                    r
                } else {
                    proof {
                        assert(iv.len() > 0);
                    }
                    false
                }
            },
            RegexElement::Single(a) => {
                if ii < input.len() && atom_match(a, input[ii]) {
                    let r = match_here(elements, ei + 1, input, ii + 1);
                    proof {
                        assert(iv[0] == input@[ii as int]);
                        assert(iv.skip(1) =~= input@.skip(ii + 1));
                    }
                    r
                } else {
                    proof {
                        if ii < input@.len() {
                            assert(iv[0] == input@[ii as int]);
                        }
                    }
                    false
                }
            },
            RegexElement::Quantified(a, kind) => {
                let ghost am = a@;
                match kind {
                    QuantKind::ZeroOrMore => {
                        let r = match_star(a, elements, ei + 1, input, ii);
                        proof {
                            lemma_star_bridge(ev, seq_view(elements@).skip(ei + 1), am, iv, r);
                        }
                        r
                    },
                    QuantKind::OneOrMore => {
                        if ii < input.len() && atom_match(a, input[ii]) {
                            let r = match_star(a, elements, ei + 1, input, ii + 1);
                            proof {
                                assert(iv[0] == input@[ii as int]);
                                assert(input@.skip(ii + 1) =~= iv.skip(1));
                                lemma_plus_bridge(ev, seq_view(elements@).skip(ei + 1), am, iv, r);
                            }
                            r
                        } else {
                            proof {
                                if matches_here(ev, iv) {
                                    let k = choose|k: int|
                                        min_reps(QuantKind::OneOrMore) <= k <= iv.len()
                                            && run_matches(am, #[trigger] iv.take(k))
                                            && matches_here(ev.skip(1), iv.skip(k));
                                    assert(iv.len() > 0);
                                    assert(ii < input@.len());
                                    assert(iv.take(k)[0] == iv[0]);
                                    assert(iv[0] == input@[ii as int]);
                                    assert(atom_matches(am, input@[ii as int]));
                                }
                            }
                            false
                        }
                    },
                }
            },
        }
    }
}

/// Tests the compiled sequence against `input`: anchored patterns once at
/// position 0, all others at every start position until one matches.
pub fn is_match(elements: &Vec<RegexElement>, input: &Vec<char>) -> (r: bool)
    ensures
        r == spec_is_match(seq_view(elements@), input@),
{
    let ghost ev = seq_view(elements@);
    let anchored = elements.len() > 0 && matches!(&elements[0], RegexElement::StartAnchor);
    proof {
        if elements@.len() > 0 {
            assert(ev[0] == elements@[0]@);
        }
        assert(anchored == (ev.len() > 0 && ev[0] is StartAnchor));
    }
    if anchored {
        let r = match_here(elements, 1, input, 0);
        proof {
            assert(input@.skip(0) =~= input@);
        }
        r
    } else {
        proof {
            assert(ev.skip(0) =~= ev);
        }
        let mut s: usize = 0;
        let mut found = match_here(elements, 0, input, 0);
        while !found && s < input.len()
            invariant
                s <= input@.len(),
                ev == seq_view(elements@),
                ev.skip(0) == ev,
                !(ev.len() > 0 && ev[0] is StartAnchor),
                forall|t: int| 0 <= t < s ==> !matches_here(ev, #[trigger] input@.skip(t)),
                found == matches_here(ev, input@.skip(s as int)),
            decreases input@.len() - s,
        {
            s += 1;
            found = match_here(elements, 0, input, s);
        }
        proof {
            if found {
                assert(0 <= s as int <= input@.len() && matches_here(ev, input@.skip(s as int)));
                assert(spec_is_match(ev, input@));
            } else {
                assert(s as int == input@.len());
                assert forall|t: int| 0 <= t <= input@.len() implies !matches_here(
                    ev,
                    #[trigger] input@.skip(t),
                ) by {
                    if t == s as int {
                        assert(!matches_here(ev, input@.skip(s as int)));
                    }
                }
            }
        }
        found
    }
}

/// Compiles `pattern` and tests it against `input_line` in one call.
pub fn match_pattern(input_line: &Vec<char>, pattern: &Vec<char>) -> (r: Result<
    bool,
    CompileError,
>)
    ensures
        match spec_compile(pattern@) {
            Ok(elems) => r == Ok::<_, CompileError>(spec_is_match(elems, input_line@)),
            Err(e) => r == Err::<bool, _>(e),
        },
{
    match compile_pattern(pattern) {
        Ok(elems) => Ok(is_match(&elems, input_line)),
        Err(e) => Err(e),
    }
}

} // verus!
