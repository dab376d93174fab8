//! Laws the engine obeys, proved from the compiler's and the matcher's
//! contracts.

use vstd::prelude::*;

use crate::compiler::{lemma_parse_atom_len, spec_compile, spec_compile_rest, spec_parse_atom};
use crate::elements::{AtomModel, CompileError, ElemModel, QuantKind};
use crate::matcher::{matches_here, min_reps, run_matches, spec_is_match};

verus! {

/// The element sequence contains no anchor.
pub open spec fn anchor_free(elems: Seq<ElemModel>) -> bool {
    forall|i: int|
        0 <= i < elems.len() ==> !((#[trigger] elems[i]) is StartAnchor) && !(elems[i] is EndAnchor)
}

/// No end anchor stands before the last element of the sequence.
pub open spec fn end_anchor_last(elems: Seq<ElemModel>) -> bool {
    forall|i: int| 0 <= i < elems.len() - 1 ==> !((#[trigger] elems[i]) is EndAnchor)
}

/// No start anchor stands anywhere in the sequence.
pub open spec fn start_anchor_free(elems: Seq<ElemModel>) -> bool {
    forall|i: int| 0 <= i < elems.len() ==> !((#[trigger] elems[i]) is StartAnchor)
}

proof fn lemma_compile_rest_wf(p: Seq<char>)
    ensures
        spec_compile_rest(p) matches Ok(elems) ==> end_anchor_last(elems) && start_anchor_free(
            elems,
        ),
    decreases p.len(),
{
    if p.len() == 0 {
    } else if p[0] == '$' && p.len() == 1 {
    } else if p[0] == '^' || p[0] == '*' || p[0] == '+' {
    } else {
        lemma_parse_atom_len(p);
        match spec_parse_atom(p) {
            Err(_) => {},
            Ok((_, n)) => {
                let tail = if n < p.len() && (p[n] == '*' || p[n] == '+') {
                    p.skip(n + 1)
                } else {
                    p.skip(n)
                };
                lemma_compile_rest_wf(tail);
                match spec_compile_rest(tail) {
                    Err(_) => {},
                    Ok(rest) => {
                        let elems = spec_compile_rest(p)->Ok_0;
                        assert(elems.len() == 1 + rest.len());
                        assert(!(elems[0] is StartAnchor) && !(elems[0] is EndAnchor));
                        assert forall|i: int| 0 <= i < elems.len() implies !(
                        (#[trigger] elems[i]) is StartAnchor) by {
                            if i >= 1 {
                                assert(elems[i] == rest[i - 1]);
                            }
                        }
                        assert forall|i: int| 0 <= i < elems.len() - 1 implies !(
                        (#[trigger] elems[i]) is EndAnchor) by {
                            if i >= 1 {
                                assert(elems[i] == rest[i - 1]);
                            }
                        }
                    },
                }
            },
        }
    }
}

/// A compiled pattern is well formed: a start anchor stands only first, an
/// end anchor only last.
pub proof fn lemma_compiled_well_formed(p: Seq<char>, elems: Seq<ElemModel>)
    requires
        spec_compile(p) == Ok::<_, CompileError>(elems),
    ensures
        end_anchor_last(elems),
        forall|i: int| 1 <= i < elems.len() ==> !((#[trigger] elems[i]) is StartAnchor),
{
    if p.len() > 0 && p[0] == '^' {
        lemma_compile_rest_wf(p.skip(1));
        let rest = spec_compile_rest(p.skip(1))->Ok_0;
        assert(elems == seq![ElemModel::StartAnchor] + rest);
        assert forall|i: int| 1 <= i < elems.len() implies !(
        (#[trigger] elems[i]) is StartAnchor) by {
            assert(elems[i] == rest[i - 1]);
        }
        assert forall|i: int| 0 <= i < elems.len() - 1 implies !(
        (#[trigger] elems[i]) is EndAnchor) by {
            if i >= 1 {
                assert(elems[i] == rest[i - 1]);
            }
        }
    } else {
        lemma_compile_rest_wf(p);
    }
}

/// A match of an element sequence free of end anchors survives appending
/// characters to the input: nothing behind the matched region is inspected.
proof fn lemma_matches_here_append(elems: Seq<ElemModel>, input: Seq<char>, ext: Seq<char>)
    requires
        forall|i: int| 0 <= i < elems.len() ==> !((#[trigger] elems[i]) is EndAnchor),
        matches_here(elems, input),
    ensures
        matches_here(elems, input + ext),
    decreases elems.len(),
{
    if elems.len() == 0 {
    } else {
        let rest = elems.skip(1);
        let whole = input + ext;
        assert forall|i: int| 0 <= i < rest.len() implies !((#[trigger] rest[i]) is EndAnchor) by {
            assert(rest[i] == elems[i + 1]);
        }
        match elems[0] {
            ElemModel::Single(a) => {
                assert(whole[0] == input[0]);
                assert(whole.skip(1) =~= input.skip(1) + ext);
                lemma_matches_here_append(rest, input.skip(1), ext);
            },
            ElemModel::StartAnchor => {
                assert(false);
            },
            ElemModel::EndAnchor => {
                assert(!(elems[0] is EndAnchor));
                assert(false);
            },
            ElemModel::Quantified(a, kind) => {
                let k = choose|k: int|
                    min_reps(kind) <= k <= input.len() && run_matches(a, #[trigger] input.take(k))
                        && matches_here(rest, input.skip(k));
                assert(whole.take(k) =~= input.take(k));
                assert(whole.skip(k) =~= input.skip(k) + ext);
                lemma_matches_here_append(rest, input.skip(k), ext);
                assert(min_reps(kind) <= k <= whole.len() && run_matches(a, whole.take(k))
                    && matches_here(rest, whole.skip(k)));
            },
        }
    }
}

/// Containment: a match of an anchor-free pattern survives putting the input
/// into any larger line, characters before it and after it alike.
pub proof fn lemma_unanchored_containment(
    elems: Seq<ElemModel>,
    input: Seq<char>,
    prefix: Seq<char>,
    suffix: Seq<char>,
)
    requires
        anchor_free(elems),
        spec_is_match(elems, input),
    ensures
        spec_is_match(elems, prefix + input + suffix),
{
    let whole = prefix + input + suffix;
    if elems.len() > 0 {
        assert(!(elems[0] is StartAnchor));
    }
    let s = choose|s: int| 0 <= s <= input.len() && matches_here(elems, #[trigger] input.skip(s));
    lemma_matches_here_append(elems, input.skip(s), suffix);
    assert(whole.skip(prefix.len() + s) =~= input.skip(s) + suffix);
    assert(0 <= prefix.len() + s <= whole.len() && matches_here(
        elems,
        whole.skip(prefix.len() + s),
    ));
}

/// A pattern that is one zero-or-more quantified atom matches every input:
/// zero repetitions always satisfy it.
pub proof fn lemma_zero_or_more_matches_all(a: AtomModel, input: Seq<char>)
    ensures
        spec_is_match(seq![ElemModel::Quantified(a, QuantKind::ZeroOrMore)], input),
{
    let elems = seq![ElemModel::Quantified(a, QuantKind::ZeroOrMore)];
    assert(input.take(0) =~= Seq::<char>::empty());
    assert(run_matches(a, input.take(0)));
    assert(matches_here(elems.skip(1), input.skip(0)));
    assert(min_reps(QuantKind::ZeroOrMore) <= 0 <= input.len());
    assert(matches_here(elems, input));
    assert(input.skip(0) =~= input);
    assert(0 <= 0 <= input.len() && matches_here(elems, input.skip(0)));
}

/// Compilation is deterministic: one pattern has one compiled form, and so
/// one match behaviour on every input.
pub proof fn lemma_compile_deterministic(p: Seq<char>, e1: Seq<ElemModel>, e2: Seq<ElemModel>)
    requires
        spec_compile(p) == Ok::<_, CompileError>(e1),
        spec_compile(p) == Ok::<_, CompileError>(e2),
    ensures
        e1 == e2,
        forall|input: Seq<char>| spec_is_match(e1, input) == spec_is_match(e2, input),
{
}

/// Matching is deterministic: any two results obtained for the same compiled
/// sequence and the same input agree — the matcher keeps no hidden state.
pub proof fn lemma_is_match_deterministic(
    elems: Seq<ElemModel>,
    input: Seq<char>,
    r1: bool,
    r2: bool,
)
    requires
        r1 == spec_is_match(elems, input),
        r2 == spec_is_match(elems, input),
    ensures
        r1 == r2,
{
}

} // verus!
