//! Laws of the evaluator and the matcher, stated against the fuel-indexed
//! semantics that the executable functions are proved to implement.

use vstd::prelude::*;

use crate::bindings::b_join;
use crate::classify::{all_literal, literal_of, singular_of};
use crate::eq::term_eq;
use crate::error::ErrV;
use crate::semantics::{
    spec_call, spec_eval, spec_eval_dispatch, spec_kleene, spec_match, spec_match_list, MatchR,
};
use crate::simplify::{simp, simp_children};
use crate::term::{BindingsV, FunV, NumberV, TermV};

verus! {

/// Evaluating a number yields that number, in every environment, whenever
/// any evaluation step is possible at all.
pub proof fn lemma_eval_number(n: NumberV, env: Seq<BindingsV>, fuel: nat)
    requires
        fuel >= 1,
    ensures
        spec_eval(TermV::Number(n), env, fuel) == Result::<TermV, ErrV>::Ok(TermV::Number(n)),
{
    assert(simp(TermV::Number(n)) == TermV::Number(n));
    assert(spec_eval_dispatch(TermV::Number(n), env, (fuel - 1) as nat) == Result::<
        TermV,
        ErrV,
    >::Ok(TermV::Number(n)));
}

/// Evaluating the empty list fails with the cannot-evaluate error.
pub proof fn lemma_eval_empty_list(env: Seq<BindingsV>, fuel: nat)
    requires
        fuel >= 1,
    ensures
        spec_eval(TermV::List(Seq::empty()), env, fuel) == Result::<TermV, ErrV>::Err(
            ErrV::CannotEvaluate(TermV::List(Seq::empty())),
        ),
{
    assert(simp_children(Seq::empty()) == Seq::<TermV>::empty());
    assert(simp(TermV::List(Seq::empty())) == TermV::List(Seq::empty()));
    assert(spec_eval_dispatch(TermV::List(Seq::empty()), env, (fuel - 1) as nat) == Result::<
        TermV,
        ErrV,
    >::Err(ErrV::CannotEvaluate(TermV::List(Seq::empty()))));
}

/// A literal pattern matches a term exactly when the two are structurally
/// equal, and then captures nothing: the match succeeds with the empty
/// binding set on equality and fails otherwise.
pub proof fn lemma_literal_match(p: TermV, t: TermV, fuel: nat)
    requires
        fuel >= 1,
        literal_of(p),
    ensures
        spec_match(p, t, fuel) == MatchR::Ok(
            if term_eq(p, t) {
                Some(Seq::<(crate::term::IdentV, TermV)>::empty())
            } else {
                None
            },
        ),
{
}

/// A block pattern heading a pattern list fails whenever fewer values
/// remain than the block is long, regardless of partial matches.
pub proof fn lemma_consecutive_needs_length(block: Seq<TermV>, vs: Seq<TermV>, fuel: nat)
    requires
        fuel >= 1,
        vs.len() < block.len(),
    ensures
        spec_match(TermV::List(seq![TermV::Consecutive(block)]), TermV::List(vs), fuel)
            == MatchR::Ok(None),
{
    let ps = seq![TermV::Consecutive(block)];
    assert(!literal_of(ps[0]));
    assert(all_literal(ps) == (literal_of(ps.last()) && all_literal(ps.drop_last())));
    assert(!all_literal(ps));
    assert(!literal_of(TermV::List(ps)));
    assert(!singular_of(ps[0]));
    assert(ps.last() == ps[0]);
    assert(spec_match_list(ps, vs, fuel) == MatchR::Ok(None));
}

/// Greediness of open repetition.  Let `g(k)` be the candidate
/// repeated-pattern sequence the search holds after growing to length
/// `k`, starting from `g(i0)`.  Suppose no step of the search errors:
/// every grown prefix and every tail attempt returns an outcome, and
/// every growth call succeeds and appends one element.  If `m` is a count
/// at which both the grown prefix and the pattern tail match, and no
/// larger count succeeds on both, then the search returns exactly the
/// bindings joined at `m`: everything up to position `m` is consumed by
/// the repetition, whatever happened at smaller counts.
pub proof fn lemma_kleene_greedy(
    g: spec_fn(int) -> Seq<TermV>,
    tail: Seq<TermV>,
    vs: Seq<TermV>,
    best: Option<BindingsV>,
    next: FunV,
    fuel: nat,
    i0: int,
    m: int,
    bm1: BindingsV,
    bm2: BindingsV,
)
    requires
        fuel >= 1,
        0 <= i0 <= vs.len() + 1,
        0 <= m <= vs.len(),
        g(i0).len() == i0,
        forall|k: int| i0 <= k <= vs.len() ==> spec_call(
            next,
            seq![TermV::List(#[trigger] g(k))],
            Seq::empty(),
            (fuel - 1) as nat,
        ) is Ok,
        forall|k: int| i0 <= k < vs.len() ==> g(k + 1) == (#[trigger] g(k)).push(
            spec_call(
                next,
                seq![TermV::List(g(k))],
                Seq::empty(),
                (fuel - 1) as nat,
            )->Ok_0,
        ),
        forall|k: int| i0 <= k <= vs.len() ==> spec_match(
            TermV::List(#[trigger] g(k)),
            TermV::List(vs.subrange(0, k)),
            (fuel - 1) as nat,
        ) is Ok,
        forall|k: int| i0 <= k <= vs.len() ==> spec_match(
            TermV::List(tail),
            TermV::List(#[trigger] vs.subrange(k, vs.len() as int)),
            (fuel - 1) as nat,
        ) is Ok,
        spec_match(TermV::List(g(m)), TermV::List(vs.subrange(0, m)), (fuel - 1) as nat)
            == MatchR::Ok(Some(bm1)),
        spec_match(
            TermV::List(tail),
            TermV::List(vs.subrange(m, vs.len() as int)),
            (fuel - 1) as nat,
        ) == MatchR::Ok(Some(bm2)),
        forall|k: int|
            m < k <= vs.len() ==> !(spec_match(
                TermV::List(#[trigger] g(k)),
                TermV::List(vs.subrange(0, k)),
                (fuel - 1) as nat,
            ) matches Result::Ok(Some(_)) && spec_match(
                TermV::List(tail),
                TermV::List(vs.subrange(k, vs.len() as int)),
                (fuel - 1) as nat,
            ) matches Result::Ok(Some(_))),
    ensures
        spec_kleene(g(i0), tail, vs, best, next, fuel) == MatchR::Ok(
            if i0 <= m {
                Some(b_join(bm1, bm2))
            } else {
                best
            },
        ),
    decreases vs.len() + 2 - i0,
{
    if i0 > vs.len() {
        assert(spec_kleene(g(i0), tail, vs, best, next, fuel) == MatchR::Ok(best));
    } else {
        let fm1 = (fuel - 1) as nat;
        let r1 = spec_match(TermV::List(g(i0)), TermV::List(vs.subrange(0, i0)), fm1);
        let r2 = spec_match(TermV::List(tail), TermV::List(vs.subrange(i0, vs.len() as int)), fm1);
        let rc = spec_call(next, seq![TermV::List(g(i0))], Seq::empty(), fm1);
        assert(r1 is Ok);
        assert(r2 is Ok);
        assert(rc is Ok);
        let o1 = r1->Ok_0;
        let o2 = r2->Ok_0;
        let best2: Option<BindingsV> = if o1 is Some && o2 is Some {
            Some(b_join(o1->0, o2->0))
        } else {
            best
        };
        if i0 < vs.len() {
            assert(g(i0 + 1) == g(i0).push(rc->Ok_0));
        }
        let grown2 = g(i0).push(rc->Ok_0);
        assert(spec_kleene(g(i0), tail, vs, best, next, fuel) == spec_kleene(
            grown2,
            tail,
            vs,
            best2,
            next,
            fuel,
        ));
        if i0 == vs.len() {
            assert(grown2.len() > vs.len());
            assert(spec_kleene(grown2, tail, vs, best2, next, fuel) == MatchR::Ok(best2));
            if i0 == m {
                assert(o1 == Some(bm1));
                assert(o2 == Some(bm2));
                assert(best2 == Some(b_join(bm1, bm2)));
            } else {
                assert(m < i0);
                assert(best2 == best);
            }
        } else {
            assert(g(i0 + 1) == grown2);
            lemma_kleene_greedy(g, tail, vs, best2, next, fuel, i0 + 1, m, bm1, bm2);
            if i0 == m {
                assert(o1 == Some(bm1));
                assert(o2 == Some(bm2));
                assert(best2 == Some(b_join(bm1, bm2)));
                assert(i0 + 1 > m);
            } else if i0 > m {
                assert(!(r1 matches Result::Ok(Some(_)) && r2 matches Result::Ok(Some(_))));
                assert(best2 == best);
            }
        }
    }
}

/// A repetition heading a pattern list runs the greedy search: matching
/// starts from the repetition's seed sequence with no recorded success,
/// provided no singular element ends the pattern while values remain.
pub proof fn lemma_kleene_head_runs_search(
    ss: Seq<TermV>,
    next: FunV,
    rest: Seq<TermV>,
    vs: Seq<TermV>,
    fuel: nat,
)
    requires
        fuel >= 1,
        rest.len() > 0 ==> !(singular_of(rest.last()) && vs.len() > 0),
    ensures
        spec_match_list(
            seq![TermV::Kleene { start: Box::new(TermV::List(ss)), next }] + rest,
            vs,
            fuel,
        ) == spec_kleene(ss, rest, vs, None, next, fuel),
{
    let ps = seq![TermV::Kleene { start: Box::new(TermV::List(ss)), next }] + rest;
    assert(ps.len() == 1 + rest.len());
    assert(ps[0] == TermV::Kleene { start: Box::new(TermV::List(ss)), next });
    assert(!singular_of(ps[0]));
    if rest.len() > 0 {
        assert(ps.last() == rest.last());
    } else {
        assert(ps.last() == ps[0]);
    }
    assert(ps.drop_first() =~= rest);
}

/// A zero-width head consumes no position: unless the values themselves
/// begin with a zero-width marker, and no singular element ends the
/// pattern while values remain, the match proceeds on the remaining
/// pattern against the same, unconsumed values.
pub proof fn lemma_zero_width_consumes_nothing(
    x: TermV,
    rest: Seq<TermV>,
    vs: Seq<TermV>,
    fuel: nat,
)
    requires
        fuel >= 1,
        !(vs.len() > 0 && vs[0] is ZeroWidth),
        rest.len() > 0 ==> !(singular_of(rest.last()) && vs.len() > 0),
    ensures
        spec_match_list(seq![TermV::ZeroWidth(Box::new(x))] + rest, vs, fuel) == spec_match(
            TermV::List(rest),
            TermV::List(vs),
            (fuel - 1) as nat,
        ),
{
    let ps = seq![TermV::ZeroWidth(Box::new(x))] + rest;
    assert(ps.len() == 1 + rest.len());
    assert(ps[0] == TermV::ZeroWidth(Box::new(x)));
    assert(!singular_of(ps[0]));
    if rest.len() > 0 {
        assert(ps.last() == rest.last());
    } else {
        assert(ps.last() == ps[0]);
    }
    assert(ps.drop_first() =~= rest);
}

} // verus!
