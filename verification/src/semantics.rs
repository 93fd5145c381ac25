//! The mathematical semantics of evaluation and pattern matching.
//!
//! Evaluation of this language need not terminate, so the semantics is a
//! fuel-indexed family of functions: every recursive step spends one unit,
//! and a run that exhausts its fuel yields the resource-exhaustion error.
//! The executable evaluator and matcher carry an explicit depth counter
//! and are proved to return exactly what these functions say for that
//! depth.

use vstd::prelude::*;

use crate::bindings::{b_join, env_lookup};
use crate::classify::{literal_of, singular_of};
use crate::convert::{opt_bindings_of_term, opt_bindings_to_term};
use crate::eq::term_eq;
use crate::error::ErrV;
use crate::simplify::simp;
use crate::term::{BindingsV, Builtin, FunV, IdentV, NumberV, SExprKind, TermV};

verus! {

/// The outcome of evaluating a term.
pub type EvalR = Result<TermV, ErrV>;

/// The outcome of matching a pattern against a term: bindings on success,
/// `None` on a non-match, or a hard error.
pub type MatchR = Result<Option<BindingsV>, ErrV>;

/// The outcome of evaluating an argument list elementwise.
pub type ArgsR = Result<Seq<TermV>, ErrV>;

/// The name of the operator bound to a sigil, for the sigils the language
/// defines; any other character is not a sigil.
pub open spec fn sigil_name(c: char) -> Option<Seq<char>> {
    if c == '`' {
        Some("tick"@)
    } else if c == ',' {
        Some("comma"@)
    } else if c == '~' {
        Some("tilde"@)
    } else if c == '!' {
        Some("bang"@)
    } else if c == '@' {
        Some("at"@)
    } else if c == '^' {
        Some("carrot"@)
    } else if c == '&' {
        Some("amp"@)
    } else if c == '*' {
        Some("star"@)
    } else if c == '+' {
        Some("plus"@)
    } else if c == '=' {
        Some("eq"@)
    } else if c == '|' {
        Some("pike"@)
    } else if c == '\\' {
        Some("backslash"@)
    } else if c == ':' {
        Some("colon"@)
    } else if c == '<' {
        Some("left"@)
    } else if c == '>' {
        Some("right"@)
    } else if c == '[' {
        Some("bracket"@)
    } else {
        None
    }
}

/// The identifier under which a sigil's operator is looked up.
pub open spec fn sigil_ident_of(c: char) -> Option<IdentV> {
    match sigil_name(c) {
        Some(n) => Some(IdentV { names: seq!["#"@, "sigil"@, n], tl_ns: false }),
        None => None,
    }
}

/// The conventional name of a builtin's first parameter.
pub open spec fn param_ident(name: Seq<char>) -> IdentV {
    IdentV { names: seq![name], tl_ns: false }
}

/// The capture site a grown repetition appends: a place that matches
/// anything, bound under a throwaway name.
pub open spec fn any_place() -> TermV {
    TermV::Place(param_ident("_"@))
}

/// Whether a mathematical integer fits the numeric stand-in.
pub open spec fn fits_number(v: int) -> bool {
    i128::MIN <= v <= i128::MAX
}

/// What a builtin returns in an environment.  `Add` reads the parameters
/// "0" and "1" as numbers and yields their sum with the range tags added;
/// a sum outside the stand-in's range is reported as exhaustion.
/// `GrowAny` reads parameter "0" as the repetition sequence grown so far
/// and yields the element to append next: a match-anything place.
pub open spec fn spec_builtin(b: Builtin, env: Seq<BindingsV>) -> EvalR {
    match b {
        Builtin::Add => match env_lookup(env, param_ident("0"@)) {
            None => Err(ErrV::UnknownName(param_ident("0"@))),
            Some(t0) => match env_lookup(env, param_ident("1"@)) {
                None => Err(ErrV::UnknownName(param_ident("1"@))),
                Some(t1) => match (t0, t1) {
                    (TermV::Number(n0), TermV::Number(n1)) => {
                        let v = n0.value + n1.value;
                        let mn = n0.min + n1.min;
                        let mx = n0.max + n1.max;
                        if fits_number(v) && fits_number(mn) && fits_number(mx) {
                            Ok(TermV::Number(NumberV { value: v, min: mn, max: mx }))
                        } else {
                            Err(ErrV::ResourceExhausted)
                        }
                    },
                    (TermV::Number(_), t) => Err(ErrV::NotA(SExprKind::Number, t)),
                    (t, _) => Err(ErrV::NotA(SExprKind::Number, t)),
                },
            },
        },
        Builtin::GrowAny => match env_lookup(env, param_ident("0"@)) {
            None => Err(ErrV::UnknownName(param_ident("0"@))),
            Some(t0) => match t0 {
                TermV::List(_) => Ok(any_place()),
                t => Err(ErrV::NotA(SExprKind::List, t)),
            },
        },
    }
}

/// Error-then-error combination of two sub-match outcomes: the first error
/// wins; otherwise both must have succeeded and their bindings are joined.
pub open spec fn combine_matches(m1: MatchR, m2: MatchR) -> MatchR {
    match m1 {
        Err(e) => Err(e),
        Ok(o1) => match m2 {
            Err(e) => Err(e),
            Ok(o2) => match (o1, o2) {
                (Some(b1), Some(b2)) => Ok(Some(b_join(b1, b2))),
                _ => Ok(None),
            },
        },
    }
}

/// What evaluating a term in an environment yields, with the given fuel.
///
/// The term is simplified, dispatched on its variant, and the result is
/// simplified once more; a result that is the `Never` marker is reported
/// as the unreachable-state violation.
pub open spec fn spec_eval(t: TermV, env: Seq<BindingsV>, fuel: nat) -> EvalR
    decreases fuel, 0int, 0int,
{
    if fuel == 0 {
        Err(ErrV::ResourceExhausted)
    } else {
        let fm1 = (fuel - 1) as nat;
        match spec_eval_dispatch(simp(t), env, fm1) {
            Err(e) => Err(e),
            Ok(r0) => {
                let r1 = simp(r0);
                if r1 is Never {
                    Err(ErrV::ReachedTheUnreachable)
                } else {
                    Ok(r1)
                }
            },
        }
    }
}

/// The dispatch step of evaluation, on an already-simplified term, each
/// recursive step carrying the given fuel.
pub open spec fn spec_eval_dispatch(s: TermV, env: Seq<BindingsV>, fuel: nat) -> EvalR
    decreases fuel, 4int, 0int,
{
    match s {
        TermV::List(ls) => {
            if ls.len() == 0 {
                Err(ErrV::CannotEvaluate(TermV::List(Seq::empty())))
            } else {
                match spec_eval(ls[0], env, fuel) {
                    Err(e) => Err(e),
                    Ok(h) => match h {
                        TermV::Fun(f) => match spec_eval_args(ls.drop_first(), env, fuel) {
                            Err(e) => Err(e),
                            Ok(args) => spec_call(f, args, env, fuel),
                        },
                        _ => Err(ErrV::CannotCall(ls[0])),
                    },
                }
            }
        },
        TermV::UnarySigilApp(sig, arg) => match spec_eval(TermV::Sigil(sig), env, fuel) {
            Err(e) => Err(e),
            Ok(h) => match h {
                TermV::Fun(f) => spec_call(f, seq![*arg], env, fuel),
                _ => Err(ErrV::CannotCall(h)),
            },
        },
        TermV::Ident(id) => match env_lookup(env, id) {
            Some(v) => Ok(v),
            None => Err(ErrV::UnknownName(id)),
        },
        TermV::Operation(b) => spec_builtin(b, env),
        TermV::Sigil(c) => match sigil_ident_of(c) {
            None => Err(ErrV::UndefinedSigil(c)),
            Some(id) => match env_lookup(env, id) {
                Some(v) => Ok(v),
                None => Err(ErrV::UndefinedSigil(c)),
            },
        },
        TermV::Number(_) => Ok(s),
        TermV::Never => Err(ErrV::ReachedTheUnreachable),
        _ => Err(ErrV::CannotEvaluate(s)),
    }
}

/// What evaluating each element of an argument list yields, left to right,
/// the first error winning.
pub open spec fn spec_eval_args(ts: Seq<TermV>, env: Seq<BindingsV>, fuel: nat) -> ArgsR
    decreases fuel, 3int, ts.len(),
{
    if ts.len() == 0 {
        Ok(Seq::empty())
    } else {
        match spec_eval(ts[0], env, fuel) {
            Err(e) => Err(e),
            Ok(v) => match spec_eval_args(ts.drop_first(), env, fuel) {
                Err(e) => Err(e),
                Ok(vs) => Ok(seq![v] + vs),
            },
        }
    }
}

/// What applying a closure to already-evaluated arguments yields: the
/// parameter pattern must match the argument list, and the body is then
/// evaluated under the caller's scopes extended with the closure's
/// captured bindings and the parameter bindings, innermost last.
pub open spec fn spec_call(f: FunV, args: Seq<TermV>, env: Seq<BindingsV>, fuel: nat) -> EvalR
    decreases fuel, 0int, 0int,
{
    if fuel == 0 {
        Err(ErrV::ResourceExhausted)
    } else {
        let fm1 = (fuel - 1) as nat;
        match spec_match(*f.args_ptn, TermV::List(args), fm1) {
            Err(e) => Err(e),
            Ok(None) => Err(ErrV::NonMatchingArgs(f, args)),
            Ok(Some(b)) => spec_eval(*f.body, env.push(f.closure).push(b), fm1),
        }
    }
}

/// What matching a pattern against a term yields, with the given fuel.
///
/// A literal pattern succeeds with empty bindings exactly on a
/// structurally equal term.  Lists decompose elementwise; a deferred
/// pattern is obtained by a zero-argument call at match time; a place
/// always binds; a bare fold runs over its sub-patterns; unary sigil
/// applications match variant-wise.  Any remaining pairing is an
/// interpreter-invariant violation, reported as the internal fault.
pub open spec fn spec_match(pat: TermV, val: TermV, fuel: nat) -> MatchR
    decreases fuel, 2int, 0int,
{
    if fuel == 0 {
        Err(ErrV::ResourceExhausted)
    } else {
        let fm1 = (fuel - 1) as nat;
        if literal_of(pat) {
            Ok(
                if term_eq(pat, val) {
                    Some(Seq::empty())
                } else {
                    None
                },
            )
        } else {
            match (pat, val) {
                (TermV::List(ps), TermV::List(vs)) => spec_match_list(ps, vs, fuel),
                (TermV::List(_), _) => Ok(None),
                (TermV::AtPtnTime(inner), _) => match *inner {
                    TermV::Fun(f) => match spec_call(f, Seq::empty(), Seq::empty(), fm1) {
                        Err(e) => Err(e),
                        Ok(p2) => spec_match(p2, val, fm1),
                    },
                    _ => Err(ErrV::CannotCall(*inner)),
                },
                (TermV::Place(id), _) => Ok(Some(seq![(id, val)])),
                (TermV::PtnAcc { acc, init, pats }, _) => spec_ptnacc_bare(
                    acc,
                    init,
                    pats,
                    val,
                    fuel,
                ),
                (TermV::UnarySigilApp(s1, a1), TermV::UnarySigilApp(s2, a2)) => if s1 == s2 {
                    spec_match(*a1, *a2, fm1)
                } else {
                    Ok(None)
                },
                (TermV::UnarySigilApp(_, _), _) => Ok(None),
                _ => Err(ErrV::InternalFault),
            }
        }
    }
}

/// What matching a pattern sequence against a value sequence yields.  The
/// cases apply in order: empty against empty succeeds; an exhausted
/// pattern fails on leftover values; a singular head needs a value; a
/// singular last (then first) element is peeled off and the remainders
/// combined; zero-width heads consume a position only against a zero-width
/// value; a repetition searches greedily; a block requires its exact
/// length; a fold head folds over its sub-patterns; any other head shape
/// is an internal fault.
pub open spec fn spec_match_list(ps: Seq<TermV>, vs: Seq<TermV>, fuel: nat) -> MatchR
    decreases fuel, 1int, 0int,
{
    if fuel == 0 {
        Err(ErrV::ResourceExhausted)
    } else {
        let fm1 = (fuel - 1) as nat;
        if ps.len() == 0 && vs.len() == 0 {
            Ok(Some(Seq::empty()))
        } else if ps.len() == 0 {
            Ok(None)
        } else if singular_of(ps[0]) && vs.len() == 0 {
            Ok(None)
        } else if singular_of(ps.last()) && vs.len() > 0 {
            combine_matches(
                spec_match(ps.last(), vs.last(), fm1),
                spec_match(TermV::List(ps.drop_last()), TermV::List(vs.drop_last()), fm1),
            )
        } else if singular_of(ps[0]) && vs.len() > 0 {
            combine_matches(
                spec_match(ps[0], vs[0], fm1),
                spec_match(TermV::List(ps.drop_first()), TermV::List(vs.drop_first()), fm1),
            )
        } else if ps[0] is ZeroWidth && vs.len() > 0 && vs[0] is ZeroWidth {
            combine_matches(
                spec_match(*ps[0]->ZeroWidth_0, *vs[0]->ZeroWidth_0, fm1),
                spec_match(TermV::List(ps.drop_first()), TermV::List(vs.drop_first()), fm1),
            )
        } else if ps[0] is ZeroWidth {
            spec_match(TermV::List(ps.drop_first()), TermV::List(vs), fm1)
        } else if ps[0] is Kleene {
            match *ps[0]->Kleene_start {
                TermV::List(ss) => spec_kleene(
                    ss,
                    ps.drop_first(),
                    vs,
                    None,
                    ps[0]->Kleene_next,
                    fuel,
                ),
                _ => Err(ErrV::InternalFault),
            }
        } else if ps[0] is Consecutive {
            let block = ps[0]->Consecutive_0;
            if vs.len() < block.len() {
                Ok(None)
            } else {
                combine_matches(
                    spec_match(
                        TermV::List(block),
                        TermV::List(vs.subrange(0, block.len() as int)),
                        fm1,
                    ),
                    spec_match(
                        TermV::List(ps.drop_first()),
                        TermV::List(vs.subrange(block.len() as int, vs.len() as int)),
                        fm1,
                    ),
                )
            }
        } else if ps[0] is PtnAcc {
            spec_ptnacc_list(
                ps[0]->PtnAcc_acc,
                ps[0]->PtnAcc_init,
                ps[0]->PtnAcc_pats,
                ps,
                vs,
                fuel,
            )
        } else {
            Err(ErrV::InternalFault)
        }
    }
}

/// The greedy repetition search.  With the candidate repeated-pattern
/// sequence grown so far, each count in turn attempts the grown prefix
/// against that many values and the pattern tail against the rest; a
/// double success overwrites the best result; the sequence is then grown
/// by one more element by calling the step function, and the search ends
/// past the value count, yielding the last recorded success or failure.
pub open spec fn spec_kleene(
    grown: Seq<TermV>,
    tail: Seq<TermV>,
    vs: Seq<TermV>,
    best: Option<BindingsV>,
    next: FunV,
    fuel: nat,
) -> MatchR
    decreases fuel, 0int, vs.len() + 1 - grown.len(),
{
    if fuel == 0 {
        Err(ErrV::ResourceExhausted)
    } else if grown.len() > vs.len() {
        Ok(best)
    } else {
        let fm1 = (fuel - 1) as nat;
        let i = grown.len() as int;
        match spec_match(TermV::List(grown), TermV::List(vs.subrange(0, i)), fm1) {
            Err(e) => Err(e),
            Ok(o1) => match spec_match(
                TermV::List(tail),
                TermV::List(vs.subrange(i, vs.len() as int)),
                fm1,
            ) {
                Err(e) => Err(e),
                Ok(o2) => {
                    let best2 = match (o1, o2) {
                        (Some(b1), Some(b2)) => Some(b_join(b1, b2)),
                        _ => best,
                    };
                    match spec_call(next, seq![TermV::List(grown)], Seq::empty(), fm1) {
                        Err(e) => Err(e),
                        Ok(g) => spec_kleene(grown.push(g), tail, vs, best2, next, fuel),
                    }
                },
            },
        }
    }
}

/// The fold of an accumulator pattern standing in a list head: for each
/// sub-pattern in turn, the whole pattern list with its head replaced by
/// that sub-pattern is matched against the values, and the user function
/// combines the running optional bindings with that outcome, through the
/// term encoding of optional binding sets.
pub open spec fn spec_ptnacc_list(
    acc: FunV,
    run: Option<BindingsV>,
    pats: Seq<TermV>,
    ps: Seq<TermV>,
    vs: Seq<TermV>,
    fuel: nat,
) -> MatchR
    decreases fuel, 0int, pats.len(),
{
    if pats.len() == 0 {
        Ok(run)
    } else if fuel == 0 {
        Err(ErrV::ResourceExhausted)
    } else {
        let fm1 = (fuel - 1) as nat;
        match spec_match(TermV::List(ps.update(0, pats[0])), TermV::List(vs), fm1) {
            Err(e) => Err(e),
            Ok(o) => match spec_call(
                acc,
                seq![opt_bindings_to_term(run), opt_bindings_to_term(o)],
                Seq::empty(),
                fm1,
            ) {
                Err(e) => Err(e),
                Ok(res) => match opt_bindings_of_term(res) {
                    Err(e) => Err(e),
                    Ok(run2) => spec_ptnacc_list(acc, run2, pats.drop_first(), ps, vs, fuel),
                },
            },
        }
    }
}

/// The fold of a bare accumulator pattern: as in the list case, but each
/// sub-pattern is matched directly against the one term.
pub open spec fn spec_ptnacc_bare(
    acc: FunV,
    run: Option<BindingsV>,
    pats: Seq<TermV>,
    val: TermV,
    fuel: nat,
) -> MatchR
    decreases fuel, 1int, pats.len(),
{
    if pats.len() == 0 {
        Ok(run)
    } else if fuel == 0 {
        Err(ErrV::ResourceExhausted)
    } else {
        let fm1 = (fuel - 1) as nat;
        match spec_match(pats[0], val, fm1) {
            Err(e) => Err(e),
            Ok(o) => match spec_call(
                acc,
                seq![opt_bindings_to_term(run), opt_bindings_to_term(o)],
                Seq::empty(),
                fm1,
            ) {
                Err(e) => Err(e),
                Ok(res) => match opt_bindings_of_term(res) {
                    Err(e) => Err(e),
                    Ok(run2) => spec_ptnacc_bare(acc, run2, pats.drop_first(), val, fuel),
                },
            },
        }
    }
}

} // verus!
