//! The evaluator, function application, and the pattern matcher.
//!
//! Every function here carries an explicit depth counter: each recursive
//! step spends one unit, and exhaustion is reported as an error rather
//! than an uncontrolled crash.  Each function is proved to return exactly
//! what the fuel-indexed semantics says for that depth, and to leave the
//! scope stack as it found it on every exit path.

use vstd::prelude::*;

use crate::bindings::{b_join, lemma_join_empty_left, opt_bindings_view, Context};
use crate::convert::{opt_bindings_from_sexpr, opt_bindings_into_sexpr};
use crate::eq::sexpr_eq;
use crate::error::{ErrV, InterpreterError, InterpreterErrorInfo};
use crate::semantics::{
    param_ident, sigil_ident_of, spec_builtin, spec_call, spec_eval, spec_eval_args,
    spec_eval_dispatch, spec_kleene, spec_match, spec_match_list, spec_ptnacc_bare,
    spec_ptnacc_list, ArgsR, EvalR, MatchR,
};
use crate::term::{
    clone_bindings, clone_fun, clone_term, clone_terms, fun_view, lemma_seq_view_index,
    lemma_seq_view_len, seq_view, sub_terms, term_view, Bindings, BindingsV, Builtin, Fun, FunV,
    Ident, IdentV, Number, SExpr, TermV,
};

verus! {

/// Whether an executable evaluation outcome is the one the semantics
/// gives: the same value at the view level, or an error of the same kind.
pub open spec fn eval_matches(r: Result<SExpr, InterpreterError>, s: EvalR) -> bool {
    match s {
        Ok(t) => r matches Ok(v) && v@ == t,
        Err(e) => r matches Err(err) && err.info@ == e,
    }
}

/// Whether an executable match outcome is the one the semantics gives.
pub open spec fn match_matches(r: Result<Option<Bindings>, InterpreterError>, s: MatchR) -> bool {
    match s {
        Ok(ob) => r matches Ok(x) && opt_bindings_view(x) == ob,
        Err(e) => r matches Err(err) && err.info@ == e,
    }
}

/// A single-name identifier.
fn name_ident(name: &str) -> (r: Ident)
    ensures
        r@ == param_ident(name@),
{
    let mut names: Vec<String> = Vec::new();
    names.push(<String as vstd::string::StringExecFns>::from_str(name));
    let r = Ident::new(names, false);
    proof {
        assert(r@.names =~= seq![name@]);
        assert(r@ =~~= param_ident(name@));
    }
    r
}

/// The identifier under which a sigil's operator is looked up.  Only the
/// characters the language defines as sigils have one.
pub fn make_sigil_ident(sigil: char) -> (r: Ident)
    requires
        sigil_ident_of(sigil) is Some,
    ensures
        Some(r@) == sigil_ident_of(sigil),
{
    let name: &str = if sigil == '`' {
        "tick"
    } else if sigil == ',' {
        "comma"
    } else if sigil == '~' {
        "tilde"
    } else if sigil == '!' {
        "bang"
    } else if sigil == '@' {
        "at"
    } else if sigil == '^' {
        "carrot"
    } else if sigil == '&' {
        "amp"
    } else if sigil == '*' {
        "star"
    } else if sigil == '+' {
        "plus"
    } else if sigil == '=' {
        "eq"
    } else if sigil == '|' {
        "pike"
    } else if sigil == '\\' {
        "backslash"
    } else if sigil == ':' {
        "colon"
    } else if sigil == '<' {
        "left"
    } else if sigil == '>' {
        "right"
    } else {
        "bracket"
    };
    let mut names: Vec<String> = Vec::new();
    names.push(<String as vstd::string::StringExecFns>::from_str("#"));
    names.push(<String as vstd::string::StringExecFns>::from_str("sigil"));
    names.push(<String as vstd::string::StringExecFns>::from_str(name));
    let r = Ident::new(names, false);
    proof {
        assert(r@.names =~= seq!["#"@, "sigil"@, name@]);
        assert(r@ =~~= sigil_ident_of(sigil).unwrap());
    }
    r
}

/// Whether the character is one of the language's sigils.
pub fn sigil_defined(sigil: char) -> (r: bool)
    ensures
        r == (sigil_ident_of(sigil) is Some),
{
    sigil == '`' || sigil == ',' || sigil == '~' || sigil == '!' || sigil == '@' || sigil == '^'
        || sigil == '&' || sigil == '*' || sigil == '+' || sigil == '=' || sigil == '|'
        || sigil == '\\' || sigil == ':' || sigil == '<' || sigil == '>' || sigil == '['
}

/// The identifier of the numeric-addition builtin.
pub open spec fn add_ident() -> IdentV {
    IdentV { names: seq!["#"@, "add"@], tl_ns: false }
}

/// The closure wrapping the numeric-addition builtin: two places as the
/// parameter pattern, the builtin as the body, nothing captured.
pub open spec fn add_fun() -> FunV {
    FunV {
        body: Box::new(TermV::Operation(Builtin::Add)),
        args_ptn: Box::new(
            TermV::List(
                seq![TermV::Place(param_ident("0"@)), TermV::Place(param_ident("1"@))],
            ),
        ),
        closure: Seq::empty(),
    }
}

/// The base environment: one scope binding the addition builtin.
pub open spec fn base_env() -> Seq<BindingsV> {
    seq![seq![(add_ident(), TermV::Fun(add_fun()))]]
}

impl Context {
    /// The base environment, holding the builtin bindings that every
    /// evaluation session starts from.
    pub fn new() -> (r: Context)
        ensures
            r@ == base_env(),
    {
        let mut params: Vec<SExpr> = Vec::new();
        params.push(SExpr::Place(name_ident("0")));
        params.push(SExpr::Place(name_ident("1")));
        proof {
            lemma_seq_view_len(params@);
            lemma_seq_view_index(params@, 0);
            lemma_seq_view_index(params@, 1);
            assert(seq_view(params@) =~= seq![
                TermV::Place(param_ident("0"@)),
                TermV::Place(param_ident("1"@)),
            ]);
        }
        let f = Fun {
            body: Box::new(SExpr::Operation(Builtin::Add)),
            args_ptn: Box::new(SExpr::List(params)),
            closure: Box::new(Bindings::empty()),
        };
        proof {
            assert(f@ =~~= add_fun());
        }
        let mut names: Vec<String> = Vec::new();
        names.push(<String as vstd::string::StringExecFns>::from_str("#"));
        names.push(<String as vstd::string::StringExecFns>::from_str("add"));
        let id = Ident::new(names, false);
        proof {
            assert(id@.names =~= seq!["#"@, "add"@]);
            assert(id@ =~~= add_ident());
        }
        let mut entries: Vec<(Ident, SExpr)> = Vec::new();
        entries.push((id, SExpr::Fun(f)));
        let base = Bindings { entries };
        proof {
            crate::term::lemma_entries_view_len(base.entries@);
            crate::term::lemma_entries_view_index(base.entries@, 0);
            assert(base@ =~= seq![(add_ident(), TermV::Fun(add_fun()))]);
        }
        let mut scopes: Vec<Bindings> = Vec::new();
        scopes.push(base);
        let r = Context { scopes };
        proof {
            crate::bindings::lemma_env_view_len(r.scopes@);
            crate::bindings::lemma_env_view_index(r.scopes@, 0);
            assert(r@ =~= base_env());
        }
        r
    }
}

/// Runs a builtin against the environment, reading its parameters from
/// the scope stack.
fn run_builtin(b: Builtin, cxt: &Context) -> (r: Result<SExpr, InterpreterError>)
    ensures
        eval_matches(r, spec_builtin(b, cxt@)),
{
    match b {
        Builtin::Add => {
            let id0 = name_ident("0");
            let t0 = match cxt.lookup(&id0) {
                Some(t) => t,
                None => {
                    return Err(
                        InterpreterError::new(InterpreterErrorInfo::UnknownName(id0)),
                    );
                },
            };
            let id1 = name_ident("1");
            let t1 = match cxt.lookup(&id1) {
                Some(t) => t,
                None => {
                    return Err(
                        InterpreterError::new(InterpreterErrorInfo::UnknownName(id1)),
                    );
                },
            };
            let n0 = match t0 {
                SExpr::Number(n) => n,
                other => {
                    return Err(
                        InterpreterError::new(
                            InterpreterErrorInfo::NotA(crate::term::SExprKind::Number, other),
                        ),
                    );
                },
            };
            let n1 = match t1 {
                SExpr::Number(n) => n,
                other => {
                    return Err(
                        InterpreterError::new(
                            InterpreterErrorInfo::NotA(crate::term::SExprKind::Number, other),
                        ),
                    );
                },
            };
            let v = n0.value.checked_add(n1.value);
            let mn = n0.min.checked_add(n1.min);
            let mx = n0.max.checked_add(n1.max);
            match (v, (mn, mx)) {
                (Some(value), (Some(min), Some(max))) => Ok(
                    SExpr::Number(Number { value, min, max }),
                ),
                _ => Err(InterpreterError::new(InterpreterErrorInfo::ResourceExhausted)),
            }
        },
        Builtin::GrowAny => {
            let id0 = name_ident("0");
            let t0 = match cxt.lookup(&id0) {
                Some(t) => t,
                None => {
                    return Err(
                        InterpreterError::new(InterpreterErrorInfo::UnknownName(id0)),
                    );
                },
            };
            match t0 {
                SExpr::List(_) => Ok(SExpr::Place(name_ident("_"))),
                other => {
                    proof {
                        let ghost ov = other;
                        match ov {
                            SExpr::List(_) => {
                                assert(false);
                            },
                            _ => {},
                        }
                    }
                    Err(
                        InterpreterError::new(
                            InterpreterErrorInfo::NotA(crate::term::SExprKind::List, other),
                        ),
                    )
                },
            }
        },
    }
}

impl Fun {
    /// Applies the closure to already-evaluated arguments: the parameter
    /// pattern must match the argument list, and the body is evaluated
    /// under the captured bindings and the parameter bindings, both popped
    /// again on every exit path.
    pub fn call(&self, args: Vec<SExpr>, cxt: &mut Context, depth: u64) -> (r: Result<
        SExpr,
        InterpreterError,
    >)
        ensures
            eval_matches(r, spec_call(self@, seq_view(args@), old(cxt)@, depth as nat)),
            final(cxt)@ == old(cxt)@,
        decreases depth, 0int,
    {
        if depth == 0 {
            return Err(InterpreterError::new(InterpreterErrorInfo::ResourceExhausted));
        }
        let args_list = SExpr::List(clone_terms(&args));
        proof {
            assert(self@.args_ptn == Box::new(term_view(*self.args_ptn)));
        }
        match self.args_ptn.match_ptn(&args_list, depth - 1) {
            Err(e) => Err(e),
            Ok(None) => Err(
                InterpreterError::new(
                    InterpreterErrorInfo::NonMatchingArgs(clone_fun(self), args),
                ),
            ),
            Ok(Some(b)) => {
                let ghost env0 = cxt@;
                cxt.push_scope();
                cxt.add_bindings(&self.closure);
                proof {
                    lemma_join_empty_left(self.closure@);
                    assert(cxt@ =~= env0.push(self@.closure));
                }
                cxt.push_scope();
                cxt.add_bindings(&b);
                proof {
                    lemma_join_empty_left(b@);
                    assert(cxt@ =~= env0.push(self@.closure).push(b@));
                }
                let r = self.body.eval(cxt, depth - 1);
                proof {
                    assert(self@.body == Box::new(term_view(*self.body)));
                }
                cxt.pop_scope();
                cxt.pop_scope();
                proof {
                    assert(cxt@ =~= env0);
                }
                r
            },
        }
    }
}

impl SExpr {
    /// Reduces the term to a value in the environment, spending at most
    /// the given recursion depth.  The scope stack is unchanged on every
    /// exit path, and the result is exactly what the semantics gives for
    /// that depth as fuel.
    pub fn eval(&self, cxt: &mut Context, depth: u64) -> (r: Result<SExpr, InterpreterError>)
        ensures
            eval_matches(r, spec_eval(self@, old(cxt)@, depth as nat)),
            final(cxt)@ == old(cxt)@,
        decreases depth, 1int,
    {
        if depth == 0 {
            return Err(InterpreterError::new(InterpreterErrorInfo::ResourceExhausted));
        }
        let s = self.simplify();
        let ghost sv = s@;
        let ghost env = cxt@;
        let result = eval_dispatch(s, cxt, depth - 1);
        proof {
            assert(eval_matches(result, spec_eval_dispatch(sv, env, (depth - 1) as nat)));
        }
        let wrapped = match result {
            Ok(r0) => {
                let r1 = r0.simplify();
                match r1 {
                    SExpr::Never => Err(
                        InterpreterError::new(InterpreterErrorInfo::ReachedTheUnreachable),
                    ),
                    other => Ok(other),
                }
            },
            Err(e) => Err(e),
        };
        match wrapped {
            Ok(v) => Ok(v),
            Err(e) => Err(e.with_frame("while evaluating a term")),
        }
    }
}

/// The dispatch step of evaluation, on an already-simplified term.
fn eval_dispatch(s: SExpr, cxt: &mut Context, depth: u64) -> (r: Result<SExpr, InterpreterError>)
    ensures
        eval_matches(r, spec_eval_dispatch(s@, old(cxt)@, depth as nat)),
        final(cxt)@ == old(cxt)@,
    decreases depth, 4int,
{
    let ghost env = cxt@;
    match s {
        SExpr::List(ls) => {
            proof {
                lemma_seq_view_len(ls@);
            }
            if ls.len() == 0 {
                let empty_vec: Vec<SExpr> = Vec::new();
                proof {
                    assert(seq_view(ls@) =~= Seq::<TermV>::empty());
                    assert(seq_view(empty_vec@) =~= Seq::<TermV>::empty());
                }
                return Err(
                    InterpreterError::new(
                        InterpreterErrorInfo::CannotEvaluate(SExpr::List(empty_vec)),
                    ),
                );
            }
            proof {
                lemma_seq_view_index(ls@, 0);
            }
            let head = match ls[0].eval(cxt, depth) {
                Ok(h) => h,
                Err(e) => {
                    return Err(e);
                },
            };
            let f = match head {
                SExpr::Fun(f) => f,
                other => {
                    proof {
                        let ghost ov = other;
                        match ov {
                            SExpr::Fun(_) => {
                                assert(false);
                            },
                            _ => {},
                        }
                    }
                    return Err(
                        InterpreterError::new(
                            InterpreterErrorInfo::CannotCall(clone_term(&ls[0])),
                        ),
                    );
                },
            };
            let args = match eval_args(&ls, cxt, depth) {
                Ok(args) => args,
                Err(e) => {
                    return Err(e);
                },
            };
            f.call(args, cxt, depth)
        },
        SExpr::UnarySigilApp(sig, arg) => {
            let sig_term = SExpr::Sigil(sig);
            proof {
                assert(sig_term@ == TermV::Sigil(sig));
            }
            let head = match sig_term.eval(cxt, depth) {
                Ok(h) => h,
                Err(e) => {
                    return Err(e);
                },
            };
            let f = match head {
                SExpr::Fun(f) => f,
                other => {
                    proof {
                        let ghost ov = other;
                        match ov {
                            SExpr::Fun(_) => {
                                assert(false);
                            },
                            _ => {},
                        }
                    }
                    return Err(
                        InterpreterError::new(InterpreterErrorInfo::CannotCall(other)),
                    );
                },
            };
            let mut args: Vec<SExpr> = Vec::new();
            args.push(*arg);
            proof {
                lemma_seq_view_len(args@);
                lemma_seq_view_index(args@, 0);
                assert(seq_view(args@) =~= seq![*s@->UnarySigilApp_1]);
            }
            f.call(args, cxt, depth)
        },
        SExpr::Ident(id) => match cxt.lookup(&id) {
            Some(t) => Ok(t),
            None => Err(InterpreterError::new(InterpreterErrorInfo::UnknownName(id))),
        },
        SExpr::Operation(b) => run_builtin(b, cxt),
        SExpr::Sigil(c) => {
            if !sigil_defined(c) {
                return Err(InterpreterError::new(InterpreterErrorInfo::UndefinedSigil(c)));
            }
            let id = make_sigil_ident(c);
            match cxt.lookup(&id) {
                Some(t) => Ok(t),
                None => Err(InterpreterError::new(InterpreterErrorInfo::UndefinedSigil(c))),
            }
        },
        SExpr::Number(n) => Ok(SExpr::Number(n)),
        SExpr::Never => Err(
            InterpreterError::new(InterpreterErrorInfo::ReachedTheUnreachable),
        ),
        other => {
            proof {
                let ghost ov = other;
                match ov {
                    SExpr::List(_) => {
                        assert(false);
                    },
                    SExpr::UnarySigilApp(_, _) => {
                        assert(false);
                    },
                    SExpr::Ident(_) => {
                        assert(false);
                    },
                    SExpr::Operation(_) => {
                        assert(false);
                    },
                    SExpr::Sigil(_) => {
                        assert(false);
                    },
                    SExpr::Number(_) => {
                        assert(false);
                    },
                    SExpr::Never => {
                        assert(false);
                    },
                    _ => {},
                }
            }
            Err(InterpreterError::new(InterpreterErrorInfo::CannotEvaluate(other)))
        },
    }
}

/// Evaluates the argument elements of an application list, left to right.
fn eval_args(ls: &Vec<SExpr>, cxt: &mut Context, depth: u64) -> (r: Result<
    Vec<SExpr>,
    InterpreterError,
>)
    requires
        ls@.len() > 0,
    ensures
        final(cxt)@ == old(cxt)@,
        match r {
            Ok(args) => spec_eval_args(seq_view(ls@).drop_first(), old(cxt)@, depth as nat)
                == ArgsR::Ok(seq_view(args@)),
            Err(e) => spec_eval_args(seq_view(ls@).drop_first(), old(cxt)@, depth as nat)
                matches ArgsR::Err(ev) && e.info@ == ev,
        },
    decreases depth, 3int,
{
    let ghost env = cxt@;
    let ghost lsv = seq_view(ls@);
    proof {
        lemma_seq_view_len(ls@);
    }
    let mut args: Vec<SExpr> = Vec::new();
    let mut i: usize = 1;
    while i < ls.len()
        invariant
            1 <= i <= ls@.len(),
            lsv == seq_view(ls@),
            lsv.len() == ls@.len(),
            env == old(cxt)@,
            cxt@ == env,
            forall|ev: ErrV|
                spec_eval_args(lsv.subrange(i as int, lsv.len() as int), env, depth as nat)
                    == ArgsR::Err(ev) ==> spec_eval_args(lsv.drop_first(), env, depth as nat)
                    == ArgsR::Err(ev),
            forall|vs: Seq<TermV>|
                spec_eval_args(lsv.subrange(i as int, lsv.len() as int), env, depth as nat)
                    == ArgsR::Ok(vs) ==> spec_eval_args(lsv.drop_first(), env, depth as nat)
                    == ArgsR::Ok(seq_view(args@) + vs),
        decreases ls@.len() - i,
    {
        proof {
            lemma_seq_view_index(ls@, i as int);
        }
        let ghost tail = lsv.subrange(i as int, lsv.len() as int);
        proof {
            assert(tail[0] == lsv[i as int]);
            assert(tail.drop_first() =~= lsv.subrange(i as int + 1, lsv.len() as int));
        }
        match ls[i].eval(cxt, depth) {
            Ok(v) => {
                let ghost args_old = args@;
                let ghost vv = v@;
                args.push(v);
                proof {
                    crate::term::lemma_seq_view_push(args_old, args@.last());
                    assert(args_old.push(args@.last()) =~= args@);
                    assert(seq_view(args@) =~= seq_view(args_old).push(vv));
                    assert forall|vs: Seq<TermV>|
                        spec_eval_args(
                            lsv.subrange(i as int + 1, lsv.len() as int),
                            env,
                            depth as nat,
                        ) == ArgsR::Ok(vs) implies spec_eval_args(
                        lsv.drop_first(),
                        env,
                        depth as nat,
                    ) == ArgsR::Ok(seq_view(args@) + vs) by {
                        assert(spec_eval_args(tail, env, depth as nat) == ArgsR::Ok(
                            seq![vv] + vs,
                        ));
                        assert(seq_view(args_old) + (seq![vv] + vs) =~= seq_view(args@) + vs);
                    }
                }
            },
            Err(e) => {
                proof {
                    assert(spec_eval_args(tail, env, depth as nat) == ArgsR::Err(e.info@));
                }
                return Err(e);
            },
        }
        i += 1;
    }
    proof {
        assert(lsv.subrange(ls@.len() as int, lsv.len() as int) =~= Seq::<TermV>::empty());
        assert(spec_eval_args(lsv.subrange(ls@.len() as int, lsv.len() as int), env, depth as nat)
            == ArgsR::Ok(Seq::<TermV>::empty()));
        assert(seq_view(args@) + Seq::<TermV>::empty() =~= seq_view(args@));
    }
    Ok(args)
}

impl SExpr {
    /// Matches this term, read as a pattern, against another term:
    /// bindings on success, nothing on a non-match, a hard error on an
    /// internal fault or on exhaustion of the depth.  The result is
    /// exactly what the semantics gives for that depth as fuel.
    pub fn match_ptn(&self, expr: &SExpr, depth: u64) -> (r: Result<
        Option<Bindings>,
        InterpreterError,
    >)
        ensures
            match_matches(r, spec_match(self@, expr@, depth as nat)),
        decreases depth, 2int,
    {
        if depth == 0 {
            return Err(InterpreterError::new(InterpreterErrorInfo::ResourceExhausted));
        }
        let result: Result<Option<Bindings>, InterpreterError> = if self.matches_literally() {
            if sexpr_eq(self, expr) {
                Ok(Some(Bindings::empty()))
            } else {
                Ok(None)
            }
        } else {
            match (self, expr) {
                (SExpr::List(ps), SExpr::List(vs)) => match_list(ps, vs, depth),
                (SExpr::List(_), _) => {
                    proof {
                        let ghost ev = expr;
                        match ev {
                            SExpr::List(_) => {
                                assert(false);
                            },
                            _ => {},
                        }
                    }
                    Ok(None)
                },
                (SExpr::AtPtnTime(inner), _) => match &**inner {
                    SExpr::Fun(f) => {
                        proof {
                            assert(term_view(**inner) == TermV::Fun(fun_view(*f)));
                        }
                        let no_args: Vec<SExpr> = Vec::new();
                        proof {
                            assert(seq_view(no_args@) =~= Seq::<TermV>::empty());
                        }
                        let mut scratch = Context::empty();
                        match f.call(no_args, &mut scratch, depth - 1) {
                            Err(e) => Err(e),
                            Ok(p2) => p2.match_ptn(expr, depth - 1),
                        }
                    },
                    other => {
                        proof {
                            let ghost ov = other;
                            match ov {
                                SExpr::Fun(_) => {
                                    assert(false);
                                },
                                _ => {},
                            }
                            assert(!(term_view(**inner) is Fun));
                        }
                        Err(
                            InterpreterError::new(
                                InterpreterErrorInfo::CannotCall(clone_term(other)),
                            ),
                        )
                    },
                },
                (SExpr::Place(id), _) => Ok(Some(Bindings::of(id.clone(), expr))),
                (SExpr::PtnAcc { acc, init, pats }, _) => ptnacc_bare(acc, init, pats, expr, depth),
                (SExpr::UnarySigilApp(s1, a1), SExpr::UnarySigilApp(s2, a2)) => {
                    if *s1 == *s2 {
                        a1.match_ptn(a2, depth - 1)
                    } else {
                        Ok(None)
                    }
                },
                (SExpr::UnarySigilApp(_, _), _) => {
                    proof {
                        let ghost ev = expr;
                        match ev {
                            SExpr::UnarySigilApp(_, _) => {
                                assert(false);
                            },
                            _ => {},
                        }
                    }
                    Ok(None)
                },
                _ => {
                    proof {
                        let ghost pv = self;
                        match pv {
                            SExpr::List(_) => {
                                assert(false);
                            },
                            SExpr::AtPtnTime(_) => {
                                assert(false);
                            },
                            SExpr::Place(_) => {
                                assert(false);
                            },
                            SExpr::PtnAcc { .. } => {
                                assert(false);
                            },
                            SExpr::UnarySigilApp(_, _) => {
                                assert(false);
                            },
                            _ => {},
                        }
                    }
                    Err(InterpreterError::new(InterpreterErrorInfo::InternalFault))
                },
            }
        };
        match result {
            Ok(v) => Ok(v),
            Err(e) => Err(e.with_frame("while matching a pattern against a term")),
        }
    }
}

/// The whole pattern list with its head replaced by the given sub-pattern.
fn replace_head(ps: &Vec<SExpr>, p: &SExpr) -> (r: Vec<SExpr>)
    requires
        ps@.len() > 0,
    ensures
        seq_view(r@) == seq_view(ps@).update(0, p@),
{
    proof {
        lemma_seq_view_len(ps@);
    }
    let mut r = clone_terms(ps);
    let ghost r_mid = r@;
    r.set(0, clone_term(p));
    proof {
        lemma_seq_view_len(r@);
        lemma_seq_view_len(r_mid);
        assert forall|j: int| 0 <= j < r@.len() implies seq_view(r@)[j] == seq_view(ps@).update(
            0,
            p@,
        )[j] by {
            lemma_seq_view_index(r@, j);
            if j != 0 {
                lemma_seq_view_index(r_mid, j);
                lemma_seq_view_index(ps@, j);
            }
        }
        assert(seq_view(r@) =~= seq_view(ps@).update(0, p@));
    }
    r
}

/// The fold of a bare accumulator pattern over its sub-patterns.
fn ptnacc_bare(acc: &Fun, init: &Option<Bindings>, pats: &Vec<SExpr>, expr: &SExpr, depth: u64) -> (r:
    Result<Option<Bindings>, InterpreterError>)
    requires
        depth >= 1,
    ensures
        match_matches(
            r,
            spec_ptnacc_bare(
                acc@,
                opt_bindings_view(*init),
                seq_view(pats@),
                expr@,
                depth as nat,
            ),
        ),
    decreases depth, 1int,
{
    let ghost accv = acc@;
    let ghost patsv = seq_view(pats@);
    let ghost valv = expr@;
    let ghost depthn = depth as nat;
    proof {
        lemma_seq_view_len(pats@);
    }
    let mut run: Option<Bindings> = match init {
        Some(b) => Some(clone_bindings(b)),
        None => None,
    };
    let mut i: usize = 0;
    proof {
        assert(patsv.subrange(0, patsv.len() as int) =~= patsv);
    }
    while i < pats.len()
        invariant
            i <= pats@.len(),
            patsv == seq_view(pats@),
            patsv.len() == pats@.len(),
            depth >= 1,
            depthn == depth as nat,
            accv == acc@,
            valv == expr@,
            spec_ptnacc_bare(accv, opt_bindings_view(*init), patsv, valv, depthn)
                == spec_ptnacc_bare(
                accv,
                opt_bindings_view(run),
                patsv.subrange(i as int, patsv.len() as int),
                valv,
                depthn,
            ),
        decreases pats@.len() - i,
    {
        proof {
            lemma_seq_view_index(pats@, i as int);
        }
        let ghost remaining = patsv.subrange(i as int, patsv.len() as int);
        proof {
            assert(remaining[0] == patsv[i as int]);
            assert(remaining.drop_first() =~= patsv.subrange(i as int + 1, patsv.len() as int));
        }
        let o = match pats[i].match_ptn(expr, depth - 1) {
            Ok(o) => o,
            Err(e) => {
                return Err(e);
            },
        };
        let arg1 = opt_bindings_into_sexpr(&run);
        let arg2 = opt_bindings_into_sexpr(&o);
        let mut args: Vec<SExpr> = Vec::new();
        args.push(arg1);
        args.push(arg2);
        proof {
            lemma_seq_view_len(args@);
            lemma_seq_view_index(args@, 0);
            lemma_seq_view_index(args@, 1);
            assert(seq_view(args@) =~= seq![
                crate::convert::opt_bindings_to_term(opt_bindings_view(run)),
                crate::convert::opt_bindings_to_term(opt_bindings_view(o)),
            ]);
        }
        let mut scratch = Context::empty();
        let res = match acc.call(args, &mut scratch, depth - 1) {
            Ok(res) => res,
            Err(e) => {
                return Err(e);
            },
        };
        run = match opt_bindings_from_sexpr(&res) {
            Ok(run2) => run2,
            Err(e) => {
                return Err(e);
            },
        };
        i += 1;
    }
    proof {
        assert(patsv.subrange(pats@.len() as int, patsv.len() as int) =~= Seq::<TermV>::empty());
    }
    Ok(run)
}

/// The fold of an accumulator pattern standing at a list head.
fn ptnacc_list(
    acc: &Fun,
    init: &Option<Bindings>,
    pats: &Vec<SExpr>,
    ps: &Vec<SExpr>,
    vs: &Vec<SExpr>,
    depth: u64,
) -> (r: Result<Option<Bindings>, InterpreterError>)
    requires
        depth >= 1,
        ps@.len() > 0,
    ensures
        match_matches(
            r,
            spec_ptnacc_list(
                acc@,
                opt_bindings_view(*init),
                seq_view(pats@),
                seq_view(ps@),
                seq_view(vs@),
                depth as nat,
            ),
        ),
    decreases depth, 0int,
{
    let ghost accv = acc@;
    let ghost patsv = seq_view(pats@);
    let ghost psv = seq_view(ps@);
    let ghost vsv = seq_view(vs@);
    let ghost depthn = depth as nat;
    proof {
        lemma_seq_view_len(pats@);
        lemma_seq_view_len(ps@);
    }
    let mut run: Option<Bindings> = match init {
        Some(b) => Some(clone_bindings(b)),
        None => None,
    };
    let mut i: usize = 0;
    proof {
        assert(patsv.subrange(0, patsv.len() as int) =~= patsv);
    }
    while i < pats.len()
        invariant
            i <= pats@.len(),
            patsv == seq_view(pats@),
            patsv.len() == pats@.len(),
            psv == seq_view(ps@),
            vsv == seq_view(vs@),
            ps@.len() > 0,
            depth >= 1,
            depthn == depth as nat,
            accv == acc@,
            spec_ptnacc_list(accv, opt_bindings_view(*init), patsv, psv, vsv, depthn)
                == spec_ptnacc_list(
                accv,
                opt_bindings_view(run),
                patsv.subrange(i as int, patsv.len() as int),
                psv,
                vsv,
                depthn,
            ),
        decreases pats@.len() - i,
    {
        proof {
            lemma_seq_view_index(pats@, i as int);
        }
        let ghost remaining = patsv.subrange(i as int, patsv.len() as int);
        proof {
            assert(remaining[0] == patsv[i as int]);
            assert(remaining.drop_first() =~= patsv.subrange(i as int + 1, patsv.len() as int));
        }
        let repl = SExpr::List(replace_head(ps, &pats[i]));
        let whole = SExpr::List(clone_terms(vs));
        let o = match repl.match_ptn(&whole, depth - 1) {
            Ok(o) => o,
            Err(e) => {
                return Err(e);
            },
        };
        let arg1 = opt_bindings_into_sexpr(&run);
        let arg2 = opt_bindings_into_sexpr(&o);
        let mut args: Vec<SExpr> = Vec::new();
        args.push(arg1);
        args.push(arg2);
        proof {
            lemma_seq_view_len(args@);
            lemma_seq_view_index(args@, 0);
            lemma_seq_view_index(args@, 1);
            assert(seq_view(args@) =~= seq![
                crate::convert::opt_bindings_to_term(opt_bindings_view(run)),
                crate::convert::opt_bindings_to_term(opt_bindings_view(o)),
            ]);
        }
        let mut scratch = Context::empty();
        let res = match acc.call(args, &mut scratch, depth - 1) {
            Ok(res) => res,
            Err(e) => {
                return Err(e);
            },
        };
        run = match opt_bindings_from_sexpr(&res) {
            Ok(run2) => run2,
            Err(e) => {
                return Err(e);
            },
        };
        i += 1;
    }
    proof {
        assert(patsv.subrange(pats@.len() as int, patsv.len() as int) =~= Seq::<TermV>::empty());
    }
    Ok(run)
}

/// Matches a pattern sequence against a value sequence, the cases applying
/// in the matcher's order.
fn match_list(ps: &Vec<SExpr>, vs: &Vec<SExpr>, depth: u64) -> (r: Result<
    Option<Bindings>,
    InterpreterError,
>)
    ensures
        match_matches(r, spec_match_list(seq_view(ps@), seq_view(vs@), depth as nat)),
    decreases depth, 1int,
{
    if depth == 0 {
        return Err(InterpreterError::new(InterpreterErrorInfo::ResourceExhausted));
    }
    let ghost psv = seq_view(ps@);
    let ghost vsv = seq_view(vs@);
    let ghost depthn = depth as nat;
    proof {
        lemma_seq_view_len(ps@);
        lemma_seq_view_len(vs@);
    }
    if ps.len() == 0 && vs.len() == 0 {
        return Ok(Some(Bindings::empty()));
    }
    if ps.len() == 0 {
        return Ok(None);
    }
    proof {
        lemma_seq_view_index(ps@, 0);
        lemma_seq_view_index(ps@, ps@.len() - 1);
        if vs@.len() > 0 {
            lemma_seq_view_index(vs@, 0);
            lemma_seq_view_index(vs@, vs@.len() - 1);
        }
    }
    if vs.len() == 0 && ps[0].matches_singular() {
        return Ok(None);
    }
    if vs.len() > 0 && ps[ps.len() - 1].matches_singular() {
        let o1 = match ps[ps.len() - 1].match_ptn(&vs[vs.len() - 1], depth - 1) {
            Ok(o) => o,
            Err(e) => {
                return Err(e);
            },
        };
        let sub_p = SExpr::List(sub_terms(ps, 0, ps.len() - 1));
        let sub_v = SExpr::List(sub_terms(vs, 0, vs.len() - 1));
        proof {
            assert(psv.drop_last() =~= psv.subrange(0, ps@.len() - 1));
            assert(vsv.drop_last() =~= vsv.subrange(0, vs@.len() - 1));
            crate::term::lemma_seq_view_subrange(ps@, 0, ps@.len() - 1);
            crate::term::lemma_seq_view_subrange(vs@, 0, vs@.len() - 1);
        }
        let o2 = match sub_p.match_ptn(&sub_v, depth - 1) {
            Ok(o) => o,
            Err(e) => {
                return Err(e);
            },
        };
        return Ok(
            match (o1, o2) {
                (Some(b1), Some(b2)) => Some(b1.join(&b2)),
                _ => None,
            },
        );
    }
    if vs.len() > 0 && ps[0].matches_singular() {
        let o1 = match ps[0].match_ptn(&vs[0], depth - 1) {
            Ok(o) => o,
            Err(e) => {
                return Err(e);
            },
        };
        let sub_p = SExpr::List(sub_terms(ps, 1, ps.len()));
        let sub_v = SExpr::List(sub_terms(vs, 1, vs.len()));
        proof {
            assert(psv.drop_first() =~= psv.subrange(1, ps@.len() as int));
            assert(vsv.drop_first() =~= vsv.subrange(1, vs@.len() as int));
            crate::term::lemma_seq_view_subrange(ps@, 1, ps@.len() as int);
            crate::term::lemma_seq_view_subrange(vs@, 1, vs@.len() as int);
        }
        let o2 = match sub_p.match_ptn(&sub_v, depth - 1) {
            Ok(o) => o,
            Err(e) => {
                return Err(e);
            },
        };
        return Ok(
            match (o1, o2) {
                (Some(b1), Some(b2)) => Some(b1.join(&b2)),
                _ => None,
            },
        );
    }
    match &ps[0] {
        SExpr::ZeroWidth(pi) => {
            if vs.len() > 0 {
                let vs0_zw = matches!(&vs[0], SExpr::ZeroWidth(_));
                proof {
                    let ghost v0 = vs@[0];
                    match v0 {
                        SExpr::ZeroWidth(_) => {
                            assert(vs0_zw);
                        },
                        _ => {
                            assert(!vs0_zw);
                            assert(!(vsv[0] is ZeroWidth));
                        },
                    }
                }
                if vs0_zw {
                    match &vs[0] {
                        SExpr::ZeroWidth(vi) => {
                            let o1 = match pi.match_ptn(vi, depth - 1) {
                                Ok(o) => o,
                                Err(e) => {
                                    return Err(e);
                                },
                            };
                            let sub_p = SExpr::List(sub_terms(ps, 1, ps.len()));
                            let sub_v = SExpr::List(sub_terms(vs, 1, vs.len()));
                            proof {
                                assert(psv.drop_first() =~= psv.subrange(1, ps@.len() as int));
                                assert(vsv.drop_first() =~= vsv.subrange(1, vs@.len() as int));
                                crate::term::lemma_seq_view_subrange(ps@, 1, ps@.len() as int);
                                crate::term::lemma_seq_view_subrange(vs@, 1, vs@.len() as int);
                            }
                            let o2 = match sub_p.match_ptn(&sub_v, depth - 1) {
                                Ok(o) => o,
                                Err(e) => {
                                    return Err(e);
                                },
                            };
                            return Ok(
                                match (o1, o2) {
                                    (Some(b1), Some(b2)) => Some(b1.join(&b2)),
                                    _ => None,
                                },
                            );
                        },
                        _ => {
                            proof {
                                assert(false);
                            }
                        },
                    }
                }
            }
            let sub_p = SExpr::List(sub_terms(ps, 1, ps.len()));
            let whole_v = SExpr::List(clone_terms(vs));
            proof {
                assert(psv.drop_first() =~= psv.subrange(1, ps@.len() as int));
                crate::term::lemma_seq_view_subrange(ps@, 1, ps@.len() as int);
            }
            sub_p.match_ptn(&whole_v, depth - 1)
        },
        SExpr::Kleene { start, next } => {
            let ss = match &**start {
                SExpr::List(ss) => ss,
                other => {
                    proof {
                        let ghost ov = other;
                        match ov {
                            SExpr::List(_) => {
                                assert(false);
                            },
                            _ => {},
                        }
                        assert(!(term_view(**start) is List));
                        assert(psv[0] == term_view(ps@[0]));
                        assert(*psv[0]->Kleene_start == term_view(**start));
                    }
                    return Err(InterpreterError::new(InterpreterErrorInfo::InternalFault));
                },
            };
            let ghost tailv = psv.drop_first();
            let ghost nextv = next@;
            proof {
                lemma_seq_view_len(ss@);
            }
            let mut grown = clone_terms(ss);
            let mut best: Option<Bindings> = None;
            proof {
                lemma_seq_view_len(grown@);
                assert(term_view(**start) == TermV::List(seq_view(ss@)));
                assert(psv[0] == term_view(ps@[0]));
                assert(psv[0] is Kleene);
                assert(*psv[0]->Kleene_start == term_view(**start));
                assert(psv[0]->Kleene_next == nextv);
                assert(spec_match_list(psv, vsv, depthn) == spec_kleene(
                    seq_view(grown@),
                    tailv,
                    vsv,
                    opt_bindings_view(best),
                    nextv,
                    depthn,
                ));
            }
            while grown.len() <= vs.len()
                invariant
                    psv == seq_view(ps@),
                    vsv == seq_view(vs@),
                    psv.len() == ps@.len(),
                    vsv.len() == vs@.len(),
                    ps@.len() > 0,
                    tailv == psv.drop_first(),
                    nextv == next@,
                    depth >= 1,
                    depthn == depth as nat,
                    seq_view(grown@).len() == grown@.len(),
                    spec_kleene(
                        seq_view(grown@),
                        tailv,
                        vsv,
                        opt_bindings_view(best),
                        nextv,
                        depthn,
                    ) == spec_match_list(psv, vsv, depthn),
                decreases vs@.len() + 1 - grown@.len(),
            {
                let ghost grownv = seq_view(grown@);
                let o1 = match SExpr::List(clone_terms(&grown)).match_ptn(
                    &SExpr::List(sub_terms(vs, 0, grown.len())),
                    depth - 1,
                ) {
                    Ok(o) => o,
                    Err(e) => {
                        return Err(e);
                    },
                };
                let sub_p = SExpr::List(sub_terms(ps, 1, ps.len()));
                proof {
                    assert(psv.drop_first() =~= psv.subrange(1, ps@.len() as int));
                    crate::term::lemma_seq_view_subrange(ps@, 1, ps@.len() as int);
                }
                let o2 = match sub_p.match_ptn(
                    &SExpr::List(sub_terms(vs, grown.len(), vs.len())),
                    depth - 1,
                ) {
                    Ok(o) => o,
                    Err(e) => {
                        return Err(e);
                    },
                };
                let best2: Option<Bindings> = match (o1, o2) {
                    (Some(b1), Some(b2)) => Some(b1.join(&b2)),
                    _ => best,
                };
                let mut call_args: Vec<SExpr> = Vec::new();
                call_args.push(SExpr::List(clone_terms(&grown)));
                proof {
                    lemma_seq_view_len(call_args@);
                    lemma_seq_view_index(call_args@, 0);
                    assert(seq_view(call_args@) =~= seq![TermV::List(grownv)]);
                }
                let mut scratch = Context::empty();
                let g = match next.call(call_args, &mut scratch, depth - 1) {
                    Ok(g) => g,
                    Err(e) => {
                        return Err(e);
                    },
                };
                let ghost grown_old = grown@;
                grown.push(g);
                proof {
                    crate::term::lemma_seq_view_push(grown_old, grown@.last());
                    assert(grown_old.push(grown@.last()) =~= grown@);
                    lemma_seq_view_len(grown@);
                }
                best = best2;
            }
            return Ok(best);
        },
        SExpr::Consecutive(block) => {
            proof {
                lemma_seq_view_len(block@);
            }
            if vs.len() < block.len() {
                return Ok(None);
            }
            let o1 = match SExpr::List(clone_terms(block)).match_ptn(
                &SExpr::List(sub_terms(vs, 0, block.len())),
                depth - 1,
            ) {
                Ok(o) => o,
                Err(e) => {
                    return Err(e);
                },
            };
            let sub_p = SExpr::List(sub_terms(ps, 1, ps.len()));
            let sub_v = SExpr::List(sub_terms(vs, block.len(), vs.len()));
            proof {
                assert(psv.drop_first() =~= psv.subrange(1, ps@.len() as int));
                crate::term::lemma_seq_view_subrange(ps@, 1, ps@.len() as int);
            }
            let o2 = match sub_p.match_ptn(&sub_v, depth - 1) {
                Ok(o) => o,
                Err(e) => {
                    return Err(e);
                },
            };
            return Ok(
                match (o1, o2) {
                    (Some(b1), Some(b2)) => Some(b1.join(&b2)),
                    _ => None,
                },
            );
        },
        SExpr::PtnAcc { acc, init, pats } => {
            return ptnacc_list(acc, init, pats, ps, vs, depth);
        },
        other => {
            proof {
                let ghost ov = other;
                match ov {
                    SExpr::ZeroWidth(_) => {
                        assert(false);
                    },
                    SExpr::Kleene { .. } => {
                        assert(false);
                    },
                    SExpr::Consecutive(_) => {
                        assert(false);
                    },
                    SExpr::PtnAcc { .. } => {
                        assert(false);
                    },
                    _ => {},
                }
            }
            return Err(InterpreterError::new(InterpreterErrorInfo::InternalFault));
        },
    }
}

} // verus!
