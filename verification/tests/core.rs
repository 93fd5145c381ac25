use patter::bindings::Context;
use patter::convert::string_into_sexpr;
use patter::error::InterpreterErrorInfo;
use patter::term::Bindings;
use patter::{Builtin, Fun, Ident, Number, SExpr, SExprKind};

const DEPTH: u64 = 100;

fn ident(name: &str) -> Ident {
    Ident::new(vec![name.to_string()], false)
}

fn path_ident(names: &[&str]) -> Ident {
    Ident::new(names.iter().map(|n| n.to_string()).collect(), false)
}

fn num(n: i128) -> SExpr {
    SExpr::Number(Number::of_value(n))
}

fn add_ident_term() -> SExpr {
    SExpr::Ident(path_ident(&["#", "add"]))
}

fn num_value(e: &SExpr) -> i128 {
    match e {
        SExpr::Number(n) => n.value,
        other => panic!("not a number: {:?}", other),
    }
}

fn grow_any_fun() -> Fun {
    Fun {
        body: Box::new(SExpr::Operation(Builtin::GrowAny)),
        args_ptn: Box::new(SExpr::List(vec![SExpr::Place(ident("0"))])),
        closure: Box::new(Bindings::empty()),
    }
}

fn kleene_any() -> SExpr {
    SExpr::Kleene { start: Box::new(SExpr::List(vec![])), next: grow_any_fun() }
}

#[test]
fn never_panics() {
    let mut cxt = Context::new();
    cxt.push_scope();
    cxt.add_bindings(&Bindings::of(ident("never"), &SExpr::Never));
    let err = SExpr::Ident(ident("never")).eval(&mut cxt, DEPTH).err().unwrap();
    assert_eq!(err.info, InterpreterErrorInfo::ReachedTheUnreachable);
}

#[test]
fn match_ptn_bindings() {
    let left = SExpr::List(vec![SExpr::Ident(ident("a")), num(1)]);
    let right = SExpr::List(vec![SExpr::Ident(ident("b")), num(2)]);
    assert_eq!(left.match_ptn(&right, DEPTH).unwrap(), None);
}

#[test]
fn convert_bindings() {
    let encoded = SExpr::List(vec![SExpr::List(vec![
        SExpr::UnarySigilApp(':', Box::new(SExpr::Ident(ident("foo")))),
        num(4),
    ])]);
    assert_eq!(
        Bindings::from_sexpr(encoded).unwrap(),
        Bindings::of(ident("foo"), &num(4)),
    );
}

#[test]
fn context() {
    let _ = Context::new();
}

#[test]
fn lone_number() {
    let mut cxt = Context::new();
    assert_eq!(num(5).eval(&mut cxt, DEPTH).unwrap(), num(5));
}

#[test]
fn one_plus_one() {
    let mut cxt = Context::new();
    let call = SExpr::List(vec![add_ident_term(), num(1), num(1)]);
    assert_eq!(call.eval(&mut cxt, DEPTH).unwrap(), num(2));
}

#[test]
fn nested_addition() {
    let mut cxt = Context::new();
    let inner = SExpr::List(vec![add_ident_term(), num(2), num(3)]);
    let call = SExpr::List(vec![add_ident_term(), num(1), inner]);
    assert_eq!(call.eval(&mut cxt, DEPTH).unwrap(), num(6));
}

#[test]
fn empty_list_cannot_evaluate() {
    let mut cxt = Context::new();
    let err = SExpr::List(vec![]).eval(&mut cxt, DEPTH).err().unwrap();
    assert_eq!(err.info, InterpreterErrorInfo::CannotEvaluate(SExpr::List(vec![])));
}

#[test]
fn lambda_application() {
    let mut cxt = Context::new();
    let body = SExpr::List(vec![add_ident_term(), SExpr::Ident(ident("a")), num(1)]);
    let lambda = Fun {
        body: Box::new(body),
        args_ptn: Box::new(SExpr::List(vec![SExpr::Place(ident("a"))])),
        closure: Box::new(Bindings::empty()),
    };
    assert_eq!(lambda.call(vec![num(1)], &mut cxt, DEPTH).unwrap(), num(2));
}

#[test]
fn empty_matches_empty() {
    let r = SExpr::List(vec![]).match_ptn(&SExpr::List(vec![]), DEPTH).unwrap();
    let b = r.expect("empty lists should match");
    assert_eq!(b, Bindings::empty());
}

#[test]
fn literal_match_equal() {
    let p = SExpr::List(vec![SExpr::Ident(ident("x")), num(3)]);
    let t = SExpr::List(vec![SExpr::Ident(ident("x")), num(3)]);
    assert_eq!(p.match_ptn(&t, DEPTH).unwrap(), Some(Bindings::empty()));
}

#[test]
fn place_binds_whole_term() {
    let p = SExpr::Place(ident("slot"));
    let t = num(9);
    let b = p.match_ptn(&t, DEPTH).unwrap().unwrap();
    assert_eq!(b.lookup(&ident("slot")).map(|e| num_value(&e)), Some(9));
}

#[test]
fn kleene_binds_trailing_place() {
    let pattern = SExpr::List(vec![kleene_any(), SExpr::Place(ident("foo"))]);
    let value = SExpr::List(vec![num(1), num(2), num(3), num(4)]);
    let b = pattern.match_ptn(&value, DEPTH).unwrap().expect("pattern should match");
    assert_eq!(b.lookup(&ident("foo")).map(|e| num_value(&e)), Some(4));
}

#[test]
fn kleene_alone_consumes_everything() {
    let pattern = SExpr::List(vec![kleene_any()]);
    let value = SExpr::List(vec![num(1), num(2), num(3)]);
    assert!(pattern.match_ptn(&value, DEPTH).unwrap().is_some());
}

#[test]
fn consecutive_matches_exact_block() {
    let pattern = SExpr::List(vec![SExpr::Consecutive(vec![
        SExpr::Ident(ident("foo")),
        SExpr::Ident(ident("bar")),
    ])]);
    let value = SExpr::List(vec![SExpr::Ident(ident("foo")), SExpr::Ident(ident("bar"))]);
    assert_eq!(pattern.match_ptn(&value, DEPTH).unwrap(), Some(Bindings::empty()));
}

#[test]
fn consecutive_fails_on_short_value() {
    let pattern = SExpr::List(vec![SExpr::Consecutive(vec![
        SExpr::Ident(ident("foo")),
        SExpr::Ident(ident("bar")),
    ])]);
    let value = SExpr::List(vec![SExpr::Ident(ident("foo"))]);
    assert_eq!(pattern.match_ptn(&value, DEPTH).unwrap(), None);
}

#[test]
fn zero_width_consumes_no_position() {
    let pattern = SExpr::List(vec![SExpr::ZeroWidth(Box::new(SExpr::Ident(ident("mark"))))]);
    let value = SExpr::List(vec![]);
    assert_eq!(pattern.match_ptn(&value, DEPTH).unwrap(), Some(Bindings::empty()));
}

#[test]
fn zero_width_pairs_with_zero_width() {
    let pattern = SExpr::List(vec![SExpr::ZeroWidth(Box::new(SExpr::Ident(ident("mark"))))]);
    let value = SExpr::List(vec![SExpr::ZeroWidth(Box::new(SExpr::Ident(ident("mark"))))]);
    assert_eq!(pattern.match_ptn(&value, DEPTH).unwrap(), Some(Bindings::empty()));
}

#[test]
fn functions_never_equal() {
    let f = || SExpr::Fun(Fun {
        body: Box::new(num(1)),
        args_ptn: Box::new(SExpr::List(vec![])),
        closure: Box::new(Bindings::empty()),
    });
    assert!(f() != f());
    let g = f();
    assert!(g != g);
}

#[test]
fn simplify_flattens_spread() {
    let t = SExpr::List(vec![SExpr::Spread(vec![num(1), num(2)]), num(3)]);
    let once = t.simplify();
    assert_eq!(once, SExpr::List(vec![num(1), num(2), num(3)]));
    assert_eq!(once.simplify(), SExpr::List(vec![num(1), num(2), num(3)]));
}

#[test]
fn simplify_keeps_plain_lists() {
    let t = SExpr::List(vec![num(1), SExpr::List(vec![num(2)])]);
    assert_eq!(t.simplify(), SExpr::List(vec![num(1), SExpr::List(vec![num(2)])]));
}

#[test]
fn join_empty_is_identity() {
    let b = Bindings::of(ident("k"), &num(7));
    assert_eq!(Bindings::empty().join(&b), b);
}

#[test]
fn join_right_wins_on_shared_key() {
    let a = Bindings::of(ident("k"), &num(1));
    let b = Bindings::of(ident("k"), &num(2));
    let joined = a.join(&b);
    assert_eq!(joined.lookup(&ident("k")).map(|e| num_value(&e)), Some(2));
}

#[test]
fn intersect_requires_both() {
    let a = Bindings::of(ident("k"), &num(1));
    assert!(Bindings::intersect(Some(a), None).is_none());
    assert!(Bindings::intersect(None, Some(Bindings::empty())).is_none());
    let c = Bindings::intersect(Some(Bindings::of(ident("x"), &num(1))), Some(Bindings::empty()));
    assert!(c.is_some());
}

#[test]
fn unknown_name_error() {
    let mut cxt = Context::new();
    let err = SExpr::Ident(ident("missing")).eval(&mut cxt, DEPTH).err().unwrap();
    assert_eq!(err.info, InterpreterErrorInfo::UnknownName(ident("missing")));
}

#[test]
fn undefined_sigil_error() {
    let mut cxt = Context::new();
    let err = SExpr::Sigil('`').eval(&mut cxt, DEPTH).err().unwrap();
    assert_eq!(err.info, InterpreterErrorInfo::UndefinedSigil('`'));
}

#[test]
fn cannot_call_error() {
    let mut cxt = Context::new();
    let call = SExpr::List(vec![num(1), num(2)]);
    let err = call.eval(&mut cxt, DEPTH).err().unwrap();
    assert_eq!(err.info, InterpreterErrorInfo::CannotCall(num(1)));
}

#[test]
fn non_matching_args_error() {
    let mut cxt = Context::new();
    let call = SExpr::List(vec![add_ident_term(), num(1), num(2), num(3)]);
    let err = call.eval(&mut cxt, DEPTH).err().unwrap();
    assert!(matches!(err.info, InterpreterErrorInfo::NonMatchingArgs(_, _)));
}

#[test]
fn not_a_number_error() {
    let mut cxt = Context::new();
    let add = match cxt.lookup(&path_ident(&["#", "add"])).unwrap() {
        SExpr::Fun(f) => f,
        other => panic!("expected the addition builtin, got {:?}", other),
    };
    let err = add.call(vec![num(1), SExpr::List(vec![])], &mut cxt, DEPTH).err().unwrap();
    assert!(matches!(err.info, InterpreterErrorInfo::NotA(SExprKind::Number, _)));
}

#[test]
fn depth_exhaustion_error() {
    let mut cxt = Context::new();
    let err = num(1).eval(&mut cxt, 0).err().unwrap();
    assert_eq!(err.info, InterpreterErrorInfo::ResourceExhausted);
}

#[test]
fn convert_bindings_rejects_non_list() {
    let err = Bindings::from_sexpr(num(1)).err().unwrap();
    assert_eq!(err.info, InterpreterErrorInfo::CannotConvert(num(1)));
}

#[test]
fn spread_head_is_internal_fault() {
    let pattern = SExpr::List(vec![SExpr::Spread(vec![])]);
    let value = SExpr::List(vec![num(1)]);
    let err = pattern.match_ptn(&value, DEPTH).err().unwrap();
    assert_eq!(err.info, InterpreterErrorInfo::InternalFault);
}

#[test]
fn classification_of_variants() {
    assert!(num(1).matches_literally());
    assert!(SExpr::Ident(ident("x")).matches_literally());
    assert!(!SExpr::Place(ident("x")).matches_literally());
    assert!(!SExpr::List(vec![SExpr::Place(ident("x"))]).matches_literally());
    assert!(SExpr::List(vec![num(1)]).matches_literally());
    assert!(SExpr::Place(ident("x")).matches_singular());
    assert!(!kleene_any().matches_singular());
    assert!(!SExpr::Consecutive(vec![]).matches_singular());
    assert!(SExpr::PtnAcc {
        acc: grow_any_fun(),
        init: None,
        pats: vec![SExpr::Place(ident("x"))],
    }
    .matches_singular());
    assert!(!SExpr::PtnAcc { acc: grow_any_fun(), init: None, pats: vec![kleene_any()] }
        .matches_singular());
}

#[test]
fn kind_reports_variant() {
    assert_eq!(num(1).kind(), SExprKind::Number);
    assert_eq!(SExpr::Never.kind(), SExprKind::Never);
    assert_eq!(kleene_any().kind(), SExprKind::Kleene);
}

#[test]
fn accessors_pick_payloads() {
    assert_eq!(num(3).as_number().map(|n| n.value), Some(3));
    assert!(num(3).as_ident().is_none());
    assert_eq!(SExpr::Sigil('`').as_sigil(), Some('`'));
    assert_eq!(SExpr::List(vec![num(1)]).as_list().map(|v| v.len()), Some(1));
    assert!(SExpr::Fun(grow_any_fun()).as_fun().is_some());
    let solid = SExpr::UnarySigilApp(':', Box::new(SExpr::Ident(ident("foo"))));
    assert_eq!(solid.as_solidified(), Some(SExpr::Ident(ident("foo"))));
    assert!(SExpr::UnarySigilApp('`', Box::new(num(1))).as_solidified().is_none());
}

#[test]
fn referenced_idents_gathers_names() {
    let t = SExpr::UnarySigilApp('`', Box::new(SExpr::Ident(ident("a"))));
    let found = t.referenced_idents();
    assert_eq!(found.len(), 2);
    assert!(found.contains(&path_ident(&["#", "sigil", "tick"])));
    assert!(found.contains(&ident("a")));
}

#[test]
fn referenced_idents_dedups() {
    let t = SExpr::List(vec![SExpr::Ident(ident("a")), SExpr::Ident(ident("a"))]);
    let found = t.referenced_idents();
    assert_eq!(found.len(), 1);
    assert_eq!(found[0], ident("a"));
}

#[test]
fn string_encodes_clusters() {
    let t = string_into_sexpr("ab");
    let clusters = match t {
        SExpr::UnarySigilApp('[', inner) => match *inner {
            SExpr::List(cs) => cs,
            other => panic!("expected a list, got {:?}", other),
        },
        other => panic!("expected a bracket application, got {:?}", other),
    };
    assert_eq!(clusters.len(), 2);
    let codes: Vec<i128> = clusters
        .iter()
        .map(|c| match c {
            SExpr::UnarySigilApp('[', inner) => match &**inner {
                SExpr::List(elems) => num_value(&elems[0]),
                other => panic!("expected a list, got {:?}", other),
            },
            other => panic!("expected a bracket application, got {:?}", other),
        })
        .collect();
    assert_eq!(codes, vec![97, 98]);
}

#[test]
fn char_encodes_code_point() {
    let t = patter::convert::char_into_sexpr('a');
    assert_eq!(num_value(&t), 97);
}

#[test]
fn unary_sigil_app_matches_by_sigil() {
    let p = SExpr::UnarySigilApp(':', Box::new(SExpr::Place(ident("x"))));
    let t = SExpr::UnarySigilApp(':', Box::new(num(5)));
    let b = p.match_ptn(&t, DEPTH).unwrap().unwrap();
    assert_eq!(b.lookup(&ident("x")).map(|e| num_value(&e)), Some(5));
    let other = SExpr::UnarySigilApp('`', Box::new(num(5)));
    assert_eq!(p.match_ptn(&other, DEPTH).unwrap(), None);
}

#[test]
fn list_pattern_rejects_non_list() {
    let p = SExpr::List(vec![SExpr::Place(ident("x"))]);
    assert_eq!(p.match_ptn(&num(1), DEPTH).unwrap(), None);
}

#[test]
fn eval_simplifies_result() {
    let mut cxt = Context::new();
    let t = SExpr::List(vec![SExpr::Spread(vec![add_ident_term()]), num(2), num(3)]);
    assert_eq!(t.eval(&mut cxt, DEPTH).unwrap(), num(5));
}
