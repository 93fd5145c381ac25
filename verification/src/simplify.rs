//! The simplifier: flattens immediately-nested splice (`Spread`) markers
//! out of list terms.
//!
//! For each child of a list the simplifier computes the child's own
//! simplified form; when that form is a `Spread` its contents are spliced
//! in place, preserving order, and otherwise the original child is kept
//! unchanged.  Simplification only discovers and flattens splices, it does
//! not evaluate.  It is applied recursively into a `UnarySigilApp`'s
//! argument.

use vstd::prelude::*;

use crate::term::{
    clone_term, lemma_seq_view_index, lemma_seq_view_len, seq_view, term_view, SExpr, TermV,
};

verus! {

/// The simplified form of a term.
pub open spec fn simp(t: TermV) -> TermV
    decreases t, 1int,
{
    match t {
        TermV::List(cs) => TermV::List(simp_children(cs)),
        TermV::UnarySigilApp(c, a) => TermV::UnarySigilApp(c, Box::new(simp(*a))),
        _ => t,
    }
}

/// The children of a simplified list: each child whose own simplified form
/// is a `Spread` is replaced by that form's contents; every other child is
/// kept unchanged.
pub open spec fn simp_children(cs: Seq<TermV>) -> Seq<TermV>
    decreases cs, 0int,
{
    if cs.len() == 0 {
        Seq::empty()
    } else {
        let rest = simp_children(cs.drop_last());
        match simp(cs.last()) {
            TermV::Spread(inner) => rest + inner,
            _ => rest.push(cs.last()),
        }
    }
}

/// No child of a list splices contents that would splice again, at any
/// depth the simplifier rewrites.  Lists without immediately-nested
/// splices inside spliced contents satisfy this; it is the precondition
/// under which simplification is idempotent.
pub open spec fn splice_stable(t: TermV) -> bool
    decreases t,
{
    match t {
        TermV::List(cs) => forall|i: int|
            0 <= i < cs.len() ==> match simp(#[trigger] cs[i]) {
                TermV::Spread(inner) => forall|j: int|
                    0 <= j < inner.len() ==> !(simp(#[trigger] inner[j]) is Spread),
                _ => true,
            },
        TermV::UnarySigilApp(_, a) => splice_stable(*a),
        _ => true,
    }
}

/// Every element of the simplified children of a splice-stable list has a
/// simplified form that is not a `Spread`.
proof fn lemma_simp_children_no_spread(cs: Seq<TermV>)
    requires
        forall|i: int|
            0 <= i < cs.len() ==> match simp(#[trigger] cs[i]) {
                TermV::Spread(inner) => forall|j: int|
                    0 <= j < inner.len() ==> !(simp(#[trigger] inner[j]) is Spread),
                _ => true,
            },
    ensures
        forall|i: int|
            0 <= i < simp_children(cs).len() ==> !(simp(#[trigger] simp_children(cs)[i])
                is Spread),
    decreases cs,
{
    if cs.len() > 0 {
        assert(forall|i: int| 0 <= i < cs.len() - 1 ==> cs.drop_last()[i] == #[trigger] cs[i]);
        lemma_simp_children_no_spread(cs.drop_last());
        assert(cs[cs.len() - 1] == cs.last());
        match simp(cs.last()) {
            TermV::Spread(inner) => {
                assert(simp_children(cs) == simp_children(cs.drop_last()) + inner);
            },
            _ => {
                assert(simp_children(cs) == simp_children(cs.drop_last()).push(cs.last()));
            },
        }
    }
}

/// Simplifying children none of which simplifies to a `Spread` keeps them
/// unchanged.
proof fn lemma_simp_children_fixed(cs: Seq<TermV>)
    requires
        forall|i: int| 0 <= i < cs.len() ==> !(simp(#[trigger] cs[i]) is Spread),
    ensures
        simp_children(cs) == cs,
    decreases cs,
{
    if cs.len() > 0 {
        assert(forall|i: int| 0 <= i < cs.len() - 1 ==> cs.drop_last()[i] == #[trigger] cs[i]);
        lemma_simp_children_fixed(cs.drop_last());
        assert(cs[cs.len() - 1] == cs.last());
        assert(simp_children(cs) =~= cs);
    }
}

/// Simplification is idempotent on splice-stable terms.  A list whose
/// spliced contents contain a further splice marker is rewritten again by
/// a second pass, so the hypothesis cannot be dropped.
pub proof fn lemma_simplify_idempotent(t: TermV)
    requires
        splice_stable(t),
    ensures
        simp(simp(t)) == simp(t),
    decreases t,
{
    match t {
        TermV::List(cs) => {
            lemma_simp_children_no_spread(cs);
            lemma_simp_children_fixed(simp_children(cs));
        },
        TermV::UnarySigilApp(_, a) => {
            lemma_simplify_idempotent(*a);
        },
        _ => {},
    }
}

/// `seq_view` commutes with concatenation.
pub broadcast proof fn lemma_seq_view_concat(a: Seq<SExpr>, b: Seq<SExpr>)
    ensures
        #[trigger] seq_view(a + b) =~= seq_view(a) + seq_view(b),
{
    broadcast use lemma_seq_view_len, lemma_seq_view_index;

    assert(seq_view(a + b).len() == seq_view(a).len() + seq_view(b).len());
    assert forall|i: int| 0 <= i < (a + b).len() implies seq_view(a + b)[i] == (seq_view(a)
        + seq_view(b))[i] by {
        lemma_seq_view_index(a + b, i);
        if i < a.len() {
            lemma_seq_view_index(a, i);
        } else {
            lemma_seq_view_index(b, i - a.len());
        }
    }
}

/// The simplified children of a term vector.
fn simplify_children(v: &Vec<SExpr>) -> (r: Vec<SExpr>)
    ensures
        seq_view(r@) == simp_children(seq_view(v@)),
    decreases v@, 0int,
{
    let mut out: Vec<SExpr> = Vec::new();
    let mut i: usize = 0;
    while i < v.len()
        invariant
            i <= v@.len(),
            seq_view(out@) =~= simp_children(seq_view(v@).subrange(0, i as int)),
        decreases v@.len() - i,
    {
        assert(decreases_to!(v@ => v@[i as int]));
        proof {
            lemma_seq_view_len(v@);
            lemma_seq_view_index(v@, i as int);
        }
        let ghost prefix = seq_view(v@).subrange(0, i as int);
        let ghost prefix1 = seq_view(v@).subrange(0, i as int + 1);
        proof {
            assert(prefix1.drop_last() =~= prefix);
            assert(prefix1.last() == seq_view(v@)[i as int]);
        }
        let s = v[i].simplify();
        match s {
            SExpr::Spread(mut inner) => {
                proof {
                    lemma_seq_view_concat(out@, inner@);
                }
                let ghost inner_snap = inner@;
                out.append(&mut inner);
                proof {
                    assert(out@ == out@.subrange(0, out@.len() - inner_snap.len() as int)
                        + inner_snap) by {
                        assert(out@ =~= out@.subrange(
                            0,
                            out@.len() - inner_snap.len() as int,
                        ) + inner_snap);
                    }
                    assert(seq_view(out@) =~= simp_children(prefix1));
                }
            },
            _ => {
                proof {
                    let ghost sv = s;
                    match sv {
                        SExpr::Spread(_) => {
                            assert(false);
                        },
                        _ => {},
                    }
                    assert(!(s@ is Spread));
                }
                let ghost out_old = out@;
                out.push(clone_term(&v[i]));
                proof {
                    crate::term::lemma_seq_view_push(out_old, out@.last());
                    assert(out_old.push(out@.last()) =~= out@);
                    assert(seq_view(out@) =~= simp_children(prefix1));
                }
            },
        }
        i += 1;
    }
    proof {
        lemma_seq_view_len(v@);
        assert(seq_view(v@).subrange(0, v@.len() as int) =~= seq_view(v@));
    }
    out
}

impl SExpr {
    /// The simplified form of the term: nested splices are flattened out
    /// of lists, recursively through unary sigil applications; everything
    /// else is returned unchanged.
    pub fn simplify(&self) -> (r: SExpr)
        ensures
            r@ == simp(self@),
        decreases *self, 1int,
    {
        match self {
            SExpr::List(ls) => SExpr::List(simplify_children(ls)),
            SExpr::UnarySigilApp(c, a) => SExpr::UnarySigilApp(*c, Box::new(a.simplify())),
            e => clone_term(e),
        }
    }
}

} // verus!
