//! Structural equality of terms.
//!
//! Equality between terms of different variants is always false; `List`
//! equality is elementwise and length-sensitive; closures are opaque, so a
//! `Fun` term is never equal to anything, and the pattern forms that carry
//! a closure (`PtnAcc`, `Kleene`) inherit that.  A number's advisory range
//! tag does not take part in equality.

use vstd::prelude::*;

use crate::term::{
    lemma_seq_view_index, lemma_seq_view_len, seq_view, term_view, Bindings, BindingsV, Fun, Ident,
    SExpr, TermV,
};

verus! {

/// Structural equality of two term views.
pub open spec fn term_eq(a: TermV, b: TermV) -> bool
    decreases a,
{
    match (a, b) {
        (TermV::Sigil(c1), TermV::Sigil(c2)) => c1 == c2,
        (TermV::List(x), TermV::List(y)) => seq_term_eq(x, y),
        (TermV::Ident(i1), TermV::Ident(i2)) => i1 == i2,
        (TermV::Place(i1), TermV::Place(i2)) => i1 == i2,
        (TermV::Number(n1), TermV::Number(n2)) => n1.value == n2.value,
        (TermV::Fun(_), _) => false,
        (_, TermV::Fun(_)) => false,
        (TermV::UnarySigilApp(c1, a1), TermV::UnarySigilApp(c2, a2)) => c1 == c2 && term_eq(
            *a1,
            *a2,
        ),
        (TermV::Operation(b1), TermV::Operation(b2)) => b1 == b2,
        (TermV::PtnAcc { .. }, _) => false,
        (_, TermV::PtnAcc { .. }) => false,
        (TermV::Kleene { .. }, _) => false,
        (_, TermV::Kleene { .. }) => false,
        (TermV::Consecutive(x), TermV::Consecutive(y)) => seq_term_eq(x, y),
        (TermV::Spread(x), TermV::Spread(y)) => seq_term_eq(x, y),
        (TermV::AtPtnTime(a1), TermV::AtPtnTime(a2)) => term_eq(*a1, *a2),
        (TermV::LitMatch(a1), TermV::LitMatch(a2)) => term_eq(*a1, *a2),
        (TermV::ZeroWidth(a1), TermV::ZeroWidth(a2)) => term_eq(*a1, *a2),
        (TermV::Never, TermV::Never) => true,
        _ => false,
    }
}

/// Elementwise structural equality of two term-view sequences.
pub open spec fn seq_term_eq(x: Seq<TermV>, y: Seq<TermV>) -> bool
    decreases x,
{
    if x.len() != y.len() {
        false
    } else if x.len() == 0 {
        true
    } else {
        term_eq(x.last(), y.last()) && seq_term_eq(x.drop_last(), y.drop_last())
    }
}

/// `seq_term_eq` holds exactly when the lengths agree and every pair of
/// elements is structurally equal.
pub broadcast proof fn lemma_seq_term_eq_characterisation(x: Seq<TermV>, y: Seq<TermV>)
    ensures
        #[trigger] seq_term_eq(x, y) <==> (x.len() == y.len() && forall|i: int|
            0 <= i < x.len() ==> term_eq(#[trigger] x[i], y[i])),
    decreases x,
{
    if x.len() == y.len() && x.len() > 0 {
        lemma_seq_term_eq_characterisation(x.drop_last(), y.drop_last());
        assert(forall|i: int| 0 <= i < x.len() - 1 ==> x.drop_last()[i] == #[trigger] x[i]);
        assert(forall|i: int| 0 <= i < y.len() - 1 ==> y.drop_last()[i] == #[trigger] y[i]);
    }
}

/// A Function term is never structurally equal to any term, including
/// another Function or itself: closures are opaque.
pub proof fn lemma_fun_never_equal(f: crate::term::FunV, t: TermV)
    ensures
        !term_eq(TermV::Fun(f), t),
        !term_eq(t, TermV::Fun(f)),
{
}

/// Structural equality of two identifiers, decided on the name path and
/// the namespace flag.
pub fn ident_eq(a: &Ident, b: &Ident) -> (r: bool)
    ensures
        r == (a@ == b@),
{
    if a.tl_ns != b.tl_ns {
        return false;
    }
    if a.names.len() != b.names.len() {
        assert(a@.names.len() != b@.names.len());
        return false;
    }
    let mut i: usize = 0;
    while i < a.names.len()
        invariant
            i <= a.names@.len(),
            a.names@.len() == b.names@.len(),
            a.tl_ns == b.tl_ns,
            forall|j: int| 0 <= j < i ==> a.names@[j]@ == b.names@[j]@,
        decreases a.names@.len() - i,
    {
        if !a.names[i].eq(&b.names[i]) {
            assert(a@.names[i as int] != b@.names[i as int]);
            return false;
        }
        i += 1;
    }
    assert(a@ =~~= b@);
    true
}

/// Structural equality of two terms, deciding `term_eq` of their views.
pub fn sexpr_eq(a: &SExpr, b: &SExpr) -> (r: bool)
    ensures
        r == term_eq(a@, b@),
    decreases *a,
{
    broadcast use lemma_seq_view_len, lemma_seq_view_index, lemma_seq_term_eq_characterisation;

    match (a, b) {
        (SExpr::Sigil(c1), SExpr::Sigil(c2)) => c1 == c2,
        (SExpr::List(x), SExpr::List(y)) => seqs_eq(x, y),
        (SExpr::Ident(i1), SExpr::Ident(i2)) => ident_eq(i1, i2),
        (SExpr::Place(i1), SExpr::Place(i2)) => ident_eq(i1, i2),
        (SExpr::Number(n1), SExpr::Number(n2)) => n1.value == n2.value,
        (SExpr::Fun(_), _) => false,
        (_, SExpr::Fun(_)) => false,
        (SExpr::UnarySigilApp(c1, a1), SExpr::UnarySigilApp(c2, a2)) => *c1 == *c2 && sexpr_eq(
            a1,
            a2,
        ),
        (SExpr::Operation(b1), SExpr::Operation(b2)) => b1 == b2,
        (SExpr::PtnAcc { .. }, _) => false,
        (_, SExpr::PtnAcc { .. }) => false,
        (SExpr::Kleene { .. }, _) => false,
        (_, SExpr::Kleene { .. }) => false,
        (SExpr::Consecutive(x), SExpr::Consecutive(y)) => seqs_eq(x, y),
        (SExpr::Spread(x), SExpr::Spread(y)) => seqs_eq(x, y),
        (SExpr::AtPtnTime(a1), SExpr::AtPtnTime(a2)) => sexpr_eq(a1, a2),
        (SExpr::LitMatch(a1), SExpr::LitMatch(a2)) => sexpr_eq(a1, a2),
        (SExpr::ZeroWidth(a1), SExpr::ZeroWidth(a2)) => sexpr_eq(a1, a2),
        (SExpr::Never, SExpr::Never) => true,
        _ => false,
    }
}

/// Elementwise structural equality of two term vectors.
fn seqs_eq(x: &Vec<SExpr>, y: &Vec<SExpr>) -> (r: bool)
    ensures
        r == seq_term_eq(seq_view(x@), seq_view(y@)),
    decreases x@,
{
    broadcast use lemma_seq_view_len, lemma_seq_view_index, lemma_seq_term_eq_characterisation;

    if x.len() != y.len() {
        return false;
    }
    let mut i: usize = 0;
    while i < x.len()
        invariant
            i <= x@.len(),
            x@.len() == y@.len(),
            forall|j: int| 0 <= j < i ==> term_eq(
                term_view(#[trigger] x@[j]),
                term_view(y@[j]),
            ),
        decreases x@.len() - i,
    {
        assert(decreases_to!(x@ => x@[i as int]));
        proof {
            lemma_seq_view_len(x@);
            lemma_seq_view_len(y@);
            lemma_seq_view_index(x@, i as int);
            lemma_seq_view_index(y@, i as int);
            lemma_seq_term_eq_characterisation(seq_view(x@), seq_view(y@));
        }
        if !sexpr_eq(&x[i], &y[i]) {
            assert(!seq_term_eq(seq_view(x@), seq_view(y@)));
            return false;
        }
        i += 1;
    }
    true
}

impl PartialEq for SExpr {
    fn eq(&self, other: &SExpr) -> (r: bool) {
        sexpr_eq(self, other)
    }
}

impl vstd::std_specs::cmp::PartialEqSpecImpl for SExpr {
    open spec fn obeys_eq_spec() -> bool {
        true
    }

    open spec fn eq_spec(&self, other: &SExpr) -> bool {
        term_eq(self@, other@)
    }
}

impl PartialEq for Fun {
    fn eq(&self, _other: &Fun) -> (r: bool) {
        false
    }
}

impl vstd::std_specs::cmp::PartialEqSpecImpl for Fun {
    open spec fn obeys_eq_spec() -> bool {
        true
    }

    open spec fn eq_spec(&self, _other: &Fun) -> bool {
        false
    }
}

impl PartialEq for Ident {
    fn eq(&self, other: &Ident) -> (r: bool) {
        ident_eq(self, other)
    }
}

impl vstd::std_specs::cmp::PartialEqSpecImpl for Ident {
    open spec fn obeys_eq_spec() -> bool {
        true
    }

    open spec fn eq_spec(&self, other: &Ident) -> bool {
        self@ == other@
    }
}

impl Eq for Ident {

}

/// Entrywise equality of two binding sets: the keys must agree and the
/// bound terms must be structurally equal, in the same order.
pub open spec fn bindings_eq(a: BindingsV, b: BindingsV) -> bool {
    &&& a.len() == b.len()
    &&& forall|i: int|
        0 <= i < a.len() ==> (#[trigger] a[i]).0 == b[i].0 && term_eq(a[i].1, b[i].1)
}

impl PartialEq for Bindings {
    fn eq(&self, other: &Bindings) -> (r: bool) {
        broadcast use
            crate::term::lemma_entries_view_len,
            crate::term::lemma_entries_view_index,
        ;

        assert(self@.len() == self.entries@.len());
        assert(other@.len() == other.entries@.len());
        if self.entries.len() != other.entries.len() {
            return false;
        }
        let mut i: usize = 0;
        while i < self.entries.len()
            invariant
                i <= self.entries@.len(),
                self.entries@.len() == other.entries@.len(),
                forall|j: int| 0 <= j < i ==> (#[trigger] self.entries@[j]).0@
                    == other.entries@[j].0@ && term_eq(
                    term_view(self.entries@[j].1),
                    term_view(other.entries@[j].1),
                ),
            decreases self.entries@.len() - i,
        {
            proof {
                crate::term::lemma_entries_view_len(self.entries@);
                crate::term::lemma_entries_view_len(other.entries@);
                crate::term::lemma_entries_view_index(self.entries@, i as int);
                crate::term::lemma_entries_view_index(other.entries@, i as int);
            }
            if !ident_eq(&self.entries[i].0, &other.entries[i].0) {
                assert(self@[i as int].0 != other@[i as int].0);
                return false;
            }
            if !sexpr_eq(&self.entries[i].1, &other.entries[i].1) {
                assert(!term_eq(self@[i as int].1, other@[i as int].1));
                return false;
            }
            i += 1;
        }
        true
    }
}

impl vstd::std_specs::cmp::PartialEqSpecImpl for Bindings {
    open spec fn obeys_eq_spec() -> bool {
        true
    }

    open spec fn eq_spec(&self, other: &Bindings) -> bool {
        bindings_eq(self@, other@)
    }
}

} // verus!
