//! The identifiers a term refers to.
//!
//! A term's referenced identifiers are the names it would resolve against
//! an environment: identifiers and capture sites themselves, the operator
//! identifier of every sigil, and everything referenced by sub-terms.  A
//! closure contributes its body and parameter pattern; its captured
//! bindings contribute their keys and bound terms where they stand inside
//! a fold pattern's seed.

use vstd::prelude::*;

use crate::semantics::sigil_ident_of;
use crate::term::{
    lemma_entries_view_index, lemma_entries_view_len, lemma_seq_view_index, lemma_seq_view_len,
    seq_view, term_view, Bindings, BindingsV, Fun, FunV, Ident, IdentV, SExpr, TermV,
};
use crate::eq::ident_eq;

verus! {

/// The referenced identifiers of a closure: those of its body and of its
/// parameter pattern.
pub open spec fn fun_refs(f: FunV) -> Set<IdentV>
    decreases f, 1int,
{
    refs(*f.body).union(refs(*f.args_ptn))
}

/// The referenced identifiers of a binding set: its keys and everything
/// its bound terms reference.
pub open spec fn bindings_refs(b: BindingsV) -> Set<IdentV>
    decreases b, 1int,
{
    if b.len() == 0 {
        Set::empty()
    } else {
        bindings_refs(b.drop_last()).insert(b.last().0).union(refs(b.last().1))
    }
}

/// The referenced identifiers of each element of a term sequence.
pub open spec fn seq_refs(s: Seq<TermV>) -> Set<IdentV>
    decreases s, 1int,
{
    if s.len() == 0 {
        Set::empty()
    } else {
        seq_refs(s.drop_last()).union(refs(s.last()))
    }
}

/// The identifiers a term refers to.  A sigil with no defined operator
/// name contributes nothing.
pub open spec fn refs(t: TermV) -> Set<IdentV>
    decreases t, 0int,
{
    match t {
        TermV::Ident(id) => set![id],
        TermV::Place(id) => set![id],
        TermV::Sigil(c) => match sigil_ident_of(c) {
            Some(id) => set![id],
            None => Set::empty(),
        },
        TermV::Number(_) => Set::empty(),
        TermV::Operation(_) => Set::empty(),
        TermV::Never => Set::empty(),
        TermV::Fun(f) => fun_refs(f),
        TermV::LitMatch(a) => refs(*a),
        TermV::AtPtnTime(a) => refs(*a),
        TermV::ZeroWidth(a) => refs(*a),
        TermV::UnarySigilApp(c, a) => (match sigil_ident_of(c) {
            Some(id) => set![id],
            None => Set::empty(),
        }).union(refs(*a)),
        TermV::List(ls) => seq_refs(ls),
        TermV::Spread(ls) => seq_refs(ls),
        TermV::Consecutive(ls) => seq_refs(ls),
        TermV::PtnAcc { acc, init, pats } => fun_refs(acc).union(
            match init {
                Some(b) => bindings_refs(b),
                None => Set::empty(),
            },
        ).union(seq_refs(pats)),
        TermV::Kleene { start, next } => refs(*start).union(fun_refs(next)),
    }
}

/// Whether the identifier vector covers exactly the given set at the view
/// level: every element lies in the set, and every member of the set
/// appears.
pub open spec fn covers(v: Seq<Ident>, s: Set<IdentV>) -> bool {
    &&& forall|j: int| 0 <= j < v.len() ==> s.contains((#[trigger] v[j])@)
    &&& forall|id: IdentV| s.contains(id) ==> exists|j: int| 0 <= j < v.len() && (#[trigger] v[j])@ == id
}

/// Relies on itertools::merge: the returned iterator yields every element
/// of both inputs, merged in ascending order.
#[verifier::external_body]
fn merge_idents(a: Vec<Ident>, b: Vec<Ident>) -> (r: Vec<Ident>)
    ensures
        r@.to_multiset() == a@.to_multiset().add(b@.to_multiset()),
{
    itertools::merge(a, b).collect()
}

/// Relies on slice::sort: the vector is sorted in place, so the new
/// contents are a permutation of the old.
#[verifier::external_body]
fn sort_idents(v: &mut Vec<Ident>)
    ensures
        final(v)@.to_multiset() == old(v)@.to_multiset(),
{
    v.sort();
}

/// Whether some element of the vector has the given view.
pub open spec fn has_view(s: Seq<Ident>, id: IdentV) -> bool {
    exists|j: int| 0 <= j < s.len() && (#[trigger] s[j])@ == id
}

/// A view found in a sequence is found in any extension of it.
proof fn lemma_has_view_extend(s1: Seq<Ident>, s2: Seq<Ident>, id: IdentV)
    requires
        has_view(s1, id),
        s1.len() <= s2.len(),
        forall|j: int| 0 <= j < s1.len() ==> s2[j] == s1[j],
    ensures
        has_view(s2, id),
{
    let j = choose|j: int| 0 <= j < s1.len() && (#[trigger] s1[j])@ == id;
    assert(s2[j]@ == id);
}

/// Removes runs of adjacent equal identifiers, keeping one of each: the
/// result holds the same identifier views as the input.
fn dedup_adjacent(v: Vec<Ident>) -> (r: Vec<Ident>)
    ensures
        forall|j: int| 0 <= j < r@.len() ==> has_view(v@, (#[trigger] r@[j])@),
        forall|k: int| 0 <= k < v@.len() ==> has_view(r@, (#[trigger] v@[k])@),
{
    let mut out: Vec<Ident> = Vec::new();
    let mut i: usize = 0;
    while i < v.len()
        invariant
            i <= v@.len(),
            forall|j: int| 0 <= j < out@.len() ==> has_view(v@, (#[trigger] out@[j])@),
            forall|k: int| 0 <= k < i ==> has_view(out@, (#[trigger] v@[k])@),
        decreases v@.len() - i,
    {
        let keep = if out.len() == 0 {
            true
        } else {
            !ident_eq(&out[out.len() - 1], &v[i])
        };
        let ghost out_old = out@;
        if keep {
            out.push(v[i].clone());
            proof {
                assert(out@[out@.len() - 1]@ == v@[i as int]@);
                assert(has_view(out@, v@[i as int]@));
                assert forall|k: int| 0 <= k < i + 1 implies has_view(
                    out@,
                    (#[trigger] v@[k])@,
                ) by {
                    if k < i {
                        lemma_has_view_extend(out_old, out@, v@[k]@);
                    }
                }
            }
        } else {
            proof {
                assert(out@[out@.len() - 1]@ == v@[i as int]@);
                assert(has_view(out@, v@[i as int]@));
            }
        }
        i += 1;
    }
    out
}

/// A one-element vector covers exactly the singleton set of its element's
/// view.
proof fn lemma_singleton_covers(v: Seq<Ident>, id: IdentV)
    requires
        v.len() == 1,
        v[0]@ == id,
    ensures
        covers(v, set![id]),
{
    assert forall|id2: IdentV| set![id].contains(id2) implies exists|j: int|
        0 <= j < v.len() && (#[trigger] v[j])@ == id2 by {
        assert(v[0]@ == id2);
    }
}

/// A merge holds exactly the members of its two inputs.
proof fn lemma_merge_covers(a: Seq<Ident>, b: Seq<Ident>, r: Seq<Ident>, sa: Set<IdentV>, sb: Set<
    IdentV,
>)
    requires
        r.to_multiset() == a.to_multiset().add(b.to_multiset()),
        covers(a, sa),
        covers(b, sb),
    ensures
        covers(r, sa.union(sb)),
{
    broadcast use vstd::multiset::group_multiset_axioms;

    a.to_multiset_ensures();
    b.to_multiset_ensures();
    r.to_multiset_ensures();
    assert forall|j: int| 0 <= j < r.len() implies sa.union(sb).contains((#[trigger] r[j])@) by {
        assert(r.contains(r[j]));
        assert(r.to_multiset().count(r[j]) > 0);
        assert(a.to_multiset().count(r[j]) > 0 || b.to_multiset().count(r[j]) > 0);
        if a.to_multiset().count(r[j]) > 0 {
            assert(a.contains(r[j]));
            let k = choose|k: int| 0 <= k < a.len() && a[k] == r[j];
            assert(sa.contains(a[k]@));
        } else {
            assert(b.contains(r[j]));
            let k = choose|k: int| 0 <= k < b.len() && b[k] == r[j];
            assert(sb.contains(b[k]@));
        }
    }
    assert forall|id: IdentV| sa.union(sb).contains(id) implies exists|j: int|
        0 <= j < r.len() && (#[trigger] r[j])@ == id by {
        if sa.contains(id) {
            let k = choose|k: int| 0 <= k < a.len() && (#[trigger] a[k])@ == id;
            assert(a.contains(a[k]));
            assert(r.to_multiset().count(a[k]) > 0);
            assert(r.contains(a[k]));
            let j = choose|j: int| 0 <= j < r.len() && r[j] == a[k];
            assert(r[j]@ == id);
        } else {
            let k = choose|k: int| 0 <= k < b.len() && (#[trigger] b[k])@ == id;
            assert(b.contains(b[k]));
            assert(r.to_multiset().count(b[k]) > 0);
            assert(r.contains(b[k]));
            let j = choose|j: int| 0 <= j < r.len() && r[j] == b[k];
            assert(r[j]@ == id);
        }
    }
}

/// A permutation holds exactly the members of its input.
proof fn lemma_permutation_covers(a: Seq<Ident>, r: Seq<Ident>, s: Set<IdentV>)
    requires
        r.to_multiset() == a.to_multiset(),
        covers(a, s),
    ensures
        covers(r, s),
{
    broadcast use vstd::multiset::group_multiset_axioms;

    a.to_multiset_ensures();
    r.to_multiset_ensures();
    assert forall|j: int| 0 <= j < r.len() implies s.contains((#[trigger] r[j])@) by {
        assert(r.contains(r[j]));
        assert(a.to_multiset().count(r[j]) > 0);
        assert(a.contains(r[j]));
        let k = choose|k: int| 0 <= k < a.len() && a[k] == r[j];
        assert(s.contains(a[k]@));
    }
    assert forall|id: IdentV| s.contains(id) implies exists|j: int|
        0 <= j < r.len() && (#[trigger] r[j])@ == id by {
        let k = choose|k: int| 0 <= k < a.len() && (#[trigger] a[k])@ == id;
        assert(a.contains(a[k]));
        assert(r.to_multiset().count(a[k]) > 0);
        assert(r.contains(a[k]));
        let j = choose|j: int| 0 <= j < r.len() && r[j] == a[k];
        assert(r[j]@ == id);
    }
}

impl Bindings {
    /// The referenced identifiers of the binding set: keys and bound
    /// terms, merged in order.
    pub fn referenced_idents_sorted(&self) -> (r: Vec<Ident>)
        ensures
            covers(r@, bindings_refs(self@)),
        decreases *self, 2int,
    {
        proof {
            lemma_entries_view_len(self.entries@);
        }
        let mut out: Vec<Ident> = Vec::new();
        let mut i: usize = 0;
        while i < self.entries.len()
            invariant
                i <= self.entries@.len(),
                self@.len() == self.entries@.len(),
                covers(out@, bindings_refs(self@.subrange(0, i as int))),
            decreases self.entries@.len() - i,
        {
            assert(decreases_to!(self.entries@ => self.entries@[i as int]));
            proof {
                lemma_entries_view_index(self.entries@, i as int);
            }
            let ghost prefix1 = self@.subrange(0, i as int + 1);
            proof {
                assert(prefix1.drop_last() =~= self@.subrange(0, i as int));
                assert(prefix1.last() == self@[i as int]);
            }
            let mut key: Vec<Ident> = Vec::new();
            key.push(self.entries[i].0.clone());
            proof {
                assert forall|id2: IdentV| set![self@[i as int].0].contains(id2) implies exists|
                    j: int,
                |
                    0 <= j < key@.len() && (#[trigger] key@[j])@ == id2 by {
                    assert(key@[0]@ == id2);
                }
                assert(covers(key@, set![self@[i as int].0]));
            }
            let ghost outv = out@;
            let ghost keyv = key@;
            let merged = merge_idents(out, key);
            proof {
                lemma_merge_covers(
                    outv,
                    keyv,
                    merged@,
                    bindings_refs(self@.subrange(0, i as int)),
                    set![self@[i as int].0],
                );
            }
            let term_refs = self.entries[i].1.referenced_idents_inner();
            let ghost mergedv = merged@;
            let ghost termv = term_refs@;
            let combined = merge_idents(merged, term_refs);
            proof {
                lemma_merge_covers(
                    mergedv,
                    termv,
                    combined@,
                    bindings_refs(self@.subrange(0, i as int)).union(
                        set![self@[i as int].0],
                    ),
                    refs(self@[i as int].1),
                );
                assert(bindings_refs(prefix1) =~= bindings_refs(
                    self@.subrange(0, i as int),
                ).union(set![self@[i as int].0]).union(refs(self@[i as int].1)));
            }
            out = combined;
            i += 1;
        }
        proof {
            assert(self@.subrange(0, self@.len() as int) =~= self@);
        }
        out
    }
}

impl SExpr {
    /// The identifiers the term refers to, one entry for each, duplicates
    /// removed.
    pub fn referenced_idents(&self) -> (r: Vec<Ident>)
        ensures
            covers(r@, refs(self@)),
    {
        let mut v = self.referenced_idents_inner();
        let ghost v0 = v@;
        sort_idents(&mut v);
        proof {
            lemma_permutation_covers(v0, v@, refs(self@));
        }
        let ghost vv = v@;
        let out = dedup_adjacent(v);
        proof {
            assert forall|j: int| 0 <= j < out@.len() implies refs(self@).contains(
                (#[trigger] out@[j])@,
            ) by {
                assert(has_view(vv, out@[j]@));
                let k = choose|k: int| 0 <= k < vv.len() && (#[trigger] vv[k])@ == out@[j]@;
                assert(refs(self@).contains(vv[k]@));
            }
            assert forall|id: IdentV| refs(self@).contains(id) implies exists|j: int|
                0 <= j < out@.len() && (#[trigger] out@[j])@ == id by {
                let k = choose|k: int| 0 <= k < vv.len() && (#[trigger] vv[k])@ == id;
                assert(has_view(out@, vv[k]@));
                let j = choose|j: int| 0 <= j < out@.len() && (#[trigger] out@[j])@ == vv[k]@;
                assert(out@[j]@ == id);
            }
        }
        out
    }

    /// The identifiers the term refers to, merged in order, duplicates
    /// kept.
    pub fn referenced_idents_inner(&self) -> (r: Vec<Ident>)
        ensures
            covers(r@, refs(self@)),
        decreases *self, 3int,
    {
        match self {
            SExpr::Ident(id) => {
                let mut out: Vec<Ident> = Vec::new();
                out.push(id.clone());
                proof {
                    lemma_singleton_covers(out@, id@);
                }
                out
            },
            SExpr::Place(id) => {
                let mut out: Vec<Ident> = Vec::new();
                out.push(id.clone());
                proof {
                    lemma_singleton_covers(out@, id@);
                }
                out
            },
            SExpr::Sigil(c) => {
                let mut out: Vec<Ident> = Vec::new();
                if crate::interp::sigil_defined(*c) {
                    out.push(crate::interp::make_sigil_ident(*c));
                    proof {
                        lemma_singleton_covers(out@, sigil_ident_of(*c).unwrap());
                    }
                }
                out
            },
            SExpr::Number(_) => Vec::new(),
            SExpr::Operation(_) => Vec::new(),
            SExpr::Never => Vec::new(),
            SExpr::LitMatch(a) => a.referenced_idents_inner(),
            SExpr::AtPtnTime(a) => a.referenced_idents_inner(),
            SExpr::ZeroWidth(a) => a.referenced_idents_inner(),
            SExpr::Fun(f) => fun_referenced_idents(f),
            SExpr::UnarySigilApp(c, a) => {
                let mut head: Vec<Ident> = Vec::new();
                if crate::interp::sigil_defined(*c) {
                    head.push(crate::interp::make_sigil_ident(*c));
                }
                let ghost head_set: Set<IdentV> = match sigil_ident_of(*c) {
                    Some(id) => set![id],
                    None => Set::empty(),
                };
                proof {
                    if head@.len() == 1 {
                        lemma_singleton_covers(head@, sigil_ident_of(*c).unwrap());
                    }
                    assert(covers(head@, head_set));
                }
                let rest = a.referenced_idents_inner();
                let ghost headv = head@;
                let ghost restv = rest@;
                let r = merge_idents(head, rest);
                proof {
                    lemma_merge_covers(headv, restv, r@, head_set, refs(term_view(**a)));
                }
                r
            },
            SExpr::List(ls) => seq_referenced_idents(ls),
            SExpr::Spread(ls) => seq_referenced_idents(ls),
            SExpr::Consecutive(ls) => seq_referenced_idents(ls),
            SExpr::PtnAcc { acc, init, pats } => {
                let a = fun_referenced_idents(acc);
                let b = match init {
                    Some(bs) => bs.referenced_idents_sorted(),
                    None => Vec::new(),
                };
                let ghost init_set: Set<IdentV> = match self@->PtnAcc_init {
                    Some(bv) => bindings_refs(bv),
                    None => Set::empty(),
                };
                proof {
                    assert(covers(b@, init_set));
                }
                let ghost av = a@;
                let ghost bv = b@;
                let ab = merge_idents(a, b);
                proof {
                    lemma_merge_covers(av, bv, ab@, fun_refs(self@->PtnAcc_acc), init_set);
                }
                let c = seq_referenced_idents(pats);
                let ghost abv = ab@;
                let ghost cv = c@;
                let r = merge_idents(ab, c);
                proof {
                    lemma_merge_covers(
                        abv,
                        cv,
                        r@,
                        fun_refs(self@->PtnAcc_acc).union(init_set),
                        seq_refs(seq_view(pats@)),
                    );
                }
                r
            },
            SExpr::Kleene { start, next } => {
                let a = start.referenced_idents_inner();
                let b = fun_referenced_idents(next);
                let ghost av = a@;
                let ghost bv = b@;
                let r = merge_idents(a, b);
                proof {
                    lemma_merge_covers(av, bv, r@, refs(term_view(**start)), fun_refs(next@));
                }
                r
            },
        }
    }
}

/// The referenced identifiers of a closure: body merged with parameter
/// pattern.
fn fun_referenced_idents(f: &Fun) -> (r: Vec<Ident>)
    ensures
        covers(r@, fun_refs(f@)),
    decreases *f, 4int,
{
    let a = f.body.referenced_idents_inner();
    let b = f.args_ptn.referenced_idents_inner();
    let ghost av = a@;
    let ghost bv = b@;
    let r = merge_idents(a, b);
    proof {
        lemma_merge_covers(av, bv, r@, refs(term_view(*f.body)), refs(term_view(*f.args_ptn)));
    }
    r
}

/// The referenced identifiers of every element of a term vector, merged in
/// order.
fn seq_referenced_idents(ls: &Vec<SExpr>) -> (r: Vec<Ident>)
    ensures
        covers(r@, seq_refs(seq_view(ls@))),
    decreases ls@, 2int,
{
    proof {
        lemma_seq_view_len(ls@);
    }
    let mut out: Vec<Ident> = Vec::new();
    let mut i: usize = 0;
    proof {
        assert(seq_refs(seq_view(ls@).subrange(0, 0)) =~= Set::<IdentV>::empty()) by {
            assert(seq_view(ls@).subrange(0, 0) =~= Seq::<TermV>::empty());
        }
        assert(covers(out@, seq_refs(seq_view(ls@).subrange(0, 0))));
    }
    while i < ls.len()
        invariant
            i <= ls@.len(),
            seq_view(ls@).len() == ls@.len(),
            covers(out@, seq_refs(seq_view(ls@).subrange(0, i as int))),
        decreases ls@.len() - i,
    {
        assert(decreases_to!(ls@ => ls@[i as int]));
        proof {
            lemma_seq_view_index(ls@, i as int);
        }
        let ghost prefix1 = seq_view(ls@).subrange(0, i as int + 1);
        proof {
            assert(prefix1.drop_last() =~= seq_view(ls@).subrange(0, i as int));
            assert(prefix1.last() == seq_view(ls@)[i as int]);
        }
        let elem = ls[i].referenced_idents_inner();
        let ghost outv = out@;
        let ghost elemv = elem@;
        let merged = merge_idents(out, elem);
        proof {
            lemma_merge_covers(
                outv,
                elemv,
                merged@,
                seq_refs(seq_view(ls@).subrange(0, i as int)),
                refs(term_view(ls@[i as int])),
            );
        }
        out = merged;
        i += 1;
    }
    proof {
        assert(seq_view(ls@).subrange(0, ls@.len() as int) =~= seq_view(ls@));
    }
    out
}

} // verus!
