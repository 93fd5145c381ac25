//! The bindings algebra and the scope-stack environment.
//!
//! A binding set is an immutable name-to-term mapping with unique keys,
//! kept in insertion order.  `join` merges two sets; on a shared key the
//! right-hand set wins, a policy chosen and documented here because the
//! visible behaviour does not determine it.  `intersect` succeeds with the
//! join of both operands only when both are present: it is the standard
//! combinator for "both sub-matches must succeed".
//!
//! The environment is a scope stack, pushed and popped in strict LIFO
//! order, with innermost-scope-wins shadowing on lookup.

use vstd::prelude::*;

use crate::term::{
    clone_bindings, clone_term, entries_view, lemma_entries_view_index, lemma_entries_view_len,
    term_view, Bindings, BindingsV, Ident, IdentV, SExpr, TermV,
};
use crate::eq::ident_eq;

verus! {

/// Whether the binding set holds the key.
pub open spec fn b_has_key(b: BindingsV, k: IdentV) -> bool {
    exists|i: int| 0 <= i < b.len() && (#[trigger] b[i]).0 == k
}

/// The term bound to a key: the first entry with that key wins; with
/// unique keys there is at most one.
pub open spec fn b_lookup(b: BindingsV, k: IdentV) -> Option<TermV>
    decreases b,
{
    if b.len() == 0 {
        None
    } else if b[0].0 == k {
        Some(b[0].1)
    } else {
        b_lookup(b.drop_first(), k)
    }
}

/// The entries of `a` whose keys do not occur in `b`, in order.
pub open spec fn b_minus(a: BindingsV, b: BindingsV) -> BindingsV
    decreases a,
{
    if a.len() == 0 {
        Seq::empty()
    } else {
        let rest = b_minus(a.drop_last(), b);
        if b_has_key(b, a.last().0) {
            rest
        } else {
            rest.push(a.last())
        }
    }
}

/// The merge of two binding sets: all of `b`, preceded by the entries of
/// `a` whose keys `b` does not bind.  On a shared key the right-hand set
/// wins.
pub open spec fn b_join(a: BindingsV, b: BindingsV) -> BindingsV {
    b_minus(a, b) + b
}

/// The combination of two optional binding sets: their join when both are
/// present, failure otherwise.
pub open spec fn b_intersect(a: Option<BindingsV>, b: Option<BindingsV>) -> Option<BindingsV> {
    match (a, b) {
        (Some(x), Some(y)) => Some(b_join(x, y)),
        _ => None,
    }
}

/// Joining the empty binding set on the left leaves any binding set
/// unchanged; its keys are trivially disjoint from the empty set's.
pub proof fn lemma_join_empty_left(b: BindingsV)
    ensures
        b_join(Seq::empty(), b) == b,
{
    assert(b_join(Seq::empty(), b) =~= b);
}

/// Joining binding sets with disjoint keys concatenates them in order.
pub proof fn lemma_join_disjoint(a: BindingsV, b: BindingsV)
    requires
        forall|i: int| 0 <= i < a.len() ==> !b_has_key(b, (#[trigger] a[i]).0),
    ensures
        b_join(a, b) == a + b,
{
    lemma_minus_disjoint(a, b);
    assert(b_join(a, b) =~= a + b);
}

proof fn lemma_minus_disjoint(a: BindingsV, b: BindingsV)
    requires
        forall|i: int| 0 <= i < a.len() ==> !b_has_key(b, (#[trigger] a[i]).0),
    ensures
        b_minus(a, b) == a,
    decreases a,
{
    if a.len() > 0 {
        assert(forall|i: int| 0 <= i < a.len() - 1 ==> a.drop_last()[i] == #[trigger] a[i]);
        lemma_minus_disjoint(a.drop_last(), b);
        assert(a[a.len() - 1] == a.last());
        assert(b_minus(a, b) =~= a);
    }
}

/// Whether a key occurs in the entry vector; decided by structural
/// identifier equality.
fn entries_have_key(entries: &Vec<(Ident, SExpr)>, k: &Ident) -> (r: bool)
    ensures
        r == b_has_key(entries_view(entries@), k@),
{
    let mut i: usize = 0;
    while i < entries.len()
        invariant
            i <= entries@.len(),
            forall|j: int| 0 <= j < i ==> (#[trigger] entries@[j]).0@ != k@,
        decreases entries@.len() - i,
    {
        if ident_eq(&entries[i].0, k) {
            proof {
                lemma_entries_view_len(entries@);
                lemma_entries_view_index(entries@, i as int);
            }
            return true;
        }
        i += 1;
    }
    proof {
        lemma_entries_view_len(entries@);
        assert forall|j: int| 0 <= j < entries_view(entries@).len() implies (#[trigger]
        entries_view(entries@)[j]).0 != k@ by {
            lemma_entries_view_index(entries@, j);
        }
    }
    false
}

impl Bindings {
    /// The empty binding set: matching success with nothing captured.
    pub fn empty() -> (r: Bindings)
        ensures
            r@ == Seq::<(IdentV, TermV)>::empty(),
    {
        Bindings { entries: Vec::new() }
    }

    /// The zero-repetition seed of an open repetition: no bindings.
    pub fn basic() -> (r: Bindings)
        ensures
            r@ == Seq::<(IdentV, TermV)>::empty(),
    {
        Bindings { entries: Vec::new() }
    }

    /// The singleton binding set.
    pub fn of(id: Ident, term: &SExpr) -> (r: Bindings)
        ensures
            r@ =~= seq![(id@, term@)],
    {
        let mut entries: Vec<(Ident, SExpr)> = Vec::new();
        let ghost idv = id@;
        entries.push((id, clone_term(term)));
        proof {
            lemma_entries_view_len(entries@);
            lemma_entries_view_index(entries@, 0);
        }
        Bindings { entries }
    }

    /// The binding set holding the given entries, later entries winning on
    /// a shared key.
    pub fn of_contents(entries: Vec<(Ident, SExpr)>) -> (r: Bindings)
        ensures
            r@ == b_of_contents(entries_view(entries@)),
    {
        let mut out = Bindings::empty();
        let mut i: usize = 0;
        proof {
            lemma_entries_view_len(entries@);
        }
        while i < entries.len()
            invariant
                i <= entries@.len(),
                entries_view(entries@).len() == entries@.len(),
                out@ == b_of_contents(entries_view(entries@).subrange(0, i as int)),
            decreases entries@.len() - i,
        {
            proof {
                lemma_entries_view_index(entries@, i as int);
            }
            let ghost prefix1 = entries_view(entries@).subrange(0, i as int + 1);
            proof {
                assert(prefix1.drop_last() =~= entries_view(entries@).subrange(0, i as int));
                assert(prefix1.last() == entries_view(entries@)[i as int]);
            }
            let single = Bindings::of(entries[i].0.clone(), &entries[i].1);
            out = out.join(&single);
            i += 1;
        }
        proof {
            assert(entries_view(entries@).subrange(0, entries@.len() as int) =~= entries_view(
                entries@,
            ));
        }
        out
    }

    /// The merge of this binding set with another; on a shared key the
    /// other set's entry wins.
    pub fn join(&self, other: &Bindings) -> (r: Bindings)
        ensures
            r@ == b_join(self@, other@),
    {
        let mut out: Vec<(Ident, SExpr)> = Vec::new();
        let mut i: usize = 0;
        proof {
            lemma_entries_view_len(self.entries@);
        }
        while i < self.entries.len()
            invariant
                i <= self.entries@.len(),
                entries_view(self.entries@).len() == self.entries@.len(),
                entries_view(out@) == b_minus(
                    entries_view(self.entries@).subrange(0, i as int),
                    other@,
                ),
            decreases self.entries@.len() - i,
        {
            assert(decreases_to!(self.entries@ => self.entries@[i as int]));
            proof {
                lemma_entries_view_index(self.entries@, i as int);
            }
            let ghost prefix1 = entries_view(self.entries@).subrange(0, i as int + 1);
            proof {
                assert(prefix1.drop_last() =~= entries_view(self.entries@).subrange(0, i as int));
                assert(prefix1.last() == entries_view(self.entries@)[i as int]);
            }
            if !entries_have_key(&other.entries, &self.entries[i].0) {
                let ghost out_old = out@;
                let id = self.entries[i].0.clone();
                let t = clone_term(&self.entries[i].1);
                out.push((id, t));
                proof {
                    crate::term::lemma_entries_view_push(out_old, out@.last());
                    assert(out_old.push(out@.last()) =~= out@);
                    assert(entries_view(out@) =~= b_minus(prefix1, other@));
                }
            }
            i += 1;
        }
        let mut j: usize = 0;
        proof {
            assert(entries_view(self.entries@).subrange(0, self.entries@.len() as int)
                =~= entries_view(self.entries@));
            lemma_entries_view_len(other.entries@);
        }
        while j < other.entries.len()
            invariant
                j <= other.entries@.len(),
                entries_view(other.entries@).len() == other.entries@.len(),
                entries_view(out@) == b_minus(self@, other@) + entries_view(
                    other.entries@,
                ).subrange(0, j as int),
            decreases other.entries@.len() - j,
        {
            assert(decreases_to!(other.entries@ => other.entries@[j as int]));
            proof {
                lemma_entries_view_index(other.entries@, j as int);
            }
            let ghost out_old = out@;
            let id = other.entries[j].0.clone();
            let t = clone_term(&other.entries[j].1);
            out.push((id, t));
            proof {
                crate::term::lemma_entries_view_push(out_old, out@.last());
                assert(out_old.push(out@.last()) =~= out@);
                assert(entries_view(out@) =~= b_minus(self@, other@) + entries_view(
                    other.entries@,
                ).subrange(0, j as int + 1));
            }
            j += 1;
        }
        proof {
            assert(entries_view(other.entries@).subrange(0, other.entries@.len() as int)
                =~= entries_view(other.entries@));
        }
        Bindings { entries: out }
    }

    /// The combination of two optional binding sets: the join of both when
    /// both are present, failure otherwise.
    pub fn intersect(a: Option<Bindings>, b: Option<Bindings>) -> (r: Option<Bindings>)
        ensures
            match r {
                Some(out) => b_intersect(opt_bindings_view(a), opt_bindings_view(b)) == Some(
                    out@,
                ),
                None => b_intersect(opt_bindings_view(a), opt_bindings_view(b)) is None,
            },
    {
        match (a, b) {
            (Some(x), Some(y)) => Some(x.join(&y)),
            _ => None,
        }
    }

    /// The term bound to the identifier, if any.
    pub fn lookup(&self, id: &Ident) -> (r: Option<SExpr>)
        ensures
            match r {
                Some(t) => b_lookup(self@, id@) == Some(t@),
                None => b_lookup(self@, id@) is None,
            },
    {
        proof {
            lemma_entries_view_len(self.entries@);
            assert(self@.subrange(0, self@.len() as int) =~= self@);
        }
        let mut i: usize = 0;
        while i < self.entries.len()
            invariant
                i <= self.entries@.len(),
                entries_view(self.entries@).len() == self.entries@.len(),
                b_lookup(self@, id@) == b_lookup(self@.subrange(i as int, self@.len() as int), id@),
            decreases self.entries@.len() - i,
        {
            proof {
                lemma_entries_view_index(self.entries@, i as int);
            }
            let ghost tail = self@.subrange(i as int, self@.len() as int);
            proof {
                assert(tail[0] == self@[i as int]);
                assert(tail.drop_first() =~= self@.subrange(i as int + 1, self@.len() as int));
            }
            if ident_eq(&self.entries[i].0, id) {
                let t = clone_term(&self.entries[i].1);
                return Some(t);
            }
            i += 1;
        }
        proof {
            assert(self@.subrange(self@.len() as int, self@.len() as int) =~= Seq::<(
                IdentV,
                TermV,
            )>::empty());
        }
        None
    }
}

/// The contents of an entry sequence as a binding set, later entries
/// winning on a shared key.
pub open spec fn b_of_contents(entries: BindingsV) -> BindingsV
    decreases entries,
{
    if entries.len() == 0 {
        Seq::empty()
    } else {
        b_join(b_of_contents(entries.drop_last()), seq![entries.last()])
    }
}

/// The view of an optional binding set.
pub open spec fn opt_bindings_view(b: Option<Bindings>) -> Option<BindingsV> {
    match b {
        Some(x) => Some(x@),
        None => None,
    }
}

/// The scope-stack environment: the one mutable resource of an evaluation,
/// owned by it and kept balanced on every exit path.
#[derive(Debug)]
pub struct Context {
    pub scopes: Vec<Bindings>,
}

/// The views of a scope stack, outermost first.
pub open spec fn env_view(s: Seq<Bindings>) -> Seq<BindingsV>
    decreases s,
{
    if s.len() == 0 {
        Seq::empty()
    } else {
        env_view(s.drop_last()).push(s.last()@)
    }
}

/// `env_view` maps the scope stack elementwise.
pub broadcast proof fn lemma_env_view_len(s: Seq<Bindings>)
    ensures
        (#[trigger] env_view(s)).len() == s.len(),
    decreases s,
{
    if s.len() > 0 {
        lemma_env_view_len(s.drop_last());
    }
}

/// The view of the `i`th scope is the `i`th element of `env_view`.
pub broadcast proof fn lemma_env_view_index(s: Seq<Bindings>, i: int)
    requires
        0 <= i < s.len(),
    ensures
        #[trigger] env_view(s)[i] == s[i]@,
    decreases s,
{
    lemma_env_view_len(s);
    if i < s.len() - 1 {
        lemma_env_view_index(s.drop_last(), i);
    }
}

impl View for Context {
    type V = Seq<BindingsV>;

    open spec fn view(&self) -> Seq<BindingsV> {
        env_view(self.scopes@)
    }
}

/// The innermost binding of an identifier across the scope stack.
pub open spec fn env_lookup(env: Seq<BindingsV>, k: IdentV) -> Option<TermV>
    decreases env,
{
    if env.len() == 0 {
        None
    } else {
        match b_lookup(env.last(), k) {
            Some(t) => Some(t),
            None => env_lookup(env.drop_last(), k),
        }
    }
}

impl Context {
    /// An environment with no scopes at all.
    pub fn empty() -> (r: Context)
        ensures
            r@ == Seq::<BindingsV>::empty(),
    {
        Context { scopes: Vec::new() }
    }

    /// Opens a fresh innermost scope.
    pub fn push_scope(&mut self)
        ensures
            final(self)@ == old(self)@.push(Seq::<(IdentV, TermV)>::empty()),
    {
        proof {
            lemma_env_view_len(self.scopes@);
        }
        let ghost scopes_old = self.scopes@;
        let fresh = Bindings::empty();
        let ghost fresh_v = fresh@;
        self.scopes.push(fresh);
        proof {
            assert(self.scopes@.drop_last() =~= scopes_old);
            assert(self.scopes@.len() == scopes_old.len() + 1);
            assert(env_view(self.scopes@) == env_view(self.scopes@.drop_last()).push(
                self.scopes@.last()@,
            ));
            assert(self.scopes@.last()@ == fresh_v);
            assert(final(self)@ == old(self)@.push(Seq::<(IdentV, TermV)>::empty()));
        }
    }

    /// Closes the innermost scope.  The stack is LIFO: only a scope that
    /// was pushed can be popped.
    pub fn pop_scope(&mut self)
        requires
            old(self)@.len() > 0,
        ensures
            final(self)@ == old(self)@.drop_last(),
    {
        proof {
            lemma_env_view_len(self.scopes@);
        }
        let _ = self.scopes.pop();
        proof {
            assert(env_view(self.scopes@) =~= old(self)@.drop_last()) by {
                lemma_env_view_len(self.scopes@);
                assert forall|i: int| 0 <= i < self.scopes@.len() implies env_view(
                    self.scopes@,
                )[i] == old(self)@.drop_last()[i] by {
                    lemma_env_view_index(self.scopes@, i);
                    lemma_env_view_index(old(self).scopes@, i);
                }
            }
        }
    }

    /// Merges a whole binding set into the current innermost scope; the
    /// new bindings win on a shared key.
    pub fn add_bindings(&mut self, b: &Bindings)
        requires
            old(self)@.len() > 0,
        ensures
            final(self)@ == old(self)@.update(
                old(self)@.len() - 1,
                b_join(old(self)@.last(), b@),
            ),
    {
        proof {
            lemma_env_view_len(self.scopes@);
            lemma_env_view_index(self.scopes@, self.scopes@.len() - 1);
        }
        let n = self.scopes.len();
        let joined = self.scopes[n - 1].join(b);
        self.scopes.set(n - 1, joined);
        proof {
            assert(env_view(self.scopes@) =~= old(self)@.update(
                old(self)@.len() - 1,
                b_join(old(self)@.last(), b@),
            )) by {
                lemma_env_view_len(self.scopes@);
                assert forall|i: int| 0 <= i < self.scopes@.len() implies env_view(
                    self.scopes@,
                )[i] == old(self)@.update(old(self)@.len() - 1, b_join(old(self)@.last(), b@))[i]
                by {
                    lemma_env_view_index(self.scopes@, i);
                    lemma_env_view_index(old(self).scopes@, i);
                }
            }
        }
    }

    /// The innermost binding of the identifier across the scope stack,
    /// innermost scope winning.
    pub fn lookup(&self, id: &Ident) -> (r: Option<SExpr>)
        ensures
            match r {
                Some(t) => env_lookup(self@, id@) == Some(t@),
                None => env_lookup(self@, id@) is None,
            },
    {
        proof {
            lemma_env_view_len(self.scopes@);
            assert(self@.subrange(0, self@.len() as int) =~= self@);
        }
        let mut i: usize = self.scopes.len();
        while i > 0
            invariant
                i <= self.scopes@.len(),
                self@.len() == self.scopes@.len(),
                env_lookup(self@, id@) == env_lookup(self@.subrange(0, i as int), id@),
            decreases i,
        {
            i -= 1;
            proof {
                lemma_env_view_index(self.scopes@, i as int);
            }
            let ghost prefix1 = self@.subrange(0, i as int + 1);
            proof {
                assert(prefix1.drop_last() =~= self@.subrange(0, i as int));
                assert(prefix1.last() == self@[i as int]);
            }
            match self.scopes[i].lookup(id) {
                Some(t) => {
                    return Some(t);
                },
                None => {},
            }
        }
        proof {
            assert(self@.subrange(0, 0) =~= Seq::<BindingsV>::empty());
        }
        None
    }
}

} // verus!
