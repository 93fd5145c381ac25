//! Classification of terms: literal-matching and single-position
//! predicates, the variant tag, and the shape accessors.
//!
//! The value-only forms `Spread` and `Never` never appear where these
//! predicates are consulted by the matcher; they are classified as neither
//! literal nor singular, so a pattern that still carries one falls through
//! to the matcher's internal-fault case instead of faulting here.

use vstd::prelude::*;

use crate::term::{
    lemma_seq_view_index, lemma_seq_view_len, seq_view, term_view, Fun, Ident, Number, SExpr,
    SExprKind, TermV,
};

verus! {

/// True for the forms compared literally by the matcher: `Sigil`,
/// `Identifier`, `Number`, `Operation`, and a `List` whose every element
/// matches literally.
pub open spec fn literal_of(t: TermV) -> bool
    decreases t,
{
    match t {
        TermV::Sigil(_) => true,
        TermV::Ident(_) => true,
        TermV::Number(_) => true,
        TermV::Operation(_) => true,
        TermV::List(ls) => all_literal(ls),
        _ => false,
    }
}

/// True when every element of the sequence matches literally.
pub open spec fn all_literal(s: Seq<TermV>) -> bool
    decreases s,
{
    if s.len() == 0 {
        true
    } else {
        literal_of(s.last()) && all_literal(s.drop_last())
    }
}

/// `all_literal` holds exactly when every element is literal.
pub broadcast proof fn lemma_all_literal_characterisation(s: Seq<TermV>)
    ensures
        #[trigger] all_literal(s) <==> (forall|i: int|
            0 <= i < s.len() ==> literal_of(#[trigger] s[i])),
    decreases s,
{
    if s.len() > 0 {
        lemma_all_literal_characterisation(s.drop_last());
        assert(forall|i: int| 0 <= i < s.len() - 1 ==> s.drop_last()[i] == #[trigger] s[i]);
    }
}

/// True for the simple single-position forms; true for `PtnAcc` only when
/// every inner sub-pattern is singular; false for the variable-width forms
/// (`Consecutive`, `Kleene`, `AtPtnTime`, `ZeroWidth`).
pub open spec fn singular_of(t: TermV) -> bool
    decreases t,
{
    match t {
        TermV::Sigil(_) => true,
        TermV::Ident(_) => true,
        TermV::LitMatch(_) => true,
        TermV::List(_) => true,
        TermV::Place(_) => true,
        TermV::Fun(_) => true,
        TermV::UnarySigilApp(_, _) => true,
        TermV::Number(_) => true,
        TermV::Operation(_) => true,
        TermV::PtnAcc { pats, .. } => all_singular(pats),
        _ => false,
    }
}

/// True when every element of the sequence is singular.
pub open spec fn all_singular(s: Seq<TermV>) -> bool
    decreases s,
{
    if s.len() == 0 {
        true
    } else {
        singular_of(s.last()) && all_singular(s.drop_last())
    }
}

/// `all_singular` holds exactly when every element is singular.
pub broadcast proof fn lemma_all_singular_characterisation(s: Seq<TermV>)
    ensures
        #[trigger] all_singular(s) <==> (forall|i: int|
            0 <= i < s.len() ==> singular_of(#[trigger] s[i])),
    decreases s,
{
    if s.len() > 0 {
        lemma_all_singular_characterisation(s.drop_last());
        assert(forall|i: int| 0 <= i < s.len() - 1 ==> s.drop_last()[i] == #[trigger] s[i]);
    }
}

/// The variant tag of a term view.
pub open spec fn kind_of(t: TermV) -> SExprKind {
    match t {
        TermV::Sigil(_) => SExprKind::Sigil,
        TermV::List(_) => SExprKind::List,
        TermV::Ident(_) => SExprKind::Ident,
        TermV::Place(_) => SExprKind::Place,
        TermV::Number(_) => SExprKind::Number,
        TermV::Fun(_) => SExprKind::Fun,
        TermV::UnarySigilApp(_, _) => SExprKind::UnarySigilApp,
        TermV::Operation(_) => SExprKind::Operation,
        TermV::PtnAcc { .. } => SExprKind::PtnAcc,
        TermV::Consecutive(_) => SExprKind::Consecutive,
        TermV::Spread(_) => SExprKind::Spread,
        TermV::Kleene { .. } => SExprKind::Kleene,
        TermV::AtPtnTime(_) => SExprKind::AtPtnTime,
        TermV::LitMatch(_) => SExprKind::LitMatch,
        TermV::ZeroWidth(_) => SExprKind::ZeroWidth,
        TermV::Never => SExprKind::Never,
    }
}

/// Whether every element of a term vector matches literally.
fn all_literal_exec(v: &Vec<SExpr>) -> (r: bool)
    ensures
        r == all_literal(seq_view(v@)),
    decreases v@, 0int,
{
    let mut i: usize = 0;
    while i < v.len()
        invariant
            i <= v@.len(),
            forall|j: int| 0 <= j < i ==> literal_of(term_view(#[trigger] v@[j])),
        decreases v@.len() - i,
    {
        assert(decreases_to!(v@ => v@[i as int]));
        proof {
            lemma_seq_view_len(v@);
            lemma_seq_view_index(v@, i as int);
            lemma_all_literal_characterisation(seq_view(v@));
        }
        if !v[i].matches_literally() {
            assert(!all_literal(seq_view(v@)));
            return false;
        }
        i += 1;
    }
    proof {
        lemma_seq_view_len(v@);
        lemma_all_literal_characterisation(seq_view(v@));
        assert forall|j: int| 0 <= j < seq_view(v@).len() implies literal_of(
            #[trigger] seq_view(v@)[j],
        ) by {
            lemma_seq_view_index(v@, j);
        }
    }
    true
}

/// Whether every element of a term vector is singular.
fn all_singular_exec(v: &Vec<SExpr>) -> (r: bool)
    ensures
        r == all_singular(seq_view(v@)),
    decreases v@, 0int,
{
    let mut i: usize = 0;
    while i < v.len()
        invariant
            i <= v@.len(),
            forall|j: int| 0 <= j < i ==> singular_of(term_view(#[trigger] v@[j])),
        decreases v@.len() - i,
    {
        assert(decreases_to!(v@ => v@[i as int]));
        proof {
            lemma_seq_view_len(v@);
            lemma_seq_view_index(v@, i as int);
            lemma_all_singular_characterisation(seq_view(v@));
        }
        if !v[i].matches_singular() {
            assert(!all_singular(seq_view(v@)));
            return false;
        }
        i += 1;
    }
    proof {
        lemma_seq_view_len(v@);
        lemma_all_singular_characterisation(seq_view(v@));
        assert forall|j: int| 0 <= j < seq_view(v@).len() implies singular_of(
            #[trigger] seq_view(v@)[j],
        ) by {
            lemma_seq_view_index(v@, j);
        }
    }
    true
}

impl SExpr {
    /// Whether the term is compared literally by the matcher.
    pub fn matches_literally(&self) -> (r: bool)
        ensures
            r == literal_of(self@),
        decreases *self, 1int,
    {
        match self {
            SExpr::Sigil(_) => true,
            SExpr::Ident(_) => true,
            SExpr::Number(_) => true,
            SExpr::Operation(_) => true,
            SExpr::List(ls) => all_literal_exec(ls),
            _ => false,
        }
    }

    /// Whether the term occupies exactly one position in a list match.
    pub fn matches_singular(&self) -> (r: bool)
        ensures
            r == singular_of(self@),
        decreases *self, 1int,
    {
        match self {
            SExpr::Sigil(_) => true,
            SExpr::Ident(_) => true,
            SExpr::LitMatch(_) => true,
            SExpr::List(_) => true,
            SExpr::Place(_) => true,
            SExpr::Fun(_) => true,
            SExpr::UnarySigilApp(_, _) => true,
            SExpr::Number(_) => true,
            SExpr::Operation(_) => true,
            SExpr::PtnAcc { pats, .. } => all_singular_exec(pats),
            _ => false,
        }
    }

    /// The variant tag of the term.
    pub fn kind(&self) -> (r: SExprKind)
        ensures
            r == kind_of(self@),
    {
        match self {
            SExpr::Sigil(_) => SExprKind::Sigil,
            SExpr::List(_) => SExprKind::List,
            SExpr::Ident(_) => SExprKind::Ident,
            SExpr::Place(_) => SExprKind::Place,
            SExpr::Number(_) => SExprKind::Number,
            SExpr::Fun(_) => SExprKind::Fun,
            SExpr::UnarySigilApp(_, _) => SExprKind::UnarySigilApp,
            SExpr::Operation(_) => SExprKind::Operation,
            SExpr::PtnAcc { .. } => SExprKind::PtnAcc,
            SExpr::Consecutive(_) => SExprKind::Consecutive,
            SExpr::Spread(_) => SExprKind::Spread,
            SExpr::Kleene { .. } => SExprKind::Kleene,
            SExpr::AtPtnTime(_) => SExprKind::AtPtnTime,
            SExpr::LitMatch(_) => SExprKind::LitMatch,
            SExpr::ZeroWidth(_) => SExprKind::ZeroWidth,
            SExpr::Never => SExprKind::Never,
        }
    }

    /// The numeric payload, when the term is a `Number`.
    pub fn as_number(self) -> (r: Option<Number>)
        ensures
            match r {
                Some(n) => self@ == TermV::Number(n@),
                None => !(self@ is Number),
            },
    {
        match self {
            SExpr::Number(n) => Some(n),
            _ => None,
        }
    }

    /// The identifier payload, when the term is an `Ident`.
    pub fn as_ident(self) -> (r: Option<Ident>)
        ensures
            match r {
                Some(id) => self@ == TermV::Ident(id@),
                None => !(self@ is Ident),
            },
    {
        match self {
            SExpr::Ident(id) => Some(id),
            _ => None,
        }
    }

    /// The element vector, when the term is a `List`.
    pub fn as_list(self) -> (r: Option<Vec<SExpr>>)
        ensures
            match r {
                Some(ls) => self@ == TermV::List(seq_view(ls@)),
                None => !(self@ is List),
            },
    {
        match self {
            SExpr::List(ls) => Some(ls),
            _ => None,
        }
    }

    /// The sigil character, when the term is a `Sigil`.
    pub fn as_sigil(self) -> (r: Option<char>)
        ensures
            match r {
                Some(c) => self@ == TermV::Sigil(c),
                None => !(self@ is Sigil),
            },
    {
        match self {
            SExpr::Sigil(c) => Some(c),
            _ => None,
        }
    }

    /// The closure payload, when the term is a `Fun`.
    pub fn as_fun(self) -> (r: Option<Fun>)
        ensures
            match r {
                Some(f) => self@ == TermV::Fun(f@),
                None => !(self@ is Fun),
            },
    {
        match self {
            SExpr::Fun(f) => Some(f),
            _ => None,
        }
    }

    /// The solidified sub-term: the argument of an application of the
    /// solidifying sigil `:`.
    pub fn as_solidified(self) -> (r: Option<SExpr>)
        ensures
            match r {
                Some(t) => self@ == TermV::UnarySigilApp(':', Box::new(t@)),
                None => !(self@ matches TermV::UnarySigilApp(c, _) && c == ':'),
            },
    {
        match self {
            SExpr::UnarySigilApp(c, thing) => {
                if c == ':' {
                    Some(*thing)
                } else {
                    None
                }
            },
            _ => None,
        }
    }
}

} // verus!
