//! The term algebra: the closed set of term variants, together with the
//! mathematical view of every value-level type.
//!
//! Each executable type has a view type whose fields are `Seq` and `int`
//! based, so that every contract in the crate can be stated over pure
//! mathematical values.

use vstd::prelude::*;

verus! {

/// A builtin primitive operation, exposed as a term variant.  The set is
/// closed; each member is given meaning by the evaluator.
#[derive(Clone, Copy, PartialEq, Eq, Structural, Debug)]
pub enum Builtin {
    /// Numeric addition of the two arguments bound to the conventional
    /// parameter names "0" and "1".
    Add,
    /// The growth step of an open repetition that accepts any element:
    /// given the pattern sequence grown so far (bound to parameter "0"),
    /// yields the element to append next, a match-anything place.
    GrowAny,
}

/// An identifier: an ordered name path plus a top-level-namespace flag.
///
/// Identifiers are compared structurally.  A host that interns them
/// compares handles instead; the interner guarantees that structurally
/// equal identifiers share a handle, so the two notions agree.
#[derive(Debug, PartialOrd, Ord)]
pub struct Ident {
    pub names: Vec<String>,
    pub tl_ns: bool,
}

/// Mathematical view of an identifier.
#[verifier::ext_equal]
pub struct IdentV {
    pub names: Seq<Seq<char>>,
    pub tl_ns: bool,
}

impl View for Ident {
    type V = IdentV;

    open spec fn view(&self) -> IdentV {
        IdentV { names: self.names.deep_view(), tl_ns: self.tl_ns }
    }
}

impl Ident {
    pub fn new(names: Vec<String>, tl_ns: bool) -> (r: Ident)
        ensures
            r@ == (IdentV { names: names.deep_view(), tl_ns }),
    {
        Ident { names, tl_ns }
    }
}

/// A numeric value with an inclusive `[min, max]` range tag.  The concrete
/// arbitrary-precision representation is an outside collaborator; the core
/// holds a fixed-width stand-in and reports range exhaustion as an error
/// instead of growing.  The tag is advisory and does not take part in
/// structural equality.
#[derive(Debug, Clone, Copy)]
pub struct Number {
    pub value: i128,
    pub min: i128,
    pub max: i128,
}

/// Mathematical view of a number.
#[verifier::ext_equal]
pub struct NumberV {
    pub value: int,
    pub min: int,
    pub max: int,
}

impl View for Number {
    type V = NumberV;

    open spec fn view(&self) -> NumberV {
        NumberV { value: self.value as int, min: self.min as int, max: self.max as int }
    }
}

impl Number {
    /// A number tagged with the singleton range holding exactly its value.
    pub fn of_value(value: i128) -> (r: Number)
        ensures
            r@ == (NumberV { value: value as int, min: value as int, max: value as int }),
    {
        Number { value, min: value, max: value }
    }
}

/// A closure: body term, parameter-pattern term, and a captured-bindings
/// snapshot copied by value at creation time.
#[derive(Debug)]
pub struct Fun {
    pub body: Box<SExpr>,
    pub args_ptn: Box<SExpr>,
    pub closure: Box<Bindings>,
}

/// An immutable mapping from identifier to term, with unique keys, kept in
/// insertion order.
#[derive(Debug)]
pub struct Bindings {
    pub entries: Vec<(Ident, SExpr)>,
}

/// A term: the closed, recursively-defined value/pattern representation.
#[derive(Debug)]
pub enum SExpr {
    /// Reference to a sigil-bound operator or value.
    Sigil(char),
    /// Ordered sequence of terms: both data lists and argument lists.
    List(Vec<SExpr>),
    /// Reference to a name resolved in the environment.
    Ident(Ident),
    /// Pattern-only capture site: binds whatever it matches.
    Place(Ident),
    /// Immutable numeric value.
    Number(Number),
    /// A closure.
    Fun(Fun),
    /// A sigil applied, unevaluated, to one argument term.
    UnarySigilApp(char, Box<SExpr>),
    /// A builtin primitive.
    Operation(Builtin),
    /// Pattern-only fold: combine the match results of a sequence of
    /// sub-patterns via a user function.
    PtnAcc { acc: Fun, init: Option<Bindings>, pats: Vec<SExpr> },
    /// Pattern-only: match an exact-length contiguous block.
    Consecutive(Vec<SExpr>),
    /// Value-only marker: splice contents into an enclosing list at
    /// simplify time.
    Spread(Vec<SExpr>),
    /// Pattern-only open-ended repetition, grown by applying `next` to the
    /// pattern sequence so far.
    Kleene { start: Box<SExpr>, next: Fun },
    /// Pattern-only: evaluate the term as a zero-argument call at match
    /// time to obtain the real pattern.
    AtPtnTime(Box<SExpr>),
    /// Forces literal/structural comparison of a sub-term.
    LitMatch(Box<SExpr>),
    /// Pattern-only assertion that consumes no position in the enclosing
    /// list match.
    ZeroWidth(Box<SExpr>),
    /// Unreachable-state marker; observing it as a normal result is always
    /// an invariant violation.
    Never,
}

/// The tag of a term variant.
#[derive(Clone, Copy, PartialEq, Eq, Structural, Debug)]
pub enum SExprKind {
    Sigil,
    List,
    Ident,
    Place,
    Fun,
    UnarySigilApp,
    Number,
    Operation,
    Keyword,
    Spread,
    Rest,
    AtPtnTime,
    PtnAcc,
    LitMatch,
    Consecutive,
    Kleene,
    ZeroWidth,
    Never,
}

/// Mathematical view of a closure.
#[verifier::ext_equal]
pub struct FunV {
    pub body: Box<TermV>,
    pub args_ptn: Box<TermV>,
    pub closure: BindingsV,
}

/// Mathematical view of a binding set: an association sequence with unique
/// keys.
pub type BindingsV = Seq<(IdentV, TermV)>;

/// Mathematical view of a term.
#[verifier::ext_equal]
pub enum TermV {
    Sigil(char),
    List(Seq<TermV>),
    Ident(IdentV),
    Place(IdentV),
    Number(NumberV),
    Fun(FunV),
    UnarySigilApp(char, Box<TermV>),
    Operation(Builtin),
    PtnAcc { acc: FunV, init: Option<BindingsV>, pats: Seq<TermV> },
    Consecutive(Seq<TermV>),
    Spread(Seq<TermV>),
    Kleene { start: Box<TermV>, next: FunV },
    AtPtnTime(Box<TermV>),
    LitMatch(Box<TermV>),
    ZeroWidth(Box<TermV>),
    Never,
}

/// The views of the elements of a term sequence, in order.
pub open spec fn seq_view(s: Seq<SExpr>) -> Seq<TermV>
    decreases s,
{
    if s.len() == 0 {
        Seq::empty()
    } else {
        seq_view(s.drop_last()).push(term_view(s.last()))
    }
}

/// The views of the entries of a binding list, in order.
pub open spec fn entries_view(s: Seq<(Ident, SExpr)>) -> Seq<(IdentV, TermV)>
    decreases s,
{
    if s.len() == 0 {
        Seq::empty()
    } else {
        entries_view(s.drop_last()).push((s.last().0@, term_view(s.last().1)))
    }
}

/// Mathematical view of a closure value.
pub open spec fn fun_view(f: Fun) -> FunV
    decreases f,
{
    FunV {
        body: Box::new(term_view(*f.body)),
        args_ptn: Box::new(term_view(*f.args_ptn)),
        closure: entries_view(f.closure.entries@),
    }
}

/// Mathematical view of a term value.
pub open spec fn term_view(e: SExpr) -> TermV
    decreases e,
{
    match e {
        SExpr::Sigil(c) => TermV::Sigil(c),
        SExpr::List(ls) => TermV::List(seq_view(ls@)),
        SExpr::Ident(id) => TermV::Ident(id@),
        SExpr::Place(id) => TermV::Place(id@),
        SExpr::Number(n) => TermV::Number(n@),
        SExpr::Fun(f) => TermV::Fun(fun_view(f)),
        SExpr::UnarySigilApp(c, a) => TermV::UnarySigilApp(c, Box::new(term_view(*a))),
        SExpr::Operation(b) => TermV::Operation(b),
        SExpr::PtnAcc { acc, init, pats } => TermV::PtnAcc {
            acc: fun_view(acc),
            init: match init {
                Some(b) => Some(entries_view(b.entries@)),
                None => None,
            },
            pats: seq_view(pats@),
        },
        SExpr::Consecutive(ls) => TermV::Consecutive(seq_view(ls@)),
        SExpr::Spread(ls) => TermV::Spread(seq_view(ls@)),
        SExpr::Kleene { start, next } => TermV::Kleene {
            start: Box::new(term_view(*start)),
            next: fun_view(next),
        },
        SExpr::AtPtnTime(a) => TermV::AtPtnTime(Box::new(term_view(*a))),
        SExpr::LitMatch(a) => TermV::LitMatch(Box::new(term_view(*a))),
        SExpr::ZeroWidth(a) => TermV::ZeroWidth(Box::new(term_view(*a))),
        SExpr::Never => TermV::Never,
    }
}

impl View for SExpr {
    type V = TermV;

    open spec fn view(&self) -> TermV {
        term_view(*self)
    }
}

impl View for Fun {
    type V = FunV;

    open spec fn view(&self) -> FunV {
        fun_view(*self)
    }
}

impl View for Bindings {
    type V = BindingsV;

    open spec fn view(&self) -> BindingsV {
        entries_view(self.entries@)
    }
}

/// `seq_view` maps the sequence elementwise.
pub broadcast proof fn lemma_seq_view_len(s: Seq<SExpr>)
    ensures
        (#[trigger] seq_view(s)).len() == s.len(),
    decreases s,
{
    if s.len() > 0 {
        lemma_seq_view_len(s.drop_last());
    }
}

/// The view of the `i`th element is the `i`th element of `seq_view`.
pub broadcast proof fn lemma_seq_view_index(s: Seq<SExpr>, i: int)
    requires
        0 <= i < s.len(),
    ensures
        #[trigger] seq_view(s)[i] == term_view(s[i]),
    decreases s,
{
    lemma_seq_view_len(s);
    if i < s.len() - 1 {
        lemma_seq_view_index(s.drop_last(), i);
    }
}

/// `seq_view` commutes with subrange.
pub broadcast proof fn lemma_seq_view_subrange(s: Seq<SExpr>, i: int, j: int)
    requires
        0 <= i <= j <= s.len(),
    ensures
        #[trigger] seq_view(s.subrange(i, j)) =~= seq_view(s).subrange(i, j),
{
    broadcast use lemma_seq_view_len, lemma_seq_view_index;

}

/// `seq_view` commutes with push.
pub broadcast proof fn lemma_seq_view_push(s: Seq<SExpr>, e: SExpr)
    ensures
        #[trigger] seq_view(s.push(e)) =~= seq_view(s).push(term_view(e)),
{
    broadcast use lemma_seq_view_len, lemma_seq_view_index;

}

/// `entries_view` maps the entry sequence elementwise.
pub broadcast proof fn lemma_entries_view_len(s: Seq<(Ident, SExpr)>)
    ensures
        (#[trigger] entries_view(s)).len() == s.len(),
    decreases s,
{
    if s.len() > 0 {
        lemma_entries_view_len(s.drop_last());
    }
}

/// The view of the `i`th entry is the `i`th entry of `entries_view`.
pub broadcast proof fn lemma_entries_view_index(s: Seq<(Ident, SExpr)>, i: int)
    requires
        0 <= i < s.len(),
    ensures
        #[trigger] entries_view(s)[i] == (s[i].0@, term_view(s[i].1)),
    decreases s,
{
    lemma_entries_view_len(s);
    if i < s.len() - 1 {
        lemma_entries_view_index(s.drop_last(), i);
    }
}

/// `entries_view` commutes with push.
pub broadcast proof fn lemma_entries_view_push(s: Seq<(Ident, SExpr)>, e: (Ident, SExpr))
    ensures
        #[trigger] entries_view(s.push(e)) =~= entries_view(s).push((e.0@, term_view(e.1))),
{
    broadcast use lemma_entries_view_len, lemma_entries_view_index;

}

impl Clone for Ident {
    fn clone(&self) -> (res: Self)
        ensures
            res@ == self@,
    {
        let mut names: Vec<String> = Vec::new();
        let mut i: usize = 0;
        while i < self.names.len()
            invariant
                i <= self.names.len(),
                names@.len() == i,
                forall|j: int| 0 <= j < i ==> names@[j] == self.names@[j],
            decreases self.names.len() - i,
        {
            names.push(self.names[i].clone());
            i += 1;
        }
        assert(names@ =~= self.names@);
        Ident { names, tl_ns: self.tl_ns }
    }
}

/// A copy of a term, equal to the original at the view level.
pub fn clone_term(e: &SExpr) -> (res: SExpr)
    ensures
        res@ == e@,
    decreases *e,
{
    match e {
        SExpr::Sigil(c) => SExpr::Sigil(*c),
        SExpr::List(ls) => SExpr::List(clone_terms(ls)),
        SExpr::Ident(id) => SExpr::Ident(id.clone()),
        SExpr::Place(id) => SExpr::Place(id.clone()),
        SExpr::Number(n) => SExpr::Number(*n),
        SExpr::Fun(f) => SExpr::Fun(clone_fun(f)),
        SExpr::UnarySigilApp(c, a) => SExpr::UnarySigilApp(*c, Box::new(clone_term(a))),
        SExpr::Operation(b) => SExpr::Operation(*b),
        SExpr::PtnAcc { acc, init, pats } => {
            let init2 = match init {
                Some(b) => Some(clone_bindings(b)),
                None => None,
            };
            SExpr::PtnAcc { acc: clone_fun(acc), init: init2, pats: clone_terms(pats) }
        },
        SExpr::Consecutive(ls) => SExpr::Consecutive(clone_terms(ls)),
        SExpr::Spread(ls) => SExpr::Spread(clone_terms(ls)),
        SExpr::Kleene { start, next } => SExpr::Kleene {
            start: Box::new(clone_term(start)),
            next: clone_fun(next),
        },
        SExpr::AtPtnTime(a) => SExpr::AtPtnTime(Box::new(clone_term(a))),
        SExpr::LitMatch(a) => SExpr::LitMatch(Box::new(clone_term(a))),
        SExpr::ZeroWidth(a) => SExpr::ZeroWidth(Box::new(clone_term(a))),
        SExpr::Never => SExpr::Never,
    }
}

/// A copy of a term vector, elementwise equal at the view level.
pub fn clone_terms(v: &Vec<SExpr>) -> (res: Vec<SExpr>)
    ensures
        seq_view(res@) == seq_view(v@),
    decreases v@,
{
    broadcast use lemma_seq_view_len, lemma_seq_view_index;

    let mut out: Vec<SExpr> = Vec::new();
    let mut i: usize = 0;
    while i < v.len()
        invariant
            i <= v@.len(),
            out@.len() == i,
            forall|j: int| 0 <= j < i ==> term_view(#[trigger] out@[j]) == term_view(v@[j]),
        decreases v@.len() - i,
    {
        assert(decreases_to!(v@ => v@[i as int]));
        out.push(clone_term(&v[i]));
        i += 1;
    }
    assert(seq_view(out@) =~= seq_view(v@));
    out
}

/// A copy of a sub-vector of terms, equal at the view level to the
/// corresponding subrange of the input's views.
pub fn sub_terms(v: &Vec<SExpr>, from: usize, to: usize) -> (res: Vec<SExpr>)
    requires
        from <= to <= v@.len(),
    ensures
        seq_view(res@) == seq_view(v@).subrange(from as int, to as int),
{
    broadcast use lemma_seq_view_len, lemma_seq_view_index;

    let mut out: Vec<SExpr> = Vec::new();
    let mut i: usize = from;
    while i < to
        invariant
            from <= i <= to <= v@.len(),
            out@.len() == i - from,
            forall|j: int| 0 <= j < i - from ==> term_view(#[trigger] out@[j]) == term_view(
                v@[from + j],
            ),
        decreases to - i,
    {
        out.push(clone_term(&v[i]));
        i += 1;
    }
    assert(seq_view(out@) =~= seq_view(v@).subrange(from as int, to as int));
    out
}

/// A copy of a closure, equal to the original at the view level.
pub fn clone_fun(f: &Fun) -> (res: Fun)
    ensures
        res@ == f@,
    decreases *f,
{
    let res = Fun {
        body: Box::new(clone_term(&f.body)),
        args_ptn: Box::new(clone_term(&f.args_ptn)),
        closure: Box::new(clone_bindings(&f.closure)),
    };
    assert(res@ =~= f@);
    res
}

/// A copy of a binding set, equal to the original at the view level.
pub fn clone_bindings(b: &Bindings) -> (res: Bindings)
    ensures
        res@ == b@,
    decreases *b,
{
    broadcast use lemma_entries_view_len, lemma_entries_view_index;

    let mut out: Vec<(Ident, SExpr)> = Vec::new();
    let mut i: usize = 0;
    while i < b.entries.len()
        invariant
            i <= b.entries@.len(),
            out@.len() == i,
            forall|j: int| 0 <= j < i ==> (#[trigger] out@[j]).0@ == b.entries@[j].0@
                && term_view(out@[j].1) == term_view(b.entries@[j].1),
        decreases b.entries@.len() - i,
    {
        assert(decreases_to!(b.entries@ => b.entries@[i as int]));
        let id = b.entries[i].0.clone();
        let t = clone_term(&b.entries[i].1);
        out.push((id, t));
        i += 1;
    }
    let res = Bindings { entries: out };
    assert(res@ =~= b@);
    res
}

impl Clone for SExpr {
    fn clone(&self) -> (res: Self)
        ensures
            res@ == self@,
    {
        clone_term(self)
    }
}

impl Clone for Fun {
    fn clone(&self) -> (res: Self)
        ensures
            res@ == self@,
    {
        clone_fun(self)
    }
}

impl Clone for Bindings {
    fn clone(&self) -> (res: Self)
        ensures
            res@ == self@,
    {
        clone_bindings(self)
    }
}

} // verus!
