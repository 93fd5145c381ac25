//! Conversions between binding sets and their term encoding.
//!
//! A binding set travels through user code as a list of two-element lists,
//! each pairing a solidified identifier with the bound term.  An optional
//! binding set is a list headed by a solidified `some` or `none` marker.
//! These encodings are what a pattern-fold's user function receives and
//! returns.

use unicode_segmentation::UnicodeSegmentation;
use vstd::prelude::*;

use crate::bindings::b_of_contents;
use crate::eq::{sexpr_eq, term_eq};
use crate::error::{ErrV, InterpreterError, InterpreterErrorInfo};
use crate::term::{
    clone_term, entries_view, lemma_entries_view_index, lemma_entries_view_len,
    lemma_seq_view_index, lemma_seq_view_len, seq_view, term_view, Bindings, BindingsV, Fun,
    Ident, IdentV, SExpr, TermV,
};

verus! {

/// The solidified identifier with the given single name: the sigil `:`
/// applied to the identifier.
pub open spec fn solid_marker(name: Seq<char>) -> TermV {
    TermV::UnarySigilApp(
        ':',
        Box::new(TermV::Ident(IdentV { names: seq![name], tl_ns: false })),
    )
}

/// The marker heading the encoding of a present optional value.
pub open spec fn some_marker() -> TermV {
    solid_marker("some"@)
}

/// The marker heading the encoding of an absent optional value.
pub open spec fn none_marker() -> TermV {
    solid_marker("none"@)
}

/// The term encoding of a binding set: a list of solidified-identifier /
/// term pairs, in order.
pub open spec fn bindings_to_term(b: BindingsV) -> TermV {
    TermV::List(
        b.map_values(
            |e: (IdentV, TermV)|
                TermV::List(
                    seq![TermV::UnarySigilApp(':', Box::new(TermV::Ident(e.0))), e.1],
                ),
        ),
    )
}

/// The term encoding of an optional binding set.
pub open spec fn opt_bindings_to_term(ob: Option<BindingsV>) -> TermV {
    match ob {
        Some(b) => TermV::List(seq![some_marker(), bindings_to_term(b)]),
        None => TermV::List(seq![none_marker()]),
    }
}

/// One decoded binding entry: a two-element list pairing a solidified
/// identifier with a term.
pub open spec fn entry_of_term(t: TermV) -> Result<(IdentV, TermV), ErrV> {
    match t {
        TermV::List(pair) => if pair.len() != 2 {
            Err(ErrV::CannotConvert(t))
        } else {
            match pair[0] {
                TermV::UnarySigilApp(c, inner) => if c == ':' {
                    match *inner {
                        TermV::Ident(id) => Ok((id, pair[1])),
                        _ => Err(ErrV::CannotConvert(pair[0])),
                    }
                } else {
                    Err(ErrV::CannotConvert(pair[0]))
                },
                _ => Err(ErrV::CannotConvert(pair[0])),
            }
        },
        _ => Err(ErrV::CannotConvert(t)),
    }
}

/// The decoded entries of an encoded binding list; the first failing
/// element decides the error.
pub open spec fn entries_of_terms(ls: Seq<TermV>) -> Result<Seq<(IdentV, TermV)>, ErrV>
    decreases ls,
{
    if ls.len() == 0 {
        Ok(Seq::empty())
    } else {
        match entries_of_terms(ls.drop_last()) {
            Err(e) => Err(e),
            Ok(rest) => match entry_of_term(ls.last()) {
                Err(e) => Err(e),
                Ok(en) => Ok(rest.push(en)),
            },
        }
    }
}

/// The binding set decoded from a term.
pub open spec fn bindings_of_term(t: TermV) -> Result<BindingsV, ErrV> {
    match t {
        TermV::List(ls) => match entries_of_terms(ls) {
            Err(e) => Err(e),
            Ok(entries) => Ok(b_of_contents(entries)),
        },
        _ => Err(ErrV::CannotConvert(t)),
    }
}

/// The optional binding set decoded from a term: a list of length one or
/// two headed by a solidified `some` or `none` marker.
pub open spec fn opt_bindings_of_term(t: TermV) -> Result<Option<BindingsV>, ErrV> {
    match t {
        TermV::List(ls) => if ls.len() == 0 || ls.len() > 2 {
            Err(ErrV::CannotConvert(t))
        } else if term_eq(ls[0], some_marker()) {
            if ls.len() == 2 {
                match bindings_of_term(ls[1]) {
                    Err(e) => Err(e),
                    Ok(b) => Ok(Some(b)),
                }
            } else {
                Err(ErrV::CannotConvert(t))
            }
        } else if term_eq(ls[0], none_marker()) {
            Ok(None)
        } else {
            Err(ErrV::CannotConvert(ls[0]))
        },
        _ => Err(ErrV::NotA(crate::term::SExprKind::List, t)),
    }
}

/// The solidified identifier with the given single name, as a term.
fn make_solid_marker(name: &str) -> (r: SExpr)
    ensures
        r@ == solid_marker(name@),
{
    let mut names: Vec<String> = Vec::new();
    names.push(<String as vstd::string::StringExecFns>::from_str(name));
    let id = Ident::new(names, false);
    proof {
        assert(id@.names =~= seq![name@]);
        assert(id@ =~~= (IdentV { names: seq![name@], tl_ns: false }));
    }
    let r = SExpr::UnarySigilApp(':', Box::new(SExpr::Ident(id)));
    proof {
        reveal_with_fuel(term_view, 3);
    }
    r
}

impl Bindings {
    /// The term encoding of this binding set.
    pub fn into_sexpr(&self) -> (r: SExpr)
        ensures
            r@ == bindings_to_term(self@),
    {
        proof {
            lemma_entries_view_len(self.entries@);
        }
        let mut out: Vec<SExpr> = Vec::new();
        let mut i: usize = 0;
        while i < self.entries.len()
            invariant
                i <= self.entries@.len(),
                self@.len() == self.entries@.len(),
                out@.len() == i,
                forall|j: int| 0 <= j < i ==> term_view(#[trigger] out@[j]) == TermV::List(
                    seq![
                        TermV::UnarySigilApp(':', Box::new(TermV::Ident(self@[j].0))),
                        self@[j].1,
                    ],
                ),
            decreases self.entries@.len() - i,
        {
            proof {
                lemma_entries_view_index(self.entries@, i as int);
            }
            let mut pair: Vec<SExpr> = Vec::new();
            let id = self.entries[i].0.clone();
            pair.push(SExpr::UnarySigilApp(':', Box::new(SExpr::Ident(id))));
            pair.push(clone_term(&self.entries[i].1));
            proof {
                reveal_with_fuel(term_view, 3);
                lemma_seq_view_len(pair@);
                lemma_seq_view_index(pair@, 0);
                lemma_seq_view_index(pair@, 1);
                assert(seq_view(pair@) =~= seq![
                    TermV::UnarySigilApp(
                        ':',
                        Box::new(TermV::Ident(self@[i as int].0)),
                    ),
                    self@[i as int].1,
                ]);
            }
            out.push(SExpr::List(pair));
            i += 1;
        }
        let r = SExpr::List(out);
        proof {
            lemma_seq_view_len(out@);
            assert forall|j: int| 0 <= j < out@.len() implies seq_view(out@)[j] == self@.map_values(
                |e: (IdentV, TermV)|
                    TermV::List(
                        seq![TermV::UnarySigilApp(':', Box::new(TermV::Ident(e.0))), e.1],
                    ),
            )[j] by {
                lemma_seq_view_index(out@, j);
            }
            assert(seq_view(out@) =~= self@.map_values(
                |e: (IdentV, TermV)|
                    TermV::List(
                        seq![TermV::UnarySigilApp(':', Box::new(TermV::Ident(e.0))), e.1],
                    ),
            ));
        }
        r
    }

    /// The binding set decoded from a term: a list of solidified-identifier
    /// / term pairs.  The decoded entries are merged in order, so on a
    /// repeated key the later entry wins.
    pub fn from_sexpr(expr: SExpr) -> (r: Result<Bindings, InterpreterError>)
        ensures
            match r {
                Ok(b) => bindings_of_term(expr@) == Ok::<BindingsV, ErrV>(b@),
                Err(e) => bindings_of_term(expr@) matches Err(ev) && e.info@ == ev,
            },
    {
        bindings_from_sexpr_ref(&expr)
    }
}

/// The binding set decoded from a borrowed term.
fn bindings_from_sexpr_ref(expr: &SExpr) -> (r: Result<Bindings, InterpreterError>)
    ensures
        match r {
            Ok(b) => bindings_of_term(expr@) == Ok::<BindingsV, ErrV>(b@),
            Err(e) => bindings_of_term(expr@) matches Err(ev) && e.info@ == ev,
        },
{
    {
        let ls = match expr {
            SExpr::List(ls) => ls,
            _ => {
                return Err(
                    InterpreterError::new(
                        InterpreterErrorInfo::CannotConvert(clone_term(expr)),
                    ).with_frame("while decoding a binding set"),
                );
            },
        };
        let mut entries: Vec<(Ident, SExpr)> = Vec::new();
        let mut i: usize = 0;
        proof {
            lemma_seq_view_len(ls@);
        }
        while i < ls.len()
            invariant
                i <= ls@.len(),
                seq_view(ls@).len() == ls@.len(),
                expr@ == TermV::List(seq_view(ls@)),
                entries_of_terms(seq_view(ls@).subrange(0, i as int)) == Ok::<
                    Seq<(IdentV, TermV)>,
                    ErrV,
                >(entries_view(entries@)),
            decreases ls@.len() - i,
        {
            proof {
                lemma_seq_view_index(ls@, i as int);
            }
            let ghost prefix1 = seq_view(ls@).subrange(0, i as int + 1);
            proof {
                assert(prefix1.drop_last() =~= seq_view(ls@).subrange(0, i as int));
                assert(prefix1.last() == seq_view(ls@)[i as int]);
            }
            match parse_entry(&ls[i]) {
                Ok(en) => {
                    let ghost entries_old = entries@;
                    entries.push(en);
                    proof {
                        crate::term::lemma_entries_view_push(entries_old, entries@.last());
                        assert(entries_old.push(entries@.last()) =~= entries@);
                    }
                },
                Err(e) => {
                    proof {
                        lemma_entries_err_extends(seq_view(ls@), i as int + 1);
                    }
                    return Err(e.with_frame("while decoding a binding set"));
                },
            }
            i += 1;
        }
        proof {
            assert(seq_view(ls@).subrange(0, ls@.len() as int) =~= seq_view(ls@));
        }
        Ok(Bindings::of_contents(entries))
    }
}

/// A decoding error in a prefix of the list decides the whole list's
/// decoding.
proof fn lemma_entries_err_extends(s: Seq<TermV>, i: int)
    requires
        0 <= i <= s.len(),
        entries_of_terms(s.subrange(0, i)) is Err,
    ensures
        entries_of_terms(s) == entries_of_terms(s.subrange(0, i)),
    decreases s.len() - i,
{
    if i == s.len() {
        assert(s.subrange(0, i) =~= s);
    } else {
        assert(s.subrange(0, i + 1).drop_last() =~= s.subrange(0, i));
        assert(entries_of_terms(s.subrange(0, i + 1)) == entries_of_terms(s.subrange(0, i)));
        lemma_entries_err_extends(s, i + 1);
    }
}

/// One decoded binding entry of an encoded binding list.
fn parse_entry(t: &SExpr) -> (r: Result<(Ident, SExpr), InterpreterError>)
    ensures
        match r {
            Ok(en) => entry_of_term(t@) == Ok::<(IdentV, TermV), ErrV>((en.0@, en.1@)),
            Err(e) => entry_of_term(t@) matches Err(ev) && e.info@ == ev,
        },
{
    let pair = match t {
        SExpr::List(pair) => pair,
        _ => {
            return Err(InterpreterError::new(InterpreterErrorInfo::CannotConvert(clone_term(t))));
        },
    };
    proof {
        lemma_seq_view_len(pair@);
    }
    if pair.len() != 2 {
        return Err(InterpreterError::new(InterpreterErrorInfo::CannotConvert(clone_term(t))));
    }
    proof {
        reveal_with_fuel(term_view, 3);
        lemma_seq_view_index(pair@, 0);
        lemma_seq_view_index(pair@, 1);
    }
    match &pair[0] {
        SExpr::UnarySigilApp(c, inner) => {
            if *c == ':' {
                match &**inner {
                    SExpr::Ident(id) => Ok((id.clone(), clone_term(&pair[1]))),
                    _ => Err(
                        InterpreterError::new(
                            InterpreterErrorInfo::CannotConvert(clone_term(&pair[0])),
                        ),
                    ),
                }
            } else {
                Err(
                    InterpreterError::new(
                        InterpreterErrorInfo::CannotConvert(clone_term(&pair[0])),
                    ),
                )
            }
        },
        _ => Err(
            InterpreterError::new(InterpreterErrorInfo::CannotConvert(clone_term(&pair[0]))),
        ),
    }
}

/// The term encoding of an optional binding set.
pub fn opt_bindings_into_sexpr(ob: &Option<Bindings>) -> (r: SExpr)
    ensures
        r@ == opt_bindings_to_term(crate::bindings::opt_bindings_view(*ob)),
{
    match ob {
        Some(b) => {
            let mut ls: Vec<SExpr> = Vec::new();
            ls.push(make_solid_marker("some"));
            ls.push(b.into_sexpr());
            proof {
                lemma_seq_view_len(ls@);
                lemma_seq_view_index(ls@, 0);
                lemma_seq_view_index(ls@, 1);
                assert(seq_view(ls@) =~= seq![some_marker(), bindings_to_term(b@)]);
            }
            SExpr::List(ls)
        },
        None => {
            let mut ls: Vec<SExpr> = Vec::new();
            ls.push(make_solid_marker("none"));
            proof {
                lemma_seq_view_len(ls@);
                lemma_seq_view_index(ls@, 0);
                assert(seq_view(ls@) =~= seq![none_marker()]);
            }
            SExpr::List(ls)
        },
    }
}

/// The optional binding set decoded from a term.
pub fn opt_bindings_from_sexpr(expr: &SExpr) -> (r: Result<Option<Bindings>, InterpreterError>)
    ensures
        match r {
            Ok(ob) => opt_bindings_of_term(expr@) == Ok::<Option<BindingsV>, ErrV>(
                crate::bindings::opt_bindings_view(ob),
            ),
            Err(e) => opt_bindings_of_term(expr@) matches Err(ev) && e.info@ == ev,
        },
{
    let ls = match expr {
        SExpr::List(ls) => ls,
        _ => {
            return Err(
                InterpreterError::new(
                    InterpreterErrorInfo::NotA(crate::term::SExprKind::List, clone_term(expr)),
                ).with_frame("while decoding an optional binding set"),
            );
        },
    };
    proof {
        lemma_seq_view_len(ls@);
    }
    if ls.len() == 0 || ls.len() > 2 {
        return Err(
            InterpreterError::new(InterpreterErrorInfo::CannotConvert(clone_term(expr)))
                .with_frame("while decoding an optional binding set"),
        );
    }
    proof {
        lemma_seq_view_index(ls@, 0);
        if ls@.len() == 2 {
            lemma_seq_view_index(ls@, 1);
        }
    }
    let some_m = make_solid_marker("some");
    if sexpr_eq(&ls[0], &some_m) {
        proof {
            lemma_term_eq_on_markers(ls@[0]@);
        }
        if ls.len() == 2 {
            match Bindings::from_sexpr(clone_term(&ls[1])) {
                Ok(b) => Ok(Some(b)),
                Err(e) => Err(e.with_frame("while decoding an optional binding set")),
            }
        } else {
            Err(
                InterpreterError::new(InterpreterErrorInfo::CannotConvert(clone_term(expr)))
                    .with_frame("while decoding an optional binding set"),
            )
        }
    } else {
        let none_m = make_solid_marker("none");
        if sexpr_eq(&ls[0], &none_m) {
            proof {
                lemma_term_eq_on_markers(ls@[0]@);
            }
            Ok(None)
        } else {
            proof {
                lemma_term_eq_on_markers(ls@[0]@);
            }
            Err(
                InterpreterError::new(InterpreterErrorInfo::CannotConvert(clone_term(&ls[0])))
                    .with_frame("while decoding an optional binding set"),
            )
        }
    }
}

/// Structural equality against the two option markers agrees between the
/// term compared and the marker's definition.
proof fn lemma_term_eq_on_markers(t: TermV)
    ensures
        term_eq(t, some_marker()) == term_eq(t, solid_marker("some"@)),
        term_eq(t, none_marker()) == term_eq(t, solid_marker("none"@)),
{
}

/// The term standing for one character: its code point as a number,
/// tagged with the code-point range.
pub open spec fn char_term(c: char) -> TermV {
    TermV::Number(crate::term::NumberV { value: c as int, min: 0, max: 0x1FFFFF })
}

/// The zero-width marker closing each encoded grapheme cluster: a quoted
/// assertion naming the cluster kind.
pub open spec fn grapheme_marker() -> TermV {
    TermV::UnarySigilApp(
        '`',
        Box::new(
            TermV::ZeroWidth(
                Box::new(
                    TermV::Ident(
                        IdentV { names: seq!["extended-grapheme-cluster"@], tl_ns: false },
                    ),
                ),
            ),
        ),
    )
}

/// The term encoding of one grapheme cluster: its characters' numbers
/// followed by the zero-width cluster marker, under the list-building
/// sigil.
pub open spec fn grapheme_term(g: Seq<char>) -> TermV {
    TermV::UnarySigilApp(
        '[',
        Box::new(TermV::List(g.map_values(|c: char| char_term(c)).push(grapheme_marker()))),
    )
}

/// The term encoding of a string: its grapheme clusters' encodings under
/// the list-building sigil.
pub open spec fn string_term(cs: Seq<Seq<char>>) -> TermV {
    TermV::UnarySigilApp(
        '[',
        Box::new(TermV::List(cs.map_values(|g: Seq<char>| grapheme_term(g)))),
    )
}

/// The extended grapheme clusters of a string, a function of its
/// characters alone.
pub uninterp spec fn grapheme_clusters(s: Seq<char>) -> Seq<Seq<char>>;

/// Relies on unicode_segmentation's UnicodeSegmentation::graphemes: the
/// extended grapheme clusters of the string, in order; the clusters
/// partition the string.
#[verifier::external_body]
fn grapheme_clusters_of(s: &str) -> (r: Vec<Vec<char>>)
    ensures
        r.deep_view() == grapheme_clusters(s@),
        r.deep_view().flatten() == s@,
{
    s.graphemes(true).map(|g| g.chars().collect()).collect()
}

/// The term standing for one character.
pub fn char_into_sexpr(c: char) -> (r: SExpr)
    ensures
        r@ == char_term(c),
{
    let code = c as u32;
    SExpr::Number(crate::term::Number { value: code as i128, min: 0, max: 0x1FFFFF })
}

/// The term encoding of a string: each extended grapheme cluster becomes
/// its characters' numbers closed by a zero-width cluster marker, and the
/// clusters are gathered under the list-building sigil.
pub fn string_into_sexpr(s: &str) -> (r: SExpr)
    ensures
        r@ == string_term(grapheme_clusters(s@)),
{
    let clusters = grapheme_clusters_of(s);
    let ghost cs = grapheme_clusters(s@);
    proof {
        assert(clusters.deep_view() == cs);
    }
    let mut out: Vec<SExpr> = Vec::new();
    let mut i: usize = 0;
    while i < clusters.len()
        invariant
            i <= clusters@.len(),
            cs == clusters.deep_view(),
            cs.len() == clusters@.len(),
            seq_view(out@) =~= cs.subrange(0, i as int).map_values(
                |g: Seq<char>| grapheme_term(g),
            ),
        decreases clusters@.len() - i,
    {
        let g = &clusters[i];
        proof {
            assert(cs[i as int] == clusters@[i as int].deep_view());
        }
        let mut elems: Vec<SExpr> = Vec::new();
        let mut j: usize = 0;
        while j < g.len()
            invariant
                j <= g@.len(),
                seq_view(elems@) =~= g@.subrange(0, j as int).map_values(
                    |c: char| char_term(c),
                ),
            decreases g@.len() - j,
        {
            let ghost elems_old = elems@;
            elems.push(char_into_sexpr(g[j]));
            proof {
                crate::term::lemma_seq_view_push(elems_old, elems@.last());
                assert(elems_old.push(elems@.last()) =~= elems@);
                assert(g@.subrange(0, j as int + 1) =~= g@.subrange(0, j as int).push(
                    g@[j as int],
                ));
                assert(seq_view(elems@) =~= g@.subrange(0, j as int + 1).map_values(
                    |c: char| char_term(c),
                ));
            }
            j += 1;
        }
        proof {
            assert(g@.subrange(0, g@.len() as int) =~= g@);
            assert(cs[i as int] =~= g@);
        }
        let marker_inner = Ident::new(
            vec_of_one_string("extended-grapheme-cluster"),
            false,
        );
        proof {
            assert(marker_inner@.names =~= seq!["extended-grapheme-cluster"@]);
            assert(marker_inner@ =~~= (IdentV {
                names: seq!["extended-grapheme-cluster"@],
                tl_ns: false,
            }));
        }
        let marker = SExpr::UnarySigilApp(
            '`',
            Box::new(SExpr::ZeroWidth(Box::new(SExpr::Ident(marker_inner)))),
        );
        proof {
            reveal_with_fuel(term_view, 4);
            assert(marker@ == grapheme_marker());
        }
        let ghost elems_old = elems@;
        elems.push(marker);
        proof {
            crate::term::lemma_seq_view_push(elems_old, elems@.last());
            assert(elems_old.push(elems@.last()) =~= elems@);
            assert(g@.map_values(|c: char| char_term(c)) =~= clusters@[i as int].deep_view()
                .map_values(|c: char| char_term(c)));
        }
        let cluster_term = SExpr::UnarySigilApp('[', Box::new(SExpr::List(elems)));
        proof {
            assert(cluster_term@ == grapheme_term(cs[i as int])) by {
                assert(cs[i as int] =~= g@);
            }
        }
        let ghost out_old = out@;
        out.push(cluster_term);
        proof {
            crate::term::lemma_seq_view_push(out_old, out@.last());
            assert(out_old.push(out@.last()) =~= out@);
            assert(cs.subrange(0, i as int + 1) =~= cs.subrange(0, i as int).push(cs[i as int]));
            assert(seq_view(out@) =~= cs.subrange(0, i as int + 1).map_values(
                |g2: Seq<char>| grapheme_term(g2),
            ));
        }
        i += 1;
    }
    proof {
        assert(cs.subrange(0, cs.len() as int) =~= cs);
        assert(seq_view(out@) =~= cs.map_values(|g: Seq<char>| grapheme_term(g)));
    }
    let lst = SExpr::List(out);
    proof {
        assert(lst@ == TermV::List(cs.map_values(|g: Seq<char>| grapheme_term(g))));
    }
    SExpr::UnarySigilApp('[', Box::new(lst))
}

/// A vector holding one owned copy of the given name.
fn vec_of_one_string(name: &str) -> (r: Vec<String>)
    ensures
        r.deep_view() =~= seq![name@],
{
    let mut r: Vec<String> = Vec::new();
    r.push(<String as vstd::string::StringExecFns>::from_str(name));
    r
}

impl Fun {
    /// The closure wrapped as a term.
    pub fn into_sexpr(self) -> (r: SExpr)
        ensures
            r@ == TermV::Fun(self@),
    {
        SExpr::Fun(self)
    }

    /// The closure payload of a term, or a conversion error.
    pub fn from_sexpr(expr: SExpr) -> (r: Result<Fun, InterpreterError>)
        ensures
            match r {
                Ok(f) => expr@ == TermV::Fun(f@),
                Err(e) => !(expr@ is Fun) && e.info@ == ErrV::CannotConvert(expr@),
            },
    {
        match expr {
            SExpr::Fun(f) => Ok(f),
            other => Err(
                InterpreterError::new(InterpreterErrorInfo::CannotConvert(other)).with_frame(
                    "while decoding a function",
                ),
            ),
        }
    }
}

} // verus!
