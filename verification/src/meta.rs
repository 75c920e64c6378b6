//! The argument grammar shared by annotations and the binding directive: a
//! comma-separated list of entries, each a path (`a`, `a::b`), a nested list
//! (`name(raw text)`), or a pair (`name = value`), with a value running to
//! the next top-level comma.

use vstd::prelude::*;
use vstd::string::*;
use crate::lex::{Tok, TokV, is_digit_char, tokens_of, tokenize, digit_char};
use crate::util::clone_strings;

verus! {

/// One parsed argument entry.
pub enum MetaArg {
    /// A bare path: its segments.
    Word { segs: Vec<String> },
    /// A path followed by a delimiter group, the group's raw text kept.
    Nested { segs: Vec<String>, open: char, inner: String },
    /// A `path = value` pair; the value is the token run up to the next
    /// top-level comma.
    Assign { segs: Vec<String>, value: Vec<Tok> },
}

/// The mathematical value of a `MetaArg`.
pub enum MetaArgV {
    Word { segs: Seq<Seq<char>> },
    Nested { segs: Seq<Seq<char>>, open: char, inner: Seq<char> },
    Assign { segs: Seq<Seq<char>>, value: Seq<TokV> },
}

impl DeepView for MetaArg {
    type V = MetaArgV;

    open spec fn deep_view(&self) -> MetaArgV {
        match self {
            MetaArg::Word { segs } => MetaArgV::Word { segs: segs.deep_view() },
            MetaArg::Nested { segs, open, inner } => MetaArgV::Nested {
                segs: segs.deep_view(),
                open: *open,
                inner: inner@,
            },
            MetaArg::Assign { segs, value } => MetaArgV::Assign {
                segs: segs.deep_view(),
                value: value.deep_view(),
            },
        }
    }
}

/// Whether a token can stand as a path segment: an identifier that does not
/// begin with a digit (a digit-led run is a number literal, not a name).
pub open spec fn seg_tok_ok(t: TokV) -> bool {
    match t {
        TokV::Ident(x) => x.len() > 0 && !is_digit_char(x[0]),
        _ => false,
    }
}

pub open spec fn seg_text(t: TokV) -> Seq<char> {
    match t {
        TokV::Ident(x) => x,
        _ => Seq::empty(),
    }
}

/// Parses `Ident (:: Ident)*` starting at `i`; on success returns the
/// segment texts and the position after them.
pub open spec fn parse_path_segs(ts: Seq<TokV>, i: int) -> Option<(Seq<Seq<char>>, int)>
    decreases ts.len() - i
        when 0 <= i <= ts.len()
{
    if i < ts.len() && seg_tok_ok(ts[i]) {
        if i + 1 < ts.len() && (ts[i + 1] matches TokV::PathSep) {
            match parse_path_segs(ts, i + 2) {
                Some((rest, j)) => Some((seq![seg_text(ts[i])] + rest, j)),
                None => None,
            }
        } else {
            Some((seq![seg_text(ts[i])], i + 1))
        }
    } else {
        None
    }
}

/// A path, with an optional leading `::`.
pub open spec fn parse_path(ts: Seq<TokV>, i: int) -> Option<(Seq<Seq<char>>, int)> {
    if 0 <= i < ts.len() && (ts[i] matches TokV::PathSep) {
        parse_path_segs(ts, i + 1)
    } else {
        parse_path_segs(ts, i)
    }
}

pub proof fn lemma_path_segs_advances(ts: Seq<TokV>, i: int)
    requires
        0 <= i <= ts.len(),
    ensures
        match parse_path_segs(ts, i) {
            Some(r) => i < r.1 <= ts.len() && r.0.len() > 0,
            None => true,
        },
    decreases ts.len() - i,
{
    if i < ts.len() && seg_tok_ok(ts[i]) && i + 1 < ts.len() && (ts[i + 1] matches TokV::PathSep) {
        lemma_path_segs_advances(ts, i + 2);
    }
}

pub proof fn lemma_path_advances(ts: Seq<TokV>, i: int)
    requires
        0 <= i <= ts.len(),
    ensures
        match parse_path(ts, i) {
            Some(r) => i < r.1 <= ts.len() && r.0.len() > 0,
            None => true,
        },
{
    if i < ts.len() && (ts[i] matches TokV::PathSep) {
        lemma_path_segs_advances(ts, i + 1);
    } else {
        lemma_path_segs_advances(ts, i);
    }
}

/// The token run from `i` up to the next top-level comma, and the position of
/// that comma (or the end).
pub open spec fn take_value(ts: Seq<TokV>, i: int) -> (Seq<TokV>, int)
    decreases ts.len() - i
        when 0 <= i <= ts.len()
{
    if i < ts.len() && !(ts[i] matches TokV::Comma) {
        let (v, j) = take_value(ts, i + 1);
        (seq![ts[i]] + v, j)
    } else {
        (Seq::empty(), i)
    }
}

pub proof fn lemma_take_value_bounds(ts: Seq<TokV>, i: int)
    requires
        0 <= i <= ts.len(),
    ensures
        i <= take_value(ts, i).1 <= ts.len(),
    decreases ts.len() - i,
{
    if i < ts.len() && !(ts[i] matches TokV::Comma) {
        lemma_take_value_bounds(ts, i + 1);
    }
}

/// One argument entry starting at `i`.
pub open spec fn parse_meta(ts: Seq<TokV>, i: int) -> Option<(MetaArgV, int)> {
    match parse_path(ts, i) {
        None => None,
        Some((segs, j)) => if j < ts.len() && (ts[j] matches TokV::Group { .. }) {
            match ts[j] {
                TokV::Group { open, inner } => Some(
                    (MetaArgV::Nested { segs, open, inner }, j + 1),
                ),
                _ => None,
            }
        } else if j < ts.len() && (ts[j] matches TokV::Eq) {
            let (value, k) = take_value(ts, j + 1);
            Some((MetaArgV::Assign { segs, value }, k))
        } else {
            Some((MetaArgV::Word { segs }, j))
        },
    }
}

pub proof fn lemma_parse_meta_advances(ts: Seq<TokV>, i: int)
    requires
        0 <= i <= ts.len(),
    ensures
        match parse_meta(ts, i) {
            Some(r) => i < r.1 <= ts.len(),
            None => true,
        },
{
    lemma_path_advances(ts, i);
    match parse_path(ts, i) {
        None => {},
        Some((segs, j)) => {
            if j < ts.len() && (ts[j] matches TokV::Eq) {
                lemma_take_value_bounds(ts, j + 1);
            }
        },
    }
}

/// The whole comma-separated list, which must fill the token run exactly; a
/// trailing comma is allowed.
pub open spec fn parse_meta_list(ts: Seq<TokV>, i: int) -> Option<Seq<MetaArgV>>
    decreases ts.len() - i
        when 0 <= i <= ts.len()
        via parse_meta_list_decreases
{
    if i == ts.len() {
        Some(Seq::empty())
    } else {
        match parse_meta(ts, i) {
            None => None,
            Some((m, j)) => if j == ts.len() {
                Some(seq![m])
            } else if (ts[j] matches TokV::Comma) {
                match parse_meta_list(ts, j + 1) {
                    None => None,
                    Some(ms) => Some(seq![m] + ms),
                }
            } else {
                None
            },
        }
    }
}

#[via_fn]
proof fn parse_meta_list_decreases(ts: Seq<TokV>, i: int) {
    if 0 <= i <= ts.len() && i != ts.len() {
        lemma_parse_meta_advances(ts, i);
    }
}

/// The parsed argument entries of a piece of raw text: tokenized, then read
/// as a list; `None` when the text does not fit the grammar.
pub open spec fn metas_of(s: Seq<char>) -> Option<Seq<MetaArgV>> {
    match tokens_of(s) {
        None => None,
        Some(ts) => parse_meta_list(ts, 0),
    }
}

fn clone_tok(t: &Tok) -> (r: Tok)
    ensures
        r.deep_view() == t.deep_view(),
{
    match t {
        Tok::Ident(x) => Tok::Ident(x.clone()),
        Tok::StrLit(x) => Tok::StrLit(x.clone()),
        Tok::Group { open, inner } => Tok::Group { open: *open, inner: inner.clone() },
        Tok::Comma => Tok::Comma,
        Tok::Eq => Tok::Eq,
        Tok::PathSep => Tok::PathSep,
        Tok::Other(c) => Tok::Other(*c),
    }
}

fn seg_tok_ok_x(t: &Tok) -> (r: bool)
    ensures
        r == seg_tok_ok(t.deep_view()),
{
    match t {
        Tok::Ident(x) => {
            if x.as_str().is_empty() {
                false
            } else {
                !digit_char(x.as_str().get_char(0))
            }
        },
        _ => false,
    }
}

fn parse_path_segs_x(ts: &Vec<Tok>, i: usize) -> (r: Option<(Vec<String>, usize)>)
    requires
        i <= ts.len(),
    ensures
        match r {
            Some(p) => parse_path_segs(ts.deep_view(), i as int) == Some(
                (p.0.deep_view(), p.1 as int),
            ),
            None => parse_path_segs(ts.deep_view(), i as int) is None,
        },
    decreases ts.len() - i,
{
    if i < ts.len() && seg_tok_ok_x(&ts[i]) {
        let name: String = match &ts[i] {
            Tok::Ident(x) => x.clone(),
            _ => String::new(),
        };
        assert(name@ == seg_text(ts.deep_view()[i as int]));
        if i + 1 < ts.len() && matches!(&ts[i + 1], Tok::PathSep) {
            match parse_path_segs_x(ts, i + 2) {
                Some((rest, j)) => {
                    let mut segs: Vec<String> = Vec::new();
                    segs.push(name);
                    let mut k: usize = 0;
                    let ghost restv = rest.deep_view();
                    while k < rest.len()
                        invariant
                            k <= rest.len(),
                            restv == rest.deep_view(),
                            segs.len() == k + 1,
                            segs.deep_view()[0] == seg_text(ts.deep_view()[i as int]),
                            forall|m: int| 0 <= m < k ==> segs.deep_view()[m + 1] == restv[m],
                        decreases rest.len() - k,
                    {
                        segs.push(rest[k].clone());
                        k += 1;
                    }
                    assert(segs.deep_view() =~= seq![seg_text(ts.deep_view()[i as int])] + restv);
                    Some((segs, j))
                },
                None => None,
            }
        } else {
            let mut segs: Vec<String> = Vec::new();
            segs.push(name);
            assert(segs.deep_view() =~= seq![seg_text(ts.deep_view()[i as int])]);
            Some((segs, i + 1))
        }
    } else {
        None
    }
}

fn parse_path_x(ts: &Vec<Tok>, i: usize) -> (r: Option<(Vec<String>, usize)>)
    requires
        i <= ts.len(),
    ensures
        match r {
            Some(p) => parse_path(ts.deep_view(), i as int) == Some((p.0.deep_view(), p.1 as int)),
            None => parse_path(ts.deep_view(), i as int) is None,
        },
{
    if i < ts.len() && matches!(&ts[i], Tok::PathSep) {
        parse_path_segs_x(ts, i + 1)
    } else {
        parse_path_segs_x(ts, i)
    }
}

fn take_value_x(ts: &Vec<Tok>, i: usize) -> (r: (Vec<Tok>, usize))
    requires
        i <= ts.len(),
    ensures
        r.0.deep_view() == take_value(ts.deep_view(), i as int).0,
        r.1 as int == take_value(ts.deep_view(), i as int).1,
    decreases ts.len() - i,
{
    if i < ts.len() && !matches!(&ts[i], Tok::Comma) {
        let (rest, j) = take_value_x(ts, i + 1);
        let mut run: Vec<Tok> = Vec::new();
        run.push(clone_tok(&ts[i]));
        let ghost restv = rest.deep_view();
        let mut k: usize = 0;
        while k < rest.len()
            invariant
                k <= rest.len(),
                restv == rest.deep_view(),
                run.len() == k + 1,
                run.deep_view()[0] == ts.deep_view()[i as int],
                forall|m: int| 0 <= m < k ==> run.deep_view()[m + 1] == restv[m],
            decreases rest.len() - k,
        {
            run.push(clone_tok(&rest[k]));
            k += 1;
        }
        assert(run.deep_view() =~= seq![ts.deep_view()[i as int]] + restv);
        (run, j)
    } else {
        (Vec::new(), i)
    }
}

fn parse_meta_x(ts: &Vec<Tok>, i: usize) -> (r: Option<(MetaArg, usize)>)
    requires
        i <= ts.len(),
    ensures
        match r {
            Some(p) => parse_meta(ts.deep_view(), i as int) == Some((p.0.deep_view(), p.1 as int)),
            None => parse_meta(ts.deep_view(), i as int) is None,
        },
{
    proof {
        lemma_path_advances(ts.deep_view(), i as int);
    }
    match parse_path_x(ts, i) {
        None => None,
        Some((segs, j)) => {
            if j < ts.len() && matches!(&ts[j], Tok::Group { .. }) {
                match &ts[j] {
                    Tok::Group { open, inner } => Some(
                        (MetaArg::Nested { segs, open: *open, inner: inner.clone() }, j + 1),
                    ),
                    _ => None,
                }
            } else if j < ts.len() && matches!(&ts[j], Tok::Eq) {
                proof {
                    lemma_take_value_bounds(ts.deep_view(), j as int + 1);
                }
                let (value, k) = take_value_x(ts, j + 1);
                Some((MetaArg::Assign { segs, value }, k))
            } else {
                Some((MetaArg::Word { segs }, j))
            }
        },
    }
}

fn parse_meta_list_x(ts: &Vec<Tok>, i: usize) -> (r: Option<Vec<MetaArg>>)
    requires
        i <= ts.len(),
    ensures
        r.deep_view() == parse_meta_list(ts.deep_view(), i as int),
    decreases ts.len() - i,
{
    if i == ts.len() {
        Some(Vec::new())
    } else {
        proof {
            lemma_parse_meta_advances(ts.deep_view(), i as int);
        }
        match parse_meta_x(ts, i) {
            None => None,
            Some((m, j)) => {
                if j == ts.len() {
                    let mut one: Vec<MetaArg> = Vec::new();
                    one.push(m);
                    assert(one.deep_view() =~= seq![m.deep_view()]);
                    Some(one)
                } else if matches!(&ts[j], Tok::Comma) {
                    match parse_meta_list_x(ts, j + 1) {
                        None => None,
                        Some(mut ms) => {
                            let ghost pre = ms.deep_view();
                            ms.insert(0, m);
                            assert(ms.deep_view() =~= seq![m.deep_view()] + pre);
                            Some(ms)
                        },
                    }
                } else {
                    None
                }
            },
        }
    }
}

/// The parsed argument entries of a piece of raw text.
pub(crate) fn parse_args(s: &str) -> (r: Option<Vec<MetaArg>>)
    ensures
        r.deep_view() == metas_of(s@),
{
    match tokenize(s) {
        None => None,
        Some(ts) => parse_meta_list_x(&ts, 0),
    }
}

} // verus!
