//! Token-level reading of annotation-argument and directive-body text.
//!
//! The fixed annotation vocabulary and the directive syntax are this
//! library's own grammar, so the text is taken apart here, in verified code:
//! identifiers, string literals, balanced delimiter groups (kept as raw
//! text), commas, `=`, and `::`. Whitespace separates tokens and is dropped.

use vstd::prelude::*;
use vstd::string::*;

verus! {

/// One token of argument or body text.
pub enum Tok {
    /// A maximal run of identifier characters.
    Ident(String),
    /// The raw contents of a string literal, between the quotes, escapes kept.
    StrLit(String),
    /// A balanced delimiter group: the opening delimiter and the raw text
    /// between it and its matching closer.
    Group { open: char, inner: String },
    Comma,
    Eq,
    PathSep,
    /// Any other single character.
    Other(char),
}

/// The mathematical value of a `Tok`.
pub enum TokV {
    Ident(Seq<char>),
    StrLit(Seq<char>),
    Group { open: char, inner: Seq<char> },
    Comma,
    Eq,
    PathSep,
    Other(char),
}

impl DeepView for Tok {
    type V = TokV;

    open spec fn deep_view(&self) -> TokV {
        match self {
            Tok::Ident(t) => TokV::Ident(t@),
            Tok::StrLit(t) => TokV::StrLit(t@),
            Tok::Group { open, inner } => TokV::Group { open: *open, inner: inner@ },
            Tok::Comma => TokV::Comma,
            Tok::Eq => TokV::Eq,
            Tok::PathSep => TokV::PathSep,
            Tok::Other(c) => TokV::Other(*c),
        }
    }
}

pub open spec fn is_space_char(c: char) -> bool {
    c == ' ' || c == '\n' || c == '\t' || c == '\r'
}

/// Identifier characters: ASCII letters, digits, `_`, and anything beyond
/// ASCII (a conservative stand-in for the identifier characters the language
/// allows there).
pub open spec fn is_ident_char(c: char) -> bool {
    (97 <= c as u32 && c as u32 <= 122) || (65 <= c as u32 && c as u32 <= 90) || (48 <= c as u32
        && c as u32 <= 57) || c == '_' || c as u32 > 127
}

pub open spec fn is_digit_char(c: char) -> bool {
    48 <= c as u32 && c as u32 <= 57
}

pub open spec fn is_open_delim(c: char) -> bool {
    c == '(' || c == '[' || c == '{'
}

pub open spec fn is_close_delim(c: char) -> bool {
    c == ')' || c == ']' || c == '}'
}

/// The tokens of `s` from position `i` on, or `None` when a string literal or
/// a delimiter group never closes.
pub open spec fn lex_from(s: Seq<char>, i: int) -> Option<Seq<TokV>>
    decreases s.len() - i, 0int
        when 0 <= i <= s.len()
{
    if i == s.len() {
        Some(Seq::empty())
    } else {
        let c = s[i];
        if is_space_char(c) {
            lex_from(s, i + 1)
        } else if is_ident_char(c) {
            lex_ident(s, i, i + 1)
        } else if c == '"' {
            lex_str(s, i + 1, i + 1, false)
        } else if is_open_delim(c) {
            lex_group(s, c, i + 1, i + 1, 0, false, false)
        } else if c == ',' {
            cons_tok(TokV::Comma, lex_from(s, i + 1))
        } else if c == '=' {
            cons_tok(TokV::Eq, lex_from(s, i + 1))
        } else if c == ':' && i + 1 < s.len() && s[i + 1] == ':' {
            cons_tok(TokV::PathSep, lex_from(s, i + 2))
        } else {
            cons_tok(TokV::Other(c), lex_from(s, i + 1))
        }
    }
}

/// An identifier that started at `start`; `i` is the next position to look at.
pub open spec fn lex_ident(s: Seq<char>, start: int, i: int) -> Option<Seq<TokV>>
    decreases s.len() - i, 1int
        when 0 <= start <= i <= s.len()
{
    if i < s.len() && is_ident_char(s[i]) {
        lex_ident(s, start, i + 1)
    } else {
        cons_tok(TokV::Ident(s.subrange(start, i)), lex_from(s, i))
    }
}

/// A string literal whose contents started at `start`; `esc` says whether the
/// previous character was an unconsumed backslash. Contents are kept raw.
pub open spec fn lex_str(s: Seq<char>, start: int, i: int, esc: bool) -> Option<Seq<TokV>>
    decreases s.len() - i, 1int
        when 0 <= start <= i <= s.len()
{
    if i == s.len() {
        None
    } else if esc {
        lex_str(s, start, i + 1, false)
    } else if s[i] == '\\' {
        lex_str(s, start, i + 1, true)
    } else if s[i] == '"' {
        cons_tok(TokV::StrLit(s.subrange(start, i)), lex_from(s, i + 1))
    } else {
        lex_str(s, start, i + 1, false)
    }
}

/// A delimiter group opened with `open` whose raw contents started at
/// `start`: scans to the closer at nesting `depth` 0, stepping over string
/// literals. A closer of any kind matches, as the text comes from a source
/// whose delimiters are properly paired.
pub open spec fn lex_group(
    s: Seq<char>,
    open: char,
    start: int,
    i: int,
    depth: int,
    in_str: bool,
    esc: bool,
) -> Option<Seq<TokV>>
    decreases s.len() - i, 1int
        when 0 <= start <= i <= s.len()
{
    if i == s.len() {
        None
    } else {
        let c = s[i];
        if in_str {
            if esc {
                lex_group(s, open, start, i + 1, depth, true, false)
            } else if c == '\\' {
                lex_group(s, open, start, i + 1, depth, true, true)
            } else if c == '"' {
                lex_group(s, open, start, i + 1, depth, false, false)
            } else {
                lex_group(s, open, start, i + 1, depth, true, false)
            }
        } else if c == '"' {
            lex_group(s, open, start, i + 1, depth, true, false)
        } else if is_open_delim(c) {
            lex_group(s, open, start, i + 1, depth + 1, false, false)
        } else if is_close_delim(c) {
            if depth == 0 {
                cons_tok(TokV::Group { open, inner: s.subrange(start, i) }, lex_from(s, i + 1))
            } else {
                lex_group(s, open, start, i + 1, depth - 1, false, false)
            }
        } else {
            lex_group(s, open, start, i + 1, depth, false, false)
        }
    }
}

pub open spec fn cons_tok(t: TokV, rest: Option<Seq<TokV>>) -> Option<Seq<TokV>> {
    match rest {
        Some(ts) => Some(seq![t] + ts),
        None => None,
    }
}

/// All tokens of `s`.
pub open spec fn tokens_of(s: Seq<char>) -> Option<Seq<TokV>> {
    lex_from(s, 0)
}

fn space_char(c: char) -> (r: bool)
    ensures
        r == is_space_char(c),
{
    c == ' ' || c == '\n' || c == '\t' || c == '\r'
}

fn ident_char(c: char) -> (r: bool)
    ensures
        r == is_ident_char(c),
{
    let u = c as u32;
    (97 <= u && u <= 122) || (65 <= u && u <= 90) || (48 <= u && u <= 57) || c == '_' || u > 127
}

pub(crate) fn digit_char(c: char) -> (r: bool)
    ensures
        r == is_digit_char(c),
{
    let u = c as u32;
    48 <= u && u <= 57
}

fn open_delim(c: char) -> (r: bool)
    ensures
        r == is_open_delim(c),
{
    c == '(' || c == '[' || c == '{'
}

fn close_delim(c: char) -> (r: bool)
    ensures
        r == is_close_delim(c),
{
    c == ')' || c == ']' || c == '}'
}

fn push_front(t: Tok, rest: Option<Vec<Tok>>) -> (r: Option<Vec<Tok>>)
    ensures
        r.deep_view() == cons_tok(t.deep_view(), rest.deep_view()),
{
    match rest {
        Some(mut ts) => {
            let ghost pre = ts.deep_view();
            ts.insert(0, t);
            assert(ts.deep_view() =~= seq![t.deep_view()] + pre);
            Some(ts)
        },
        None => None,
    }
}

fn lex_from_x(s: &str, n: usize, i: usize) -> (r: Option<Vec<Tok>>)
    requires
        n == s@.len(),
        i <= n,
    ensures
        r.deep_view() == lex_from(s@, i as int),
    decreases n - i, 0int,
{
    if i == n {
        Some(Vec::new())
    } else {
        let c = s.get_char(i);
        if space_char(c) {
            lex_from_x(s, n, i + 1)
        } else if ident_char(c) {
            lex_ident_x(s, n, i, i + 1)
        } else if c == '"' {
            lex_str_x(s, n, i + 1, i + 1, false)
        } else if open_delim(c) {
            lex_group_x(s, n, c, i + 1, i + 1, 0, false, false)
        } else if c == ',' {
            push_front(Tok::Comma, lex_from_x(s, n, i + 1))
        } else if c == '=' {
            push_front(Tok::Eq, lex_from_x(s, n, i + 1))
        } else if c == ':' && i + 1 < n && s.get_char(i + 1) == ':' {
            push_front(Tok::PathSep, lex_from_x(s, n, i + 2))
        } else {
            push_front(Tok::Other(c), lex_from_x(s, n, i + 1))
        }
    }
}

fn capture(s: &str, start: usize, end: usize) -> (r: String)
    requires
        start <= end <= s@.len(),
    ensures
        r@ == s@.subrange(start as int, end as int),
{
    String::from_str(s.substring_char(start, end))
}

fn lex_ident_x(s: &str, n: usize, start: usize, i: usize) -> (r: Option<Vec<Tok>>)
    requires
        n == s@.len(),
        start <= i <= n,
    ensures
        r.deep_view() == lex_ident(s@, start as int, i as int),
    decreases n - i, 1int,
{
    if i < n && ident_char(s.get_char(i)) {
        lex_ident_x(s, n, start, i + 1)
    } else {
        push_front(Tok::Ident(capture(s, start, i)), lex_from_x(s, n, i))
    }
}

fn lex_str_x(s: &str, n: usize, start: usize, i: usize, esc: bool) -> (r: Option<Vec<Tok>>)
    requires
        n == s@.len(),
        start <= i <= n,
    ensures
        r.deep_view() == lex_str(s@, start as int, i as int, esc),
    decreases n - i, 1int,
{
    if i == n {
        None
    } else if esc {
        lex_str_x(s, n, start, i + 1, false)
    } else {
        let c = s.get_char(i);
        if c == '\\' {
            lex_str_x(s, n, start, i + 1, true)
        } else if c == '"' {
            push_front(Tok::StrLit(capture(s, start, i)), lex_from_x(s, n, i + 1))
        } else {
            lex_str_x(s, n, start, i + 1, false)
        }
    }
}

fn lex_group_x(
    s: &str,
    n: usize,
    open: char,
    start: usize,
    i: usize,
    depth: usize,
    in_str: bool,
    esc: bool,
) -> (r: Option<Vec<Tok>>)
    requires
        n == s@.len(),
        start <= i <= n,
        depth <= i,
    ensures
        r.deep_view() == lex_group(s@, open, start as int, i as int, depth as int, in_str, esc),
    decreases n - i, 1int,
{
    if i == n {
        None
    } else {
        let c = s.get_char(i);
        if in_str {
            if esc {
                lex_group_x(s, n, open, start, i + 1, depth, true, false)
            } else if c == '\\' {
                lex_group_x(s, n, open, start, i + 1, depth, true, true)
            } else if c == '"' {
                lex_group_x(s, n, open, start, i + 1, depth, false, false)
            } else {
                lex_group_x(s, n, open, start, i + 1, depth, true, false)
            }
        } else if c == '"' {
            lex_group_x(s, n, open, start, i + 1, depth, true, false)
        } else if open_delim(c) {
            lex_group_x(s, n, open, start, i + 1, depth + 1, false, false)
        } else if close_delim(c) {
            if depth == 0 {
                push_front(
                    Tok::Group { open, inner: capture(s, start, i) },
                    lex_from_x(s, n, i + 1),
                )
            } else {
                lex_group_x(s, n, open, start, i + 1, depth - 1, false, false)
            }
        } else {
            lex_group_x(s, n, open, start, i + 1, depth, false, false)
        }
    }
}

/// The tokens of `s`, or `None` when a string literal or a group never
/// closes.
pub(crate) fn tokenize(s: &str) -> (r: Option<Vec<Tok>>)
    ensures
        r.deep_view() == tokens_of(s@),
{
    let n = s.unicode_len();
    lex_from_x(s, n, 0)
}

} // verus!
