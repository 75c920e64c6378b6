//! The source-tree side of the pipeline that works on plain values: which
//! relative paths name a source unit, the canonical module path derived from
//! a unit's location, and the deterministic ordering of units.

use vstd::prelude::*;
use vstd::string::*;
use vstd::pervasive::VecAdditionalExecFns;
use vstd::multiset::Multiset;
use vstd::seq_lib::lemma_multiset_commutative;
use crate::error::{GenError, GenErrorV};
use crate::outside::{ident_text_ok, is_ident_text, lower_of, to_lower};
use crate::util::{
    eq_str, lemma_deep_insert0, lemma_deep_pointwise, lemma_deep_push, lemma_deep_remove0,
    lemma_deep_update,
};

verus! {

/// One source unit handed to the generator: its path relative to the tree
/// root, with `/` between segments, and its full text.
pub struct SourceFile {
    pub path: String,
    pub text: String,
}

/// The mathematical value of a `SourceFile`.
pub struct SourceFileV {
    pub path: Seq<char>,
    pub text: Seq<char>,
}

impl DeepView for SourceFile {
    type V = SourceFileV;

    open spec fn deep_view(&self) -> SourceFileV {
        SourceFileV { path: self.path@, text: self.text@ }
    }
}

/// Lexicographic order on character sequences, by code point.
pub open spec fn chars_le(a: Seq<char>, b: Seq<char>) -> bool
    decreases a.len(),
{
    if a.len() == 0 {
        true
    } else if b.len() == 0 {
        false
    } else if (a[0] as u32) < (b[0] as u32) {
        true
    } else if (a[0] as u32) > (b[0] as u32) {
        false
    } else {
        chars_le(a.skip(1), b.skip(1))
    }
}

fn chars_le_from(a: &str, b: &str, na: usize, nb: usize, i: usize) -> (r: bool)
    requires
        na == a@.len(),
        nb == b@.len(),
        i <= na,
        i <= nb,
    ensures
        r == chars_le(a@.skip(i as int), b@.skip(i as int)),
    decreases na - i,
{
    if i == na {
        true
    } else if i == nb {
        false
    } else {
        let ca = a.get_char(i);
        let cb = b.get_char(i);
        assert(a@.skip(i as int)[0] == a@[i as int]);
        assert(b@.skip(i as int)[0] == b@[i as int]);
        if (ca as u32) < (cb as u32) {
            true
        } else if (ca as u32) > (cb as u32) {
            false
        } else {
            assert(a@.skip(i as int).skip(1) =~= a@.skip(i as int + 1));
            assert(b@.skip(i as int).skip(1) =~= b@.skip(i as int + 1));
            chars_le_from(a, b, na, nb, i + 1)
        }
    }
}

/// Whether `a` comes no later than `b` in the unit ordering.
fn chars_le_x(a: &str, b: &str) -> (r: bool)
    ensures
        r == chars_le(a@, b@),
{
    let na = a.unicode_len();
    let nb = b.unicode_len();
    assert(a@.skip(0) =~= a@);
    assert(b@.skip(0) =~= b@);
    chars_le_from(a, b, na, nb, 0)
}

/// The first position at or after `i` holding `/`, or the end.
pub open spec fn find_slash(p: Seq<char>, i: int) -> int
    decreases p.len() - i
        when 0 <= i <= p.len()
{
    if i == p.len() {
        i
    } else if p[i] == '/' {
        i
    } else {
        find_slash(p, i + 1)
    }
}

pub proof fn lemma_find_slash_bounds(p: Seq<char>, i: int)
    requires
        0 <= i <= p.len(),
    ensures
        i <= find_slash(p, i) <= p.len(),
    decreases p.len() - i,
{
    if i < p.len() && p[i] != '/' {
        lemma_find_slash_bounds(p, i + 1);
    }
}

/// The `/`-separated segments of `p` from position `i` on; always at least
/// one segment, segments may be empty.
pub open spec fn split_from(p: Seq<char>, i: int) -> Seq<Seq<char>>
    decreases p.len() - i
        when 0 <= i <= p.len()
        via split_from_decreases
{
    let j = find_slash(p, i);
    if j == p.len() {
        seq![p.subrange(i, j)]
    } else {
        seq![p.subrange(i, j)] + split_from(p, j + 1)
    }
}

#[via_fn]
proof fn split_from_decreases(p: Seq<char>, i: int) {
    if 0 <= i <= p.len() {
        lemma_find_slash_bounds(p, i);
    }
}

pub proof fn lemma_split_nonempty(p: Seq<char>, i: int)
    requires
        0 <= i <= p.len(),
    ensures
        split_from(p, i).len() >= 1,
{
    lemma_find_slash_bounds(p, i);
}

fn find_slash_x(s: &str, n: usize, i: usize) -> (r: usize)
    requires
        n == s@.len(),
        i <= n,
    ensures
        r as int == find_slash(s@, i as int),
        i <= r <= n,
    decreases n - i,
{
    if i == n {
        i
    } else if s.get_char(i) == '/' {
        i
    } else {
        find_slash_x(s, n, i + 1)
    }
}

fn split_from_x(s: &str, n: usize, i: usize) -> (r: Vec<String>)
    requires
        n == s@.len(),
        i <= n,
    ensures
        r.deep_view() =~= split_from(s@, i as int),
    decreases n - i,
{
    let j = find_slash_x(s, n, i);
    let seg = String::from_str(s.substring_char(i, j));
    if j == n {
        let mut out: Vec<String> = Vec::new();
        let ghost pre = out;
        let ghost segg = seg;
        out.push(seg);
        proof {
            lemma_deep_pointwise(pre);
            lemma_deep_push(pre, out, segg);
        }
        out
    } else {
        let rest = split_from_x(s, n, j + 1);
        let ghost prer = rest;
        let ghost segg = seg;
        let mut rest = rest;
        rest.insert(0, seg);
        proof {
            lemma_deep_insert0(prer, rest, segg);
        }
        rest
    }
}

/// The `/`-separated segments of a relative path.
fn split_path(s: &str) -> (r: Vec<String>)
    ensures
        r.deep_view() =~= split_from(s@, 0),
{
    let n = s.unicode_len();
    split_from_x(s, n, 0)
}

/// The position of the last `.` in `seg` at or before `i`, or `-1`.
pub open spec fn rlast_dot(seg: Seq<char>, i: int) -> int
    decreases i + 1
        when i < seg.len()
{
    if i < 0 {
        -1
    } else if seg[i] == '.' {
        i
    } else {
        rlast_dot(seg, i - 1)
    }
}

pub proof fn lemma_rlast_dot_bounds(seg: Seq<char>, i: int)
    requires
        -1 <= i < seg.len(),
    ensures
        -1 <= rlast_dot(seg, i) <= i,
    decreases i + 1,
{
    if i >= 0 && seg[i] != '.' {
        lemma_rlast_dot_bounds(seg, i - 1);
    }
}

/// Scans from position `i - 1` down; `None` when no `.` is found.
fn rlast_dot_x(s: &str, i: usize) -> (r: Option<usize>)
    requires
        i <= s@.len(),
    ensures
        match r {
            Some(k) => rlast_dot(s@, i as int - 1) == k as int && k < i,
            None => rlast_dot(s@, i as int - 1) == -1,
        },
    decreases i,
{
    if i == 0 {
        None
    } else if s.get_char(i - 1) == '.' {
        Some(i - 1)
    } else {
        rlast_dot_x(s, i - 1)
    }
}

/// A segment with its extension removed: everything after the last `.`,
/// unless that dot is the leading character or there is none.
pub open spec fn strip_ext_seg(seg: Seq<char>) -> Seq<char> {
    let d = rlast_dot(seg, seg.len() - 1);
    if d > 0 {
        seg.subrange(0, d)
    } else {
        seg
    }
}

/// Whether `e` names the recognized source extension, case-insensitively.
pub open spec fn is_rs_ext(e: Seq<char>) -> bool {
    e.len() == 2 && (e[0] == 'r' || e[0] == 'R') && (e[1] == 's' || e[1] == 'S')
}

/// Whether a relative path names a source unit: its file name carries the
/// recognized extension.
pub open spec fn is_source_path(p: Seq<char>) -> bool {
    let seg = split_from(p, 0).last();
    let d = rlast_dot(seg, seg.len() - 1);
    d > 0 && is_rs_ext(seg.subrange(d + 1, seg.len() as int))
}

/// Whether a relative path names a source unit.
pub fn is_source_file(path: &str) -> (r: bool)
    ensures
        r == is_source_path(path@),
{
    let segs = split_path(path);
    proof {
        lemma_split_nonempty(path@, 0);
        lemma_deep_pointwise(segs);
    }
    let seg = &segs[segs.len() - 1];
    let n = seg.as_str().unicode_len();
    proof {
        lemma_rlast_dot_bounds(seg@, n as int - 1);
    }
    match rlast_dot_x(seg.as_str(), n) {
        Some(d) => {
            if d > 0 && n - d == 3 {
                let c0 = seg.as_str().get_char(d + 1);
                let c1 = seg.as_str().get_char(d + 2);
                let ok = (c0 == 'r' || c0 == 'R') && (c1 == 's' || c1 == 'S');
                proof {
                    let ghost e = seg@.subrange(d + 1, seg@.len() as int);
                    assert(e.len() == 2);
                    assert(e[0] == seg@[d + 1]);
                    assert(e[1] == seg@[d + 2]);
                }
                ok
            } else {
                proof {
                    let ghost sv = seg@;
                    let ghost dd = rlast_dot(sv, sv.len() - 1);
                    if d > 0 {
                        assert(sv.subrange(dd + 1, sv.len() as int).len() != 2);
                    }
                }
                false
            }
        },
        None => false,
    }
}

/// The boilerplate segment names elided from module paths.
pub open spec fn is_boilerplate(s: Seq<char>) -> bool {
    s == "main"@ || s == "lib"@ || s == "mod"@
}

fn is_boiler_x(s: &str) -> (r: bool)
    ensures
        r == is_boilerplate(s@),
{
    eq_str(s, "main") || eq_str(s, "lib") || eq_str(s, "mod")
}

/// The path segments from `i` on, each lower-cased, boilerplate elided; the
/// first lower-cased segment that cannot stand as an identifier is fatal.
pub open spec fn mod_segs_from(segs: Seq<Seq<char>>, i: int) -> Result<Seq<Seq<char>>, GenErrorV>
    decreases segs.len() - i
        when 0 <= i <= segs.len()
{
    if i == segs.len() {
        Ok(Seq::empty())
    } else {
        let low = lower_of(segs[i]);
        if is_boilerplate(low) {
            mod_segs_from(segs, i + 1)
        } else if !ident_text_ok(low) {
            Err(GenErrorV::InvalidIdentifier { text: low })
        } else {
            match mod_segs_from(segs, i + 1) {
                Err(e) => Err(e),
                Ok(rest) => Ok(seq![low] + rest),
            }
        }
    }
}

/// The canonical module path of a unit, as segments: the root-namespace
/// token, then the path segments, extension stripped, lower-cased, with
/// boilerplate names elided.
pub open spec fn module_path_segs(p: Seq<char>) -> Result<Seq<Seq<char>>, GenErrorV> {
    let segs = split_from(p, 0);
    let stripped = segs.update(segs.len() - 1, strip_ext_seg(segs.last()));
    match mod_segs_from(stripped, 0) {
        Err(e) => Err(e),
        Ok(kept) => Ok(seq!["crate"@] + kept),
    }
}

fn mod_segs_x(segs: &Vec<String>, i: usize) -> (r: Result<Vec<String>, GenError>)
    requires
        i <= segs.len(),
    ensures
        match r {
            Ok(v) => mod_segs_from(segs.deep_view(), i as int) == Ok::<Seq<Seq<char>>, GenErrorV>(
                v.deep_view(),
            ),
            Err(e) => mod_segs_from(segs.deep_view(), i as int) == Err::<
                Seq<Seq<char>>,
                GenErrorV,
            >(e.deep_view()),
        },
    decreases segs.len() - i,
{
    if i == segs.len() {
        let out: Vec<String> = Vec::new();
        proof {
            lemma_deep_pointwise(out);
            assert(out.deep_view() =~= Seq::<Seq<char>>::empty());
        }
        Ok(out)
    } else {
        proof {
            lemma_deep_pointwise(*segs);
        }
        let low = to_lower(segs[i].as_str());
        if is_boiler_x(low.as_str()) {
            mod_segs_x(segs, i + 1)
        } else if !is_ident_text(low.as_str()) {
            Err(GenError::InvalidIdentifier { text: low })
        } else {
            match mod_segs_x(segs, i + 1) {
                Err(e) => Err(e),
                Ok(rest) => {
                    let ghost prer = rest;
                    let ghost lowg = low;
                    let mut rest = rest;
                    rest.insert(0, low);
                    proof {
                        lemma_deep_insert0(prer, rest, lowg);
                    }
                    Ok(rest)
                },
            }
        }
    }
}

/// The canonical module path of a unit, as segments.
pub fn module_path_segments(path: &str) -> (r: Result<Vec<String>, GenError>)
    ensures
        match r {
            Ok(v) => module_path_segs(path@) == Ok::<Seq<Seq<char>>, GenErrorV>(v.deep_view()),
            Err(e) => module_path_segs(path@) == Err::<Seq<Seq<char>>, GenErrorV>(e.deep_view()),
        },
{
    let segs = split_path(path);
    proof {
        lemma_split_nonempty(path@, 0);
        lemma_deep_pointwise(segs);
    }
    let li = segs.len() - 1;
    let n = segs[li].as_str().unicode_len();
    proof {
        lemma_rlast_dot_bounds(segs@[li as int]@, n as int - 1);
    }
    let stripped: String = match rlast_dot_x(segs[li].as_str(), n) {
        Some(d) => {
            if d > 0 {
                String::from_str(segs[li].as_str().substring_char(0, d))
            } else {
                segs[li].clone()
            }
        },
        None => segs[li].clone(),
    };
    let ghost pres = segs;
    let ghost strippedg = stripped;
    let mut segs = segs;
    segs.set(li, stripped);
    proof {
        lemma_deep_update(pres, segs, li as int, strippedg);
        assert(segs.deep_view() =~= split_from(path@, 0).update(
            split_from(path@, 0).len() - 1,
            strip_ext_seg(split_from(path@, 0).last()),
        ));
    }
    match mod_segs_x(&segs, 0) {
        Err(e) => Err(e),
        Ok(kept) => {
            let ghost prek = kept;
            let root = String::from_str("crate");
            let ghost rootg = root;
            let mut kept = kept;
            kept.insert(0, root);
            proof {
                lemma_deep_insert0(prek, kept, rootg);
                assert(rootg@ == "crate"@);
            }
            Ok(kept)
        },
    }
}

/// Path segments joined with `::`, from `i` on.
pub open spec fn join_from(segs: Seq<Seq<char>>, i: int) -> Seq<char>
    decreases segs.len() - i
        when 0 <= i <= segs.len()
{
    if i == segs.len() {
        Seq::empty()
    } else if i == segs.len() - 1 {
        segs[i]
    } else {
        segs[i] + "::"@ + join_from(segs, i + 1)
    }
}

fn join_from_x(segs: &Vec<String>, i: usize) -> (r: String)
    requires
        i <= segs.len(),
    ensures
        r@ == join_from(segs.deep_view(), i as int),
    decreases segs.len() - i,
{
    proof {
        lemma_deep_pointwise(*segs);
    }
    if i == segs.len() {
        let r = String::new();
        assert(r@ =~= join_from(segs.deep_view(), i as int));
        r
    } else if i == segs.len() - 1 {
        segs[i].clone()
    } else {
        let mut out = segs[i].clone();
        out.append("::");
        let rest = join_from_x(segs, i + 1);
        out.append(rest.as_str());
        out
    }
}

/// Path segments joined with `::`.
pub fn join_path(segs: &Vec<String>) -> (r: String)
    ensures
        r@ == join_from(segs.deep_view(), 0),
{
    join_from_x(segs, 0)
}

/// The canonical module path of a unit, as one `::`-joined text.
pub open spec fn module_path_text(p: Seq<char>) -> Result<Seq<char>, GenErrorV> {
    match module_path_segs(p) {
        Err(e) => Err(e),
        Ok(segs) => Ok(join_from(segs, 0)),
    }
}

/// The canonical module path of a unit: for `a/b/c.rs` it is
/// `crate::a::b::c`; boilerplate file names (`main`, `lib`, `mod`) are
/// elided; segments are lower-cased; a segment that cannot stand as an
/// identifier is fatal.
pub fn module_path_of(path: &str) -> (r: Result<String, GenError>)
    ensures
        match r {
            Ok(s) => module_path_text(path@) == Ok::<Seq<char>, GenErrorV>(s@),
            Err(e) => module_path_text(path@) == Err::<Seq<char>, GenErrorV>(e.deep_view()),
        },
{
    match module_path_segments(path) {
        Err(e) => Err(e),
        Ok(segs) => Ok(join_path(&segs)),
    }
}

/// The units that name a source path, in the given order.
pub open spec fn keep_sources(files: Seq<SourceFileV>, i: int) -> Seq<SourceFileV>
    decreases files.len() - i
        when 0 <= i <= files.len()
{
    if i == files.len() {
        Seq::empty()
    } else if is_source_path(files[i].path) {
        seq![files[i]] + keep_sources(files, i + 1)
    } else {
        keep_sources(files, i + 1)
    }
}

fn clone_unit(u: &SourceFile) -> (r: SourceFile)
    ensures
        r.deep_view() == u.deep_view(),
{
    SourceFile { path: u.path.clone(), text: u.text.clone() }
}

fn keep_sources_x(files: &Vec<SourceFile>, i: usize) -> (r: Vec<SourceFile>)
    requires
        i <= files.len(),
    ensures
        r.deep_view() =~= keep_sources(files.deep_view(), i as int),
    decreases files.len() - i,
{
    proof {
        lemma_deep_pointwise(*files);
    }
    if i == files.len() {
        let out: Vec<SourceFile> = Vec::new();
        proof {
            lemma_deep_pointwise(out);
        }
        out
    } else if is_source_file(files[i].path.as_str()) {
        let rest = keep_sources_x(files, i + 1);
        let ghost prer = rest;
        let u = clone_unit(&files[i]);
        let ghost ug = u;
        let mut rest = rest;
        rest.insert(0, u);
        proof {
            lemma_deep_insert0(prer, rest, ug);
        }
        rest
    } else {
        keep_sources_x(files, i + 1)
    }
}

/// The units that name a source path, in the given order.
pub fn keep_source_files(files: &Vec<SourceFile>) -> (r: Vec<SourceFile>)
    ensures
        r.deep_view() =~= keep_sources(files.deep_view(), 0),
{
    keep_sources_x(files, 0)
}

/// `u` placed into the sorted sequence `s`, after every unit whose path
/// comes no later than `u`'s.
pub open spec fn insert_unit(u: SourceFileV, s: Seq<SourceFileV>) -> Seq<SourceFileV>
    decreases s.len(),
{
    if s.len() == 0 {
        seq![u]
    } else if chars_le(s[0].path, u.path) {
        seq![s[0]] + insert_unit(u, s.skip(1))
    } else {
        seq![u] + s
    }
}

/// The units ordered by path: insertion sort, which is total and
/// deterministic, so one tree always scans in one order.
pub open spec fn sort_units(s: Seq<SourceFileV>) -> Seq<SourceFileV>
    decreases s.len(),
{
    if s.len() == 0 {
        Seq::empty()
    } else {
        insert_unit(s[0], sort_units(s.skip(1)))
    }
}

fn insert_unit_x(u: SourceFile, s: Vec<SourceFile>) -> (r: Vec<SourceFile>)
    ensures
        r.deep_view() =~= insert_unit(u.deep_view(), s.deep_view()),
    decreases s@.len(),
{
    proof {
        lemma_deep_pointwise(s);
    }
    if s.len() == 0 {
        let mut out = s;
        let ghost pre = out;
        let ghost ug = u;
        out.push(u);
        proof {
            lemma_deep_push(pre, out, ug);
        }
        out
    } else if chars_le_x(s[0].path.as_str(), u.path.as_str()) {
        let ghost pres = s;
        let mut s = s;
        let h = s.remove(0);
        proof {
            lemma_deep_remove0(pres, s);
        }
        let rest = insert_unit_x(u, s);
        let ghost prer = rest;
        let ghost hg = h;
        let mut rest = rest;
        rest.insert(0, h);
        proof {
            lemma_deep_insert0(prer, rest, hg);
        }
        rest
    } else {
        let ghost pres = s;
        let ghost ug = u;
        let mut s = s;
        s.insert(0, u);
        proof {
            lemma_deep_insert0(pres, s, ug);
        }
        s
    }
}

/// The units ordered by path.
pub fn sort_units_x(s: Vec<SourceFile>) -> (r: Vec<SourceFile>)
    ensures
        r.deep_view() =~= sort_units(s.deep_view()),
    decreases s@.len(),
{
    proof {
        lemma_deep_pointwise(s);
    }
    if s.len() == 0 {
        s
    } else {
        let ghost pres = s;
        let mut s = s;
        let h = s.remove(0);
        proof {
            lemma_deep_remove0(pres, s);
        }
        let sorted = sort_units_x(s);
        insert_unit_x(h, sorted)
    }
}


/// Paths never decrease along the sequence.
pub open spec fn units_ordered(s: Seq<SourceFileV>) -> bool {
    forall|i: int, j: int| 0 <= i < j < s.len() ==> chars_le(#[trigger] s[i].path, #[trigger] s[j].path)
}

/// The unit order is total.
pub proof fn lemma_chars_le_total(a: Seq<char>, b: Seq<char>)
    ensures
        chars_le(a, b) || chars_le(b, a),
    decreases a.len(),
{
    if a.len() > 0 && b.len() > 0 && (a[0] as u32) == (b[0] as u32) {
        lemma_chars_le_total(a.skip(1), b.skip(1));
    }
}

/// The unit order is transitive.
pub proof fn lemma_chars_le_trans(a: Seq<char>, b: Seq<char>, c: Seq<char>)
    requires
        chars_le(a, b),
        chars_le(b, c),
    ensures
        chars_le(a, c),
    decreases a.len(),
{
    if a.len() > 0 && c.len() > 0 && !((a[0] as u32) < (c[0] as u32)) {
        assert(b.len() > 0);
        lemma_chars_le_trans(a.skip(1), b.skip(1), c.skip(1));
    }
}

proof fn lemma_singleton_multiset(u: SourceFileV)
    ensures
        seq![u].to_multiset() =~= Multiset::empty().insert(u),
{
    broadcast use vstd::seq_lib::group_to_multiset_ensures;

    assert(seq![u] =~= Seq::<SourceFileV>::empty().push(u));
    assert forall|x: SourceFileV| true implies Seq::<SourceFileV>::empty().to_multiset().count(x)
        == 0 by {
        assert(!Seq::<SourceFileV>::empty().contains(x));
    }
    assert(Seq::<SourceFileV>::empty().to_multiset() =~= Multiset::<SourceFileV>::empty());
}

/// Placing a unit into an ordered sequence keeps it ordered and adds exactly
/// that unit to its contents.
pub proof fn lemma_insert_unit_ensures(u: SourceFileV, s: Seq<SourceFileV>)
    requires
        units_ordered(s),
    ensures
        units_ordered(insert_unit(u, s)),
        insert_unit(u, s).to_multiset() =~= s.to_multiset().insert(u),
    decreases s.len(),
{
    broadcast use vstd::seq_lib::group_to_multiset_ensures;

    let r = insert_unit(u, s);
    if s.len() == 0 {
        lemma_singleton_multiset(u);
        assert(s.to_multiset() =~= Multiset::<SourceFileV>::empty());
    } else if chars_le(s[0].path, u.path) {
        let tail = s.skip(1);
        assert(units_ordered(tail)) by {
            assert forall|i: int, j: int| 0 <= i < j < tail.len() implies chars_le(
                tail[i].path,
                tail[j].path,
            ) by {
                assert(tail[i] == s[i + 1]);
                assert(tail[j] == s[j + 1]);
            }
        }
        lemma_insert_unit_ensures(u, tail);
        let tr = insert_unit(u, tail);
        assert(r == seq![s[0]] + tr);
        assert(units_ordered(r)) by {
            assert forall|i: int, j: int| 0 <= i < j < r.len() implies chars_le(
                r[i].path,
                r[j].path,
            ) by {
                if i == 0 {
                    let x = r[j];
                    assert(x == tr[j - 1]);
                    assert(tr.contains(x));
                    assert(tr.to_multiset().count(x) > 0);
                    if x == u {
                        assert(chars_le(s[0].path, x.path));
                    } else {
                        assert(tail.to_multiset().insert(u).count(x) > 0);
                        assert(tail.to_multiset().count(x) > 0);
                        assert(tail.contains(x));
                        let k = choose|k: int| 0 <= k < tail.len() && tail[k] == x;
                        assert(tail[k] == s[k + 1]);
                        assert(chars_le(s[0].path, s[k + 1].path));
                    }
                } else {
                    assert(r[i] == tr[i - 1]);
                    assert(r[j] == tr[j - 1]);
                }
            }
        }
        lemma_multiset_commutative(seq![s[0]], tr);
        lemma_multiset_commutative(seq![s[0]], tail);
        lemma_singleton_multiset(s[0]);
        assert(s =~= seq![s[0]] + tail);
        assert(r.to_multiset() =~= s.to_multiset().insert(u));
    } else {
        lemma_chars_le_total(s[0].path, u.path);
        assert(chars_le(u.path, s[0].path));
        assert(r == seq![u] + s);
        assert(units_ordered(r)) by {
            assert forall|i: int, j: int| 0 <= i < j < r.len() implies chars_le(
                r[i].path,
                r[j].path,
            ) by {
                if i == 0 {
                    assert(r[j] == s[j - 1]);
                    if j > 1 {
                        assert(chars_le(s[0].path, s[j - 1].path));
                        lemma_chars_le_trans(u.path, s[0].path, s[j - 1].path);
                    }
                } else {
                    assert(r[i] == s[i - 1]);
                    assert(r[j] == s[j - 1]);
                }
            }
        }
        lemma_multiset_commutative(seq![u], s);
        lemma_singleton_multiset(u);
        assert(r.to_multiset() =~= s.to_multiset().insert(u));
    }
}

/// The scanner's ordering is sound: the ordered unit sequence is a
/// permutation of the given units along which paths never decrease — one
/// tree always scans in one order.
pub proof fn lemma_sort_units_ensures(s: Seq<SourceFileV>)
    ensures
        units_ordered(sort_units(s)),
        sort_units(s).to_multiset() =~= s.to_multiset(),
    decreases s.len(),
{
    broadcast use vstd::seq_lib::group_to_multiset_ensures;

    if s.len() > 0 {
        let tail = s.skip(1);
        lemma_sort_units_ensures(tail);
        lemma_insert_unit_ensures(s[0], sort_units(tail));
        lemma_multiset_commutative(seq![s[0]], tail);
        lemma_singleton_multiset(s[0]);
        assert(s =~= seq![s[0]] + tail);
        assert(sort_units(s).to_multiset() =~= s.to_multiset());
    }
}


/// No two units share a path.
pub open spec fn distinct_paths(s: Seq<SourceFileV>) -> bool {
    forall|i: int, j: int| 0 <= i < j < s.len() ==> (#[trigger] s[i].path) != (#[trigger] s[j].path)
}

/// The unit order is antisymmetric.
pub proof fn lemma_chars_le_antisym(a: Seq<char>, b: Seq<char>)
    requires
        chars_le(a, b),
        chars_le(b, a),
    ensures
        a == b,
    decreases a.len(),
{
    if a.len() > 0 {
        assert(b.len() > 0) by {
            if b.len() == 0 {
                assert(!chars_le(a, b));
            }
        }
        if (a[0] as u32) == (b[0] as u32) {
            lemma_chars_le_antisym(a.skip(1), b.skip(1));
            vstd::utf8::char_u32_cast(a[0], a[0] as u32);
            vstd::utf8::char_u32_cast(b[0], b[0] as u32);
            assert(a[0] == b[0]);
            assert(a =~= b) by {
                assert(forall|j: int| 1 <= j < a.len() ==> a[j] == a.skip(1)[j - 1]);
                assert(forall|j: int| 1 <= j < b.len() ==> b[j] == b.skip(1)[j - 1]);
            }
        } else if (a[0] as u32) < (b[0] as u32) {
            assert(!chars_le(b, a));
        } else {
            assert(!chars_le(a, b));
        }
    } else {
        assert(a =~= b);
    }
}

/// Two ordered sequences with the same units and pairwise distinct paths are
/// one sequence: the ordered arrangement of a tree's units is unique.
pub proof fn lemma_sorted_unique(a: Seq<SourceFileV>, b: Seq<SourceFileV>)
    requires
        units_ordered(a),
        units_ordered(b),
        distinct_paths(a),
        distinct_paths(b),
        a.to_multiset() =~= b.to_multiset(),
    ensures
        a == b,
    decreases a.len(),
{
    broadcast use vstd::seq_lib::group_to_multiset_ensures;

    assert(a.to_multiset().len() == a.len());
    assert(b.to_multiset().len() == b.len());
    assert(a.len() == b.len());
    if a.len() > 0 {
        assert(a.contains(a[0]));
        assert(b.to_multiset().count(a[0]) > 0);
        assert(b.contains(a[0]));
        let k = choose|k: int| 0 <= k < b.len() && b[k] == a[0];
        assert(b.contains(b[0]));
        assert(a.to_multiset().count(b[0]) > 0);
        assert(a.contains(b[0]));
        let m = choose|m: int| 0 <= m < a.len() && a[m] == b[0];
        if k != 0 && m != 0 {
            assert(chars_le(b[0].path, b[k].path));
            assert(chars_le(a[0].path, a[m].path));
            lemma_chars_le_antisym(a[0].path, b[0].path);
            assert(b[k].path == b[0].path);
            assert(false);
        }
        assert(b[0] == a[0]);
        let ta = a.skip(1);
        let tb = b.skip(1);
        assert(a.remove(0) =~= ta);
        assert(b.remove(0) =~= tb);
        assert(ta.to_multiset() =~= a.to_multiset().remove(a[0]));
        assert(tb.to_multiset() =~= b.to_multiset().remove(b[0]));
        assert(ta.to_multiset() =~= tb.to_multiset());
        assert(units_ordered(ta) && distinct_paths(ta)) by {
            assert(forall|j: int| 0 <= j < ta.len() ==> ta[j] == a[j + 1]);
        }
        assert(units_ordered(tb) && distinct_paths(tb)) by {
            assert(forall|j: int| 0 <= j < tb.len() ==> tb[j] == b[j + 1]);
        }
        lemma_sorted_unique(ta, tb);
        assert(a =~= b) by {
            assert(forall|j: int| 1 <= j < a.len() ==> a[j] == ta[j - 1]);
            assert(forall|j: int| 1 <= j < b.len() ==> b[j] == tb[j - 1]);
        }
    } else {
        assert(a =~= b);
    }
}

/// Ordering is canonical: any two arrangements of one set of units, paths
/// pairwise distinct, order to the same sequence.
pub proof fn lemma_sort_units_canonical(s1: Seq<SourceFileV>, s2: Seq<SourceFileV>)
    requires
        s1.to_multiset() =~= s2.to_multiset(),
        distinct_paths(s1),
        distinct_paths(s2),
    ensures
        sort_units(s1) == sort_units(s2),
{
    broadcast use vstd::seq_lib::group_to_multiset_ensures;

    lemma_sort_units_ensures(s1);
    lemma_sort_units_ensures(s2);
    assert(distinct_paths(sort_units(s1))) by {
        lemma_permutation_keeps_distinct(s1, sort_units(s1));
    }
    assert(distinct_paths(sort_units(s2))) by {
        lemma_permutation_keeps_distinct(s2, sort_units(s2));
    }
    lemma_sorted_unique(sort_units(s1), sort_units(s2));
}

pub proof fn lemma_permutation_keeps_distinct(s: Seq<SourceFileV>, t: Seq<SourceFileV>)
    requires
        distinct_paths(s),
        s.to_multiset() =~= t.to_multiset(),
    ensures
        distinct_paths(t),
{
    broadcast use vstd::seq_lib::group_to_multiset_ensures;

    assert forall|i: int, j: int| 0 <= i < j < t.len() implies (#[trigger] t[i].path) != (
    #[trigger] t[j].path) by {
        if t[i] == t[j] {
            lemma_dup_count(t, i, j);
            assert(s.to_multiset().count(t[i]) >= 2);
            lemma_count_two_indices(s, t[i]);
        } else {
            assert(t.contains(t[i]));
            assert(t.contains(t[j]));
            assert(s.to_multiset().count(t[i]) > 0);
            assert(s.to_multiset().count(t[j]) > 0);
            assert(s.contains(t[i]));
            assert(s.contains(t[j]));
            if t[i].path == t[j].path {
                let x = choose|x: int| 0 <= x < s.len() && s[x] == t[i];
                let y = choose|y: int| 0 <= y < s.len() && s[y] == t[j];
                assert(x != y);
                assert(false);
            }
        }
    }
}

proof fn lemma_dup_count(t: Seq<SourceFileV>, i: int, j: int)
    requires
        0 <= i < j < t.len(),
        t[i] == t[j],
    ensures
        t.to_multiset().count(t[i]) >= 2,
{
    broadcast use vstd::seq_lib::group_to_multiset_ensures;

    let r = t.remove(j);
    assert(r.to_multiset() =~= t.to_multiset().remove(t[j]));
    assert(r[i] == t[i]);
    assert(r.contains(t[i]));
    assert(r.to_multiset().count(t[i]) > 0);
}

proof fn lemma_count_two_indices(s: Seq<SourceFileV>, x: SourceFileV)
    requires
        s.to_multiset().count(x) >= 2,
    ensures
        exists|i: int, j: int| 0 <= i < j < s.len() && s[i] == x && s[j] == x,
{
    broadcast use vstd::seq_lib::group_to_multiset_ensures;

    assert(s.contains(x));
    let i = choose|i: int| 0 <= i < s.len() && s[i] == x;
    let r = s.remove(i);
    assert(r.to_multiset() =~= s.to_multiset().remove(x));
    assert(r.to_multiset().count(x) >= 1);
    assert(r.contains(x));
    let j = choose|j: int| 0 <= j < r.len() && r[j] == x;
    if j < i {
        assert(s[j] == r[j]);
        assert(0 <= j < i < s.len() && s[j] == x && s[i] == x);
    } else {
        assert(s[j + 1] == r[j]);
        assert(0 <= i < j + 1 < s.len() && s[i] == x && s[j + 1] == x);
    }
}

} // verus!
