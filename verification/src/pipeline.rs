//! The whole generation run as one forward pass: order the source units,
//! classify each parseable one (a unit that does not parse is skipped and
//! reported, never fatal), fold the items into protocol records, keep the
//! generatable protocols, and emit their fragments as one artifact.

use vstd::prelude::*;
use crate::classify::{
    ClassifiedItem, ClassifiedItemV, append_items, classify_items, classify_unit,
};
use crate::error::{GenError, GenErrorV};
use crate::outside::{parse_unit, parsed_items_of};
use crate::protocol::{aggregate, aggregate_x, keep_generatable, keep_generatable_x};
use crate::scan::{
    SourceFile, SourceFileV, keep_sources, module_path_segs, module_path_segments, sort_units,
    sort_units_x,
};
use crate::synth::{synth_all, synth_from};
use crate::util::{append_strings, lemma_deep_pointwise};

verus! {

/// A successful run: the artifact to write, and the paths of the units that
/// were skipped because they did not parse.
pub struct GenOut {
    pub artifact: String,
    pub skipped: Vec<String>,
}

/// The mathematical value of a `GenOut`.
pub struct GenOutV {
    pub artifact: Seq<char>,
    pub skipped: Seq<Seq<char>>,
}

impl DeepView for GenOut {
    type V = GenOutV;

    open spec fn deep_view(&self) -> GenOutV {
        GenOutV { artifact: self.artifact@, skipped: self.skipped.deep_view() }
    }
}

/// What the classifier stage yields: the classified items of every unit, in
/// order, and the skipped paths.
pub struct ScanV {
    pub items: Seq<ClassifiedItemV>,
    pub skipped: Seq<Seq<char>>,
}

/// One unit processed: its module path first (a segment that cannot become
/// an identifier is fatal), then its text parsed — a unit that does not
/// parse yields no items and is recorded as skipped.
pub open spec fn process_unit(u: SourceFileV) -> Result<
    (Seq<ClassifiedItemV>, Option<Seq<char>>),
    GenErrorV,
> {
    match module_path_segs(u.path) {
        Err(e) => Err(e),
        Ok(fqp) => match parsed_items_of(u.text) {
            None => Ok((Seq::empty(), Some(u.path))),
            Some(items) => match classify_items(fqp, items) {
                Err(e) => Err(e),
                Ok(cs) => Ok((cs, None)),
            },
        },
    }
}

/// The units from `i` on processed in order; the first fatal condition wins.
pub open spec fn scan_units(units: Seq<SourceFileV>, i: int) -> Result<ScanV, GenErrorV>
    decreases units.len() - i
        when 0 <= i <= units.len()
{
    if i == units.len() {
        Ok(ScanV { items: Seq::empty(), skipped: Seq::empty() })
    } else {
        match process_unit(units[i]) {
            Err(e) => Err(e),
            Ok((cs, sk)) => match scan_units(units, i + 1) {
                Err(e) => Err(e),
                Ok(rest) => Ok(
                    ScanV {
                        items: cs + rest.items,
                        skipped: (match sk {
                            Some(p) => seq![p],
                            None => Seq::empty(),
                        }) + rest.skipped,
                    },
                ),
            },
        }
    }
}

/// The whole run on a set of source files: recognized source units only,
/// ordered by path, scanned, aggregated, filtered, synthesized. `Ok` holds
/// the full artifact; any fatal condition aborts the run with no artifact.
pub open spec fn generate_spec(files: Seq<SourceFileV>) -> Result<GenOutV, GenErrorV> {
    let sorted = sort_units(keep_sources(files, 0));
    match scan_units(sorted, 0) {
        Err(e) => Err(e),
        Ok(sc) => match aggregate(sc.items) {
            Err(e) => Err(e),
            Ok(ps) => match synth_from(keep_generatable(ps), 0) {
                Err(e) => Err(e),
                Ok(text) => Ok(GenOutV { artifact: text, skipped: sc.skipped }),
            },
        },
    }
}

fn process_unit_x(u: &SourceFile) -> (r: Result<(Vec<ClassifiedItem>, Option<String>), GenError>)
    ensures
        match r {
            Ok(p) => process_unit(u.deep_view()) == Ok::<
                (Seq<ClassifiedItemV>, Option<Seq<char>>),
                GenErrorV,
            >((p.0.deep_view(), p.1.deep_view())),
            Err(e) => process_unit(u.deep_view()) == Err::<
                (Seq<ClassifiedItemV>, Option<Seq<char>>),
                GenErrorV,
            >(e.deep_view()),
        },
{
    match module_path_segments(u.path.as_str()) {
        Err(e) => Err(e),
        Ok(fqp) => match parse_unit(u.text.as_str()) {
            None => {
                let none_items: Vec<ClassifiedItem> = Vec::new();
                proof {
                    lemma_deep_pointwise(none_items);
                    assert(none_items.deep_view() =~= Seq::<ClassifiedItemV>::empty());
                }
                Ok((none_items, Some(u.path.clone())))
            },
            Some(items) => match classify_unit(&fqp, &items) {
                Err(e) => Err(e),
                Ok(cs) => Ok((cs, None)),
            },
        },
    }
}

fn scan_units_x(units: &Vec<SourceFile>, i: usize) -> (r: Result<
    (Vec<ClassifiedItem>, Vec<String>),
    GenError,
>)
    requires
        i <= units.len(),
    ensures
        match r {
            Ok(p) => scan_units(units.deep_view(), i as int) == Ok::<ScanV, GenErrorV>(
                ScanV { items: p.0.deep_view(), skipped: p.1.deep_view() },
            ),
            Err(e) => scan_units(units.deep_view(), i as int) == Err::<ScanV, GenErrorV>(
                e.deep_view(),
            ),
        },
    decreases units.len() - i,
{
    proof {
        lemma_deep_pointwise(*units);
    }
    if i == units.len() {
        let items: Vec<ClassifiedItem> = Vec::new();
        let skipped: Vec<String> = Vec::new();
        proof {
            lemma_deep_pointwise(items);
            lemma_deep_pointwise(skipped);
            assert(items.deep_view() =~= Seq::<ClassifiedItemV>::empty());
            assert(skipped.deep_view() =~= Seq::<Seq<char>>::empty());
        }
        Ok((items, skipped))
    } else {
        match process_unit_x(&units[i]) {
            Err(e) => Err(e),
            Ok((mut cs, sk)) => match scan_units_x(units, i + 1) {
                Err(e) => Err(e),
                Ok((rest_items, rest_skipped)) => {
                    append_items(&mut cs, &rest_items);
                    let mut skipped: Vec<String> = Vec::new();
                    let ghost pre_sk = skipped;
                    match sk {
                        Some(p) => {
                            let ghost pg = p;
                            skipped.push(p);
                            proof {
                                crate::util::lemma_deep_push(pre_sk, skipped, pg);
                                lemma_deep_pointwise(pre_sk);
                                assert(skipped.deep_view() =~= seq![pg@]);
                            }
                        },
                        None => {
                            proof {
                                lemma_deep_pointwise(skipped);
                                assert(skipped.deep_view() =~= Seq::<Seq<char>>::empty());
                            }
                        },
                    }
                    append_strings(&mut skipped, &rest_skipped);
                    Ok((cs, skipped))
                },
            },
        }
    }
}

/// Runs the whole generation pass over a set of source files. Succeeds with
/// the artifact and the skipped paths exactly when no fatal condition
/// arises; a fatal condition yields its error and no artifact.
pub fn generate(files: &Vec<SourceFile>) -> (r: Result<GenOut, GenError>)
    ensures
        match r {
            Ok(o) => generate_spec(files.deep_view()) == Ok::<GenOutV, GenErrorV>(o.deep_view()),
            Err(e) => generate_spec(files.deep_view()) == Err::<GenOutV, GenErrorV>(e.deep_view()),
        },
        (r is Ok) == (generate_spec(files.deep_view()) is Ok),
{
    let sources = crate::scan::keep_source_files(files);
    let sorted = sort_units_x(sources);
    match scan_units_x(&sorted, 0) {
        Err(e) => Err(e),
        Ok((items, skipped)) => match aggregate_x(&items) {
            Err(e) => Err(e),
            Ok(ps) => {
                let kept = keep_generatable_x(ps);
                match synth_all(&kept) {
                    Err(e) => Err(e),
                    Ok(text) => Ok(GenOut { artifact: text, skipped }),
                }
            },
        },
    }
}

} // verus!
