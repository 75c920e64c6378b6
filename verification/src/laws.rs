//! The library's laws: properties of the pipeline that hold for all inputs,
//! stated over the same spec functions that the executable functions'
//! contracts use, and proved here.

use vstd::prelude::*;
use crate::classify::{ClassifiedItemV, ItemKindV, SyncTagV};
use crate::outside::{ident_text_ok, lower_of, parsed_items_of};
use crate::pipeline::{generate_spec, process_unit, scan_units};
use crate::protocol::{
    ProtocolV, aggregate, aggregate_items, apply_classified, find_from, is_complete,
    is_generatable, keep_generatable, lemma_find_push, lemma_find_spec, new_protocol,
};
use crate::scan::{
    SourceFileV, distinct_paths, is_boilerplate, is_source_path, keep_sources,
    lemma_permutation_keeps_distinct, lemma_sort_units_canonical, lemma_sort_units_ensures,
    lemma_sorted_unique, module_path_segs, mod_segs_from, sort_units, split_from, strip_ext_seg,
    units_ordered,
};
use crate::synth::{comp_variant, comp_variants, delim_close_text, delim_open_text, sync_attr};

verus! {

/// Determinism: the outcome of a run, artifact and skipped paths alike, is a
/// function of the source files' paths and texts alone. Together with the
/// contract of `generate`, repeated runs over an unchanged tree produce
/// byte-identical artifacts.
pub proof fn lemma_deterministic(a: Seq<SourceFileV>, b: Seq<SourceFileV>)
    requires
        a == b,
    ensures
        generate_spec(a) == generate_spec(b),
{
}

/// Determinism under arrangement: two runs over the same set of source
/// units — equal paths and texts in any order, paths pairwise distinct, as
/// one tree always yields them — have the same outcome, artifact and
/// skipped paths alike.
pub proof fn lemma_order_insensitive(f1: Seq<SourceFileV>, f2: Seq<SourceFileV>)
    requires
        keep_sources(f1, 0).to_multiset() =~= keep_sources(f2, 0).to_multiset(),
        distinct_paths(keep_sources(f1, 0)),
        distinct_paths(keep_sources(f2, 0)),
    ensures
        generate_spec(f1) == generate_spec(f2),
{
    lemma_sort_units_canonical(keep_sources(f1, 0), keep_sources(f2, 0));
}

/// Module-path correctness, ordinary case: a unit at `a/b/c` (after its
/// extension is stripped from the last segment) maps to the namespace token
/// followed by the three lower-cased segments, in order.
pub proof fn lemma_module_path_three(p: Seq<char>, a: Seq<char>, b: Seq<char>, c: Seq<char>)
    requires
        split_from(p, 0) == seq![a, b, c],
        !is_boilerplate(lower_of(a)),
        ident_text_ok(lower_of(a)),
        !is_boilerplate(lower_of(b)),
        ident_text_ok(lower_of(b)),
        !is_boilerplate(lower_of(strip_ext_seg(c))),
        ident_text_ok(lower_of(strip_ext_seg(c))),
    ensures
        module_path_segs(p) == Ok::<Seq<Seq<char>>, crate::error::GenErrorV>(
            seq!["crate"@, lower_of(a), lower_of(b), lower_of(strip_ext_seg(c))],
        ),
{
    let segs = split_from(p, 0);
    let stripped = segs.update(segs.len() - 1, strip_ext_seg(segs.last()));
    assert(stripped =~= seq![a, b, strip_ext_seg(c)]);
    assert(mod_segs_from(stripped, 3) == Ok::<Seq<Seq<char>>, crate::error::GenErrorV>(
        Seq::empty(),
    ));
    assert(mod_segs_from(stripped, 2) == Ok::<Seq<Seq<char>>, crate::error::GenErrorV>(
        seq![lower_of(strip_ext_seg(c))] + Seq::empty(),
    ));
    assert(mod_segs_from(stripped, 1) == Ok::<Seq<Seq<char>>, crate::error::GenErrorV>(
        seq![lower_of(b)] + (seq![lower_of(strip_ext_seg(c))] + Seq::empty()),
    ));
    assert(mod_segs_from(stripped, 0) == Ok::<Seq<Seq<char>>, crate::error::GenErrorV>(
        seq![lower_of(a)] + (seq![lower_of(b)] + (seq![lower_of(strip_ext_seg(c))]
            + Seq::empty())),
    ));
    assert(seq!["crate"@] + (seq![lower_of(a)] + (seq![lower_of(b)] + (seq![lower_of(
        strip_ext_seg(c),
    )] + Seq::empty()))) =~= seq![
        "crate"@,
        lower_of(a),
        lower_of(b),
        lower_of(strip_ext_seg(c)),
    ]);
}

/// Module-path correctness, boilerplate case: a unit at `a/main` (extension
/// already stripped) maps to the namespace token and `a` alone — the
/// boilerplate file name is elided.
pub proof fn lemma_module_path_elides_boilerplate(p: Seq<char>, a: Seq<char>, m: Seq<char>)
    requires
        split_from(p, 0) == seq![a, m],
        !is_boilerplate(lower_of(a)),
        ident_text_ok(lower_of(a)),
        is_boilerplate(lower_of(strip_ext_seg(m))),
    ensures
        module_path_segs(p) == Ok::<Seq<Seq<char>>, crate::error::GenErrorV>(
            seq!["crate"@, lower_of(a)],
        ),
{
    let segs = split_from(p, 0);
    let stripped = segs.update(segs.len() - 1, strip_ext_seg(segs.last()));
    assert(stripped =~= seq![a, strip_ext_seg(m)]);
    assert(mod_segs_from(stripped, 2) == Ok::<Seq<Seq<char>>, crate::error::GenErrorV>(
        Seq::empty(),
    ));
    assert(mod_segs_from(stripped, 1) == Ok::<Seq<Seq<char>>, crate::error::GenErrorV>(
        Seq::empty(),
    ));
    assert(mod_segs_from(stripped, 0) == Ok::<Seq<Seq<char>>, crate::error::GenErrorV>(
        seq![lower_of(a)] + Seq::empty(),
    ));
    assert(seq!["crate"@] + (seq![lower_of(a)] + Seq::empty()) =~= seq!["crate"@, lower_of(a)]);
}

/// Aggregate completeness: a component aggregate synthesized for exactly the
/// components `x` (tagged `s1`) and `y` (untagged) holds exactly their two
/// variants, in that order — `x`'s with its tag re-emitted, `y`'s with the
/// documented default mode.
pub proof fn lemma_aggregate_completeness(
    protocol: Seq<char>,
    agg: Seq<char>,
    x: crate::protocol::CompRefV,
    y: crate::protocol::CompRefV,
    s1: SyncTagV,
)
    requires
        x.sync == Some(s1),
        y.sync == None::<SyncTagV>,
    ensures
        comp_variants(seq![x, y], 0) =~= comp_variant(x) + comp_variant(y),
        sync_attr(x.sync) == "#[sync"@ + delim_open_text(s1.open) + s1.inner + delim_close_text(
            s1.open,
        ) + "]"@,
        sync_attr(y.sync) == "#[sync(simple)]"@,
{
    let cs = seq![x, y];
    assert(comp_variants(cs, 2) == Seq::<char>::empty());
    assert(comp_variants(cs, 1) == comp_variant(y) + Seq::<char>::empty());
    assert(comp_variants(cs, 0) == comp_variant(x) + (comp_variant(y) + Seq::<char>::empty()));
    assert(comp_variant(x) + (comp_variant(y) + Seq::<char>::empty()) =~= comp_variant(x)
        + comp_variant(y));
}

/// Whether the first record named `n` exists and already carries a component
/// aggregate.
pub open spec fn has_comp_agg(ps: Seq<ProtocolV>, n: Seq<char>) -> bool {
    find_from(ps, n, 0) < ps.len() && ps[find_from(ps, n, 0)].component_aggregate is Some
}

proof fn lemma_find_update_same_name(ps: Seq<ProtocolV>, k: int, p2: ProtocolV, n: Seq<char>, i: int)
    requires
        0 <= k < ps.len(),
        p2.name == ps[k].name,
        0 <= i <= ps.len(),
    ensures
        find_from(ps.update(k, p2), n, i) == find_from(ps, n, i),
    decreases ps.len() - i,
{
    if i < ps.len() {
        assert(ps.update(k, p2)[i].name == ps[i].name);
        if ps[i].name != n {
            lemma_find_update_same_name(ps, k, p2, n, i + 1);
        }
    }
}

proof fn lemma_apply_preserves_comp_agg(ps: Seq<ProtocolV>, it: ClassifiedItemV, n: Seq<char>)
    requires
        has_comp_agg(ps, n),
    ensures
        match apply_classified(ps, it) {
            Ok(ps2) => has_comp_agg(ps2, n),
            Err(_) => true,
        },
{
    let ps1 = if find_from(ps, it.protocol, 0) < ps.len() {
        ps
    } else {
        ps.push(new_protocol(it.protocol))
    };
    lemma_find_spec(ps, n, 0);
    lemma_find_spec(ps, it.protocol, 0);
    lemma_find_push(ps, new_protocol(it.protocol), n, 0);
    lemma_find_push(ps, new_protocol(it.protocol), it.protocol, 0);
    assert(find_from(ps1, n, 0) == find_from(ps, n, 0));
    lemma_find_spec(ps1, n, 0);
    lemma_find_spec(ps1, it.protocol, 0);
    let idx = find_from(ps1, it.protocol, 0);
    let fn_ = find_from(ps1, n, 0);
    match apply_classified(ps, it) {
        Ok(ps2) => {
            let p = ps1[idx];
            let p2 = match it.kind {
                ItemKindV::Binding => ProtocolV { binding: Some(it.path), ..p },
                ItemKindV::ComponentAggregate => ProtocolV {
                    component_aggregate: Some(it.path),
                    ..p
                },
                ItemKindV::MessageAggregate => ProtocolV { message_aggregate: Some(it.path), ..p },
                ItemKindV::InputAggregate => ProtocolV { input_aggregate: Some(it.path), ..p },
                ItemKindV::Component { sync } => ProtocolV {
                    components: p.components.push(crate::protocol::CompRefV { path: it.path, sync }),
                    ..p
                },
                ItemKindV::Message => ProtocolV { messages: p.messages.push(it.path), ..p },
                ItemKindV::Input => ProtocolV { inputs: p.inputs.push(it.path), ..p },
            };
            assert(ps2 == ps1.update(idx, p2));
            assert(p2.name == p.name);
            assert(p.component_aggregate is Some ==> p2.component_aggregate is Some);
            lemma_find_update_same_name(ps1, idx, p2, n, 0);
            assert(find_from(ps2, n, 0) == fn_);
            if idx == fn_ {
                assert(ps2[fn_] == p2);
            } else {
                assert(ps2[fn_] == ps1[fn_]);
            }
        },
        Err(_) => {},
    }
}

proof fn lemma_apply_sets_comp_agg(ps: Seq<ProtocolV>, it: ClassifiedItemV)
    requires
        it.kind is ComponentAggregate,
    ensures
        match apply_classified(ps, it) {
            Ok(ps2) => has_comp_agg(ps2, it.protocol),
            Err(_) => true,
        },
{
    let ps1 = if find_from(ps, it.protocol, 0) < ps.len() {
        ps
    } else {
        ps.push(new_protocol(it.protocol))
    };
    lemma_find_spec(ps, it.protocol, 0);
    lemma_find_push(ps, new_protocol(it.protocol), it.protocol, 0);
    lemma_find_spec(ps1, it.protocol, 0);
    let idx = find_from(ps1, it.protocol, 0);
    match apply_classified(ps, it) {
        Ok(ps2) => {
            let p = ps1[idx];
            assert(ps2 == ps1.update(idx, ProtocolV { component_aggregate: Some(it.path), ..p }));
            lemma_find_update_same_name(
                ps1,
                idx,
                ProtocolV { component_aggregate: Some(it.path), ..p },
                it.protocol,
                0,
            );
            assert(find_from(ps2, it.protocol, 0) == idx);
        },
        Err(_) => {},
    }
}

proof fn lemma_dup_after(ps: Seq<ProtocolV>, items: Seq<ClassifiedItemV>, t: int, j: int)
    requires
        0 <= t <= j < items.len(),
        items[j].kind is ComponentAggregate,
        has_comp_agg(ps, items[j].protocol),
    ensures
        aggregate_items(ps, items, t) is Err,
    decreases j - t,
{
    let n = items[j].protocol;
    if t == j {
        lemma_find_spec(ps, n, 0);
        let ps1 = if find_from(ps, n, 0) < ps.len() {
            ps
        } else {
            ps.push(new_protocol(n))
        };
        assert(ps1 == ps);
    } else {
        lemma_apply_preserves_comp_agg(ps, items[t], n);
        match apply_classified(ps, items[t]) {
            Ok(ps2) => {
                lemma_dup_after(ps2, items, t + 1, j);
            },
            Err(_) => {},
        }
    }
}

proof fn lemma_dup_before(ps: Seq<ProtocolV>, items: Seq<ClassifiedItemV>, t: int, i: int, j: int)
    requires
        0 <= t <= i < j < items.len(),
        items[i].kind is ComponentAggregate,
        items[j].kind is ComponentAggregate,
        items[i].protocol == items[j].protocol,
    ensures
        aggregate_items(ps, items, t) is Err,
    decreases i - t,
{
    if t == i {
        lemma_apply_sets_comp_agg(ps, items[i]);
        match apply_classified(ps, items[i]) {
            Ok(ps2) => {
                lemma_dup_after(ps2, items, i + 1, j);
            },
            Err(_) => {},
        }
    } else {
        match apply_classified(ps, items[t]) {
            Ok(ps2) => {
                lemma_dup_before(ps2, items, t + 1, i, j);
            },
            Err(_) => {},
        }
    }
}

/// Singleton enforcement: two items both tagging a component aggregate for
/// the same protocol name make aggregation fail, whatever else the item
/// sequence holds — so the run aborts and no artifact is emitted.
pub proof fn lemma_singleton_enforcement(items: Seq<ClassifiedItemV>, i: int, j: int)
    requires
        0 <= i < j < items.len(),
        items[i].kind is ComponentAggregate,
        items[j].kind is ComponentAggregate,
        items[i].protocol == items[j].protocol,
    ensures
        aggregate(items) is Err,
{
    lemma_dup_before(Seq::empty(), items, 0, i, j);
}

/// Everything the completeness filter keeps is generatable.
pub proof fn lemma_keep_generatable_sound(ps: Seq<ProtocolV>)
    ensures
        forall|k: int|
            0 <= k < keep_generatable(ps).len() ==> is_generatable(#[trigger] keep_generatable(
                ps,
            )[k]),
    decreases ps.len(),
{
    if ps.len() > 0 {
        lemma_keep_generatable_sound(ps.skip(1));
        if is_generatable(ps[0]) {
            assert forall|k: int| 0 <= k < keep_generatable(ps).len() implies is_generatable(
                keep_generatable(ps)[k],
            ) by {
                if k > 0 {
                    assert(keep_generatable(ps)[k] == keep_generatable(ps.skip(1))[k - 1]);
                }
            }
        } else {
            assert(keep_generatable(ps) == keep_generatable(ps.skip(1)));
            assert forall|k: int| 0 <= k < keep_generatable(ps).len() implies is_generatable(
                keep_generatable(ps)[k],
            ) by {
                assert(keep_generatable(ps)[k] == keep_generatable(ps.skip(1))[k]);
            }
        }
    }
}

/// Completeness classification: a protocol with a binding and a component
/// aggregate but no message aggregate is neither complete nor generatable,
/// and nothing equal to its record survives the completeness filter — it is
/// excluded from generated output entirely.
pub proof fn lemma_partial_protocol_excluded(p: ProtocolV)
    requires
        p.binding is Some,
        p.component_aggregate is Some,
        p.message_aggregate is None,
    ensures
        !is_complete(p),
        !is_generatable(p),
        forall|ps: Seq<ProtocolV>, k: int|
            0 <= k < keep_generatable(ps).len() ==> #[trigger] keep_generatable(ps)[k] != p,
{
    assert forall|ps: Seq<ProtocolV>, k: int|
        0 <= k < keep_generatable(ps).len() implies #[trigger] keep_generatable(ps)[k] != p by {
        lemma_keep_generatable_sound(ps);
    }
}


proof fn lemma_keep_sources_push(f: Seq<SourceFileV>, x: SourceFileV, i: int)
    requires
        0 <= i <= f.len(),
    ensures
        keep_sources(f.push(x), i) == if is_source_path(x.path) {
            keep_sources(f, i).push(x)
        } else {
            keep_sources(f, i)
        },
    decreases f.len() - i,
{
    if i == f.len() {
        assert(f.push(x)[i] == x);
        assert(keep_sources(f.push(x), i + 1) =~= Seq::<SourceFileV>::empty());
        assert(keep_sources(f, i) =~= Seq::<SourceFileV>::empty());
        if is_source_path(x.path) {
            assert(keep_sources(f.push(x), i) =~= seq![x] + Seq::<SourceFileV>::empty());
            assert(keep_sources(f, i).push(x) =~= seq![x] + Seq::<SourceFileV>::empty());
        }
    } else {
        lemma_keep_sources_push(f, x, i + 1);
        assert(f.push(x)[i] == f[i]);
        if is_source_path(f[i].path) && is_source_path(x.path) {
            assert(seq![f[i]] + keep_sources(f, i + 1).push(x) =~= (seq![f[i]] + keep_sources(
                f,
                i + 1,
            )).push(x));
        }
    }
}

proof fn lemma_ordered_remove(s: Seq<SourceFileV>, k: int)
    requires
        units_ordered(s),
        0 <= k < s.len(),
    ensures
        units_ordered(s.remove(k)),
        distinct_paths(s) ==> distinct_paths(s.remove(k)),
{
    let r = s.remove(k);
    assert(forall|j: int| 0 <= j < k ==> r[j] == s[j]);
    assert(forall|j: int| k <= j < r.len() ==> r[j] == s[j + 1]);
}

/// Parse-skip isolation, at the artifact: adding one more source unit that
/// fails to parse (its path sound, no other unit sharing a path) leaves the
/// emitted artifact — and any fatal outcome — exactly as it was; only the
/// skipped-path report grows.
pub proof fn lemma_parse_skip_artifact(f: Seq<SourceFileV>, bad: SourceFileV)
    requires
        is_source_path(bad.path),
        module_path_segs(bad.path) is Ok,
        parsed_items_of(bad.text) is None,
        distinct_paths(keep_sources(f.push(bad), 0)),
    ensures
        match (generate_spec(f.push(bad)), generate_spec(f)) {
            (Ok(a), Ok(b)) => a.artifact == b.artifact,
            (Err(e1), Err(e2)) => e1 == e2,
            _ => false,
        },
{
    broadcast use vstd::seq_lib::group_to_multiset_ensures;

    let kept1 = keep_sources(f.push(bad), 0);
    let kept0 = keep_sources(f, 0);
    lemma_keep_sources_push(f, bad, 0);
    assert(kept1 == kept0.push(bad));
    let s1 = sort_units(kept1);
    let s0 = sort_units(kept0);
    lemma_sort_units_ensures(kept1);
    lemma_sort_units_ensures(kept0);
    assert(kept1[kept1.len() - 1] == bad);
    assert(kept1.contains(bad));
    assert(kept1.to_multiset().count(bad) > 0);
    assert(s1.to_multiset().count(bad) > 0);
    assert(s1.contains(bad));
    let k = choose|k: int| 0 <= k < s1.len() && s1[k] == bad;
    let r = s1.remove(k);
    lemma_permutation_keeps_distinct(kept1, s1);
    lemma_ordered_remove(s1, k);
    assert(r.to_multiset() =~= s1.to_multiset().remove(bad));
    assert(kept1.to_multiset() =~= kept0.to_multiset().insert(bad));
    assert(r.to_multiset() =~= kept0.to_multiset());
    assert(distinct_paths(kept0)) by {
        assert(forall|j: int| 0 <= j < kept0.len() ==> kept0[j] == kept1[j]);
    }
    lemma_permutation_keeps_distinct(kept0, s0);
    lemma_sorted_unique(r, s0);
    lemma_parse_skip_isolation(s1, k);
    assert(scan_units(r, 0) == scan_units(s0, 0));
}

proof fn lemma_scan_shift(units: Seq<SourceFileV>, k: int, t: int)
    requires
        0 <= k < units.len(),
        k <= t <= units.len() - 1,
    ensures
        scan_units(units.remove(k), t) == scan_units(units, t + 1),
    decreases units.len() - t,
{
    let r = units.remove(k);
    assert(r.len() == units.len() - 1);
    if t == r.len() {
        assert(scan_units(r, t) == scan_units(units, t + 1));
    } else {
        assert(r[t] == units[t + 1]);
        lemma_scan_shift(units, k, t + 1);
    }
}

proof fn lemma_skip_from(units: Seq<SourceFileV>, k: int, t: int)
    requires
        0 <= t <= k < units.len(),
        module_path_segs(units[k].path) is Ok,
        parsed_items_of(units[k].text) is None,
    ensures
        match (scan_units(units, t), scan_units(units.remove(k), t)) {
            (Ok(a), Ok(b)) => a.items == b.items,
            (Err(e1), Err(e2)) => e1 == e2,
            _ => false,
        },
    decreases k - t,
{
    let r = units.remove(k);
    if t == k {
        assert(process_unit(units[k]) == Ok::<
            (Seq<ClassifiedItemV>, Option<Seq<char>>),
            crate::error::GenErrorV,
        >((Seq::empty(), Some(units[k].path))));
        if t <= units.len() - 1 {
            lemma_scan_shift(units, k, t);
        }
        match scan_units(units, t + 1) {
            Ok(rest) => {
                assert(Seq::<ClassifiedItemV>::empty() + rest.items =~= rest.items);
            },
            Err(_) => {},
        }
    } else {
        assert(r[t] == units[t]);
        lemma_skip_from(units, k, t + 1);
    }
}

/// Parse-skip isolation: a unit whose text does not parse (and whose path is
/// sound) contributes nothing — scanning the ordered unit sequence with it
/// yields exactly the classified items of the sequence without it, and the
/// same fatal outcome if any; only the skipped-path report differs. The
/// stages after the scanner see only those items, so the artifact for the
/// unaffected protocols is untouched.
pub proof fn lemma_parse_skip_isolation(units: Seq<SourceFileV>, k: int)
    requires
        0 <= k < units.len(),
        module_path_segs(units[k].path) is Ok,
        parsed_items_of(units[k].text) is None,
    ensures
        match (scan_units(units, 0), scan_units(units.remove(k), 0)) {
            (Ok(a), Ok(b)) => a.items == b.items,
            (Err(e1), Err(e2)) => e1 == e2,
            _ => false,
        },
{
    lemma_skip_from(units, k, 0);
}

} // verus!
