//! The protocol aggregator: folds the classified items, in encounter order,
//! into one record per protocol name, enforcing the at-most-one invariants
//! for the singleton roles; and the completeness filter that decides which
//! protocols generation may touch.

use vstd::prelude::*;
use crate::classify::{ClassifiedItem, ClassifiedItemV, ItemKind, ItemKindV, SyncTag, SyncTagV};
use crate::error::{GenError, GenErrorV};
use crate::util::{
    eq_str, lemma_deep_insert, lemma_deep_insert0, lemma_deep_pointwise, lemma_deep_push,
    lemma_deep_remove, lemma_deep_remove0,
};

verus! {

/// A reference to one tagged component declaration: its qualified path and
/// its optional synchronization tag.
pub struct CompRef {
    pub path: Vec<String>,
    pub sync: Option<SyncTag>,
}

/// The mathematical value of a `CompRef`.
pub struct CompRefV {
    pub path: Seq<Seq<char>>,
    pub sync: Option<SyncTagV>,
}

impl DeepView for CompRef {
    type V = CompRefV;

    open spec fn deep_view(&self) -> CompRefV {
        CompRefV { path: self.path.deep_view(), sync: self.sync.deep_view() }
    }
}

/// One protocol's record: the singleton roles, each at most once, and the
/// accumulated lists, in encounter order.
pub struct Protocol {
    pub name: String,
    pub binding: Option<Vec<String>>,
    pub component_aggregate: Option<Vec<String>>,
    pub message_aggregate: Option<Vec<String>>,
    pub input_aggregate: Option<Vec<String>>,
    pub components: Vec<CompRef>,
    pub messages: Vec<Vec<String>>,
    pub inputs: Vec<Vec<String>>,
}

/// The mathematical value of a `Protocol`.
pub struct ProtocolV {
    pub name: Seq<char>,
    pub binding: Option<Seq<Seq<char>>>,
    pub component_aggregate: Option<Seq<Seq<char>>>,
    pub message_aggregate: Option<Seq<Seq<char>>>,
    pub input_aggregate: Option<Seq<Seq<char>>>,
    pub components: Seq<CompRefV>,
    pub messages: Seq<Seq<Seq<char>>>,
    pub inputs: Seq<Seq<Seq<char>>>,
}

impl DeepView for Protocol {
    type V = ProtocolV;

    open spec fn deep_view(&self) -> ProtocolV {
        ProtocolV {
            name: self.name@,
            binding: self.binding.deep_view(),
            component_aggregate: self.component_aggregate.deep_view(),
            message_aggregate: self.message_aggregate.deep_view(),
            input_aggregate: self.input_aggregate.deep_view(),
            components: self.components.deep_view(),
            messages: self.messages.deep_view(),
            inputs: self.inputs.deep_view(),
        }
    }
}

/// A fresh record for a protocol seen for the first time.
pub open spec fn new_protocol(name: Seq<char>) -> ProtocolV {
    ProtocolV {
        name,
        binding: None,
        component_aggregate: None,
        message_aggregate: None,
        input_aggregate: None,
        components: Seq::empty(),
        messages: Seq::empty(),
        inputs: Seq::empty(),
    }
}

/// The first index at or after `i` whose record carries `name`, or the
/// length.
pub open spec fn find_from(ps: Seq<ProtocolV>, name: Seq<char>, i: int) -> int
    decreases ps.len() - i
        when 0 <= i <= ps.len()
{
    if i == ps.len() {
        i
    } else if ps[i].name == name {
        i
    } else {
        find_from(ps, name, i + 1)
    }
}

pub proof fn lemma_find_spec(ps: Seq<ProtocolV>, name: Seq<char>, i: int)
    requires
        0 <= i <= ps.len(),
    ensures
        i <= find_from(ps, name, i) <= ps.len(),
        find_from(ps, name, i) < ps.len() ==> ps[find_from(ps, name, i)].name == name,
        forall|j: int| i <= j < find_from(ps, name, i) ==> ps[j].name != name,
    decreases ps.len() - i,
{
    if i < ps.len() && ps[i].name != name {
        lemma_find_spec(ps, name, i + 1);
    }
}

/// Appending a record does not change where an earlier match is found, and
/// a new record matches exactly at the old length.
pub proof fn lemma_find_push(ps: Seq<ProtocolV>, p: ProtocolV, name: Seq<char>, i: int)
    requires
        0 <= i <= ps.len(),
    ensures
        find_from(ps.push(p), name, i) == if find_from(ps, name, i) < ps.len() {
            find_from(ps, name, i)
        } else if p.name == name {
            ps.len() as int
        } else {
            ps.len() + 1int
        },
    decreases ps.len() - i,
{
    assert(ps.push(p).len() == ps.len() + 1);
    assert(ps.push(p)[ps.len() as int] == p);
    if i < ps.len() {
        assert(ps.push(p)[i] == ps[i]);
        lemma_find_push(ps, p, name, i + 1);
    } else {
        assert(find_from(ps, name, i) == ps.len());
        if p.name != name {
            assert(find_from(ps.push(p), name, i + 1) == ps.len() + 1);
        }
    }
}

/// One classified item folded into the records: the item's protocol record
/// is created on first reference; a singleton role already present is fatal;
/// a repeated role is appended in order.
pub open spec fn apply_classified(ps: Seq<ProtocolV>, it: ClassifiedItemV) -> Result<
    Seq<ProtocolV>,
    GenErrorV,
> {
    let ps1 = if find_from(ps, it.protocol, 0) < ps.len() {
        ps
    } else {
        ps.push(new_protocol(it.protocol))
    };
    let idx = find_from(ps1, it.protocol, 0);
    let p = ps1[idx];
    match it.kind {
        ItemKindV::Binding => if p.binding is Some {
            Err(GenErrorV::DuplicateBinding { protocol: it.protocol })
        } else {
            Ok(ps1.update(idx, ProtocolV { binding: Some(it.path), ..p }))
        },
        ItemKindV::ComponentAggregate => if p.component_aggregate is Some {
            Err(GenErrorV::DuplicateComponentAggregate { protocol: it.protocol })
        } else {
            Ok(ps1.update(idx, ProtocolV { component_aggregate: Some(it.path), ..p }))
        },
        ItemKindV::MessageAggregate => if p.message_aggregate is Some {
            Err(GenErrorV::DuplicateMessageAggregate { protocol: it.protocol })
        } else {
            Ok(ps1.update(idx, ProtocolV { message_aggregate: Some(it.path), ..p }))
        },
        ItemKindV::InputAggregate => if p.input_aggregate is Some {
            Err(GenErrorV::DuplicateInputAggregate { protocol: it.protocol })
        } else {
            Ok(ps1.update(idx, ProtocolV { input_aggregate: Some(it.path), ..p }))
        },
        ItemKindV::Component { sync } => Ok(
            ps1.update(
                idx,
                ProtocolV {
                    components: p.components.push(CompRefV { path: it.path, sync }),
                    ..p
                },
            ),
        ),
        ItemKindV::Message => Ok(
            ps1.update(idx, ProtocolV { messages: p.messages.push(it.path), ..p }),
        ),
        ItemKindV::Input => Ok(ps1.update(idx, ProtocolV { inputs: p.inputs.push(it.path), ..p })),
    }
}

/// The items from `i` on folded into the records.
pub open spec fn aggregate_items(
    ps: Seq<ProtocolV>,
    items: Seq<ClassifiedItemV>,
    i: int,
) -> Result<Seq<ProtocolV>, GenErrorV>
    decreases items.len() - i
        when 0 <= i <= items.len()
{
    if i == items.len() {
        Ok(ps)
    } else {
        match apply_classified(ps, items[i]) {
            Err(e) => Err(e),
            Ok(ps2) => aggregate_items(ps2, items, i + 1),
        }
    }
}

/// All items folded into records, first-seen order of protocols preserved.
pub open spec fn aggregate(items: Seq<ClassifiedItemV>) -> Result<Seq<ProtocolV>, GenErrorV> {
    aggregate_items(Seq::empty(), items, 0)
}

fn find_protocol_x(ps: &Vec<Protocol>, name: &str, i: usize) -> (r: usize)
    requires
        i <= ps.len(),
    ensures
        r as int == find_from(ps.deep_view(), name@, i as int),
        i <= r <= ps.len(),
    decreases ps.len() - i,
{
    proof {
        lemma_deep_pointwise(*ps);
    }
    if i == ps.len() {
        i
    } else if eq_str(ps[i].name.as_str(), name) {
        i
    } else {
        find_protocol_x(ps, name, i + 1)
    }
}

fn apply_classified_x(ps: Vec<Protocol>, it: ClassifiedItem) -> (r: Result<Vec<Protocol>, GenError>)
    ensures
        match r {
            Ok(v) => apply_classified(ps.deep_view(), it.deep_view()) == Ok::<
                Seq<ProtocolV>,
                GenErrorV,
            >(v.deep_view()),
            Err(e) => apply_classified(ps.deep_view(), it.deep_view()) == Err::<
                Seq<ProtocolV>,
                GenErrorV,
            >(e.deep_view()),
        },
{
    let ghost ps0 = ps.deep_view();
    let mut ps = ps;
    let i0 = find_protocol_x(&ps, it.protocol.as_str(), 0);
    let idx: usize = if i0 == ps.len() {
        let ghost pre = ps;
        let fresh = Protocol {
            name: it.protocol.clone(),
            binding: None,
            component_aggregate: None,
            message_aggregate: None,
            input_aggregate: None,
            components: Vec::new(),
            messages: Vec::new(),
            inputs: Vec::new(),
        };
        let ghost freshg = fresh;
        ps.push(fresh);
        proof {
            lemma_deep_push(pre, ps, freshg);
            lemma_deep_pointwise(freshg.components);
            lemma_deep_pointwise(freshg.messages);
            lemma_deep_pointwise(freshg.inputs);
            assert(freshg.components.deep_view() =~= Seq::<CompRefV>::empty());
            assert(freshg.messages.deep_view() =~= Seq::<Seq<Seq<char>>>::empty());
            assert(freshg.inputs.deep_view() =~= Seq::<Seq<Seq<char>>>::empty());
            assert(freshg.deep_view() == new_protocol(it.protocol@));
            assert(ps.deep_view() =~= ps0.push(new_protocol(it.protocol@)));
            lemma_find_push(ps0, new_protocol(it.protocol@), it.protocol@, 0);
        }
        i0
    } else {
        i0
    };
    let ghost ps1 = ps.deep_view();
    proof {
        lemma_find_spec(ps0, it.protocol@, 0);
        assert(idx as int == find_from(ps1, it.protocol@, 0));
        assert(idx < ps.len());
    }
    let ghost pre_rm = ps;
    let mut p = ps.remove(idx);
    proof {
        lemma_deep_remove(pre_rm, ps, idx as int);
        lemma_deep_pointwise(pre_rm);
        assert(p.deep_view() == ps1[idx as int]);
    }
    let ghost pv = p.deep_view();
    match it.kind {
        ItemKind::Binding => {
            if p.binding.is_some() {
                return Err(GenError::DuplicateBinding { protocol: it.protocol });
            }
            p.binding = Some(it.path);
        },
        ItemKind::ComponentAggregate => {
            if p.component_aggregate.is_some() {
                return Err(GenError::DuplicateComponentAggregate { protocol: it.protocol });
            }
            p.component_aggregate = Some(it.path);
        },
        ItemKind::MessageAggregate => {
            if p.message_aggregate.is_some() {
                return Err(GenError::DuplicateMessageAggregate { protocol: it.protocol });
            }
            p.message_aggregate = Some(it.path);
        },
        ItemKind::InputAggregate => {
            if p.input_aggregate.is_some() {
                return Err(GenError::DuplicateInputAggregate { protocol: it.protocol });
            }
            p.input_aggregate = Some(it.path);
        },
        ItemKind::Component { sync } => {
            let ghost prec = p.components;
            let entry = CompRef { path: it.path, sync };
            let ghost entryg = entry;
            p.components.push(entry);
            proof {
                lemma_deep_push(prec, p.components, entryg);
            }
        },
        ItemKind::Message => {
            let ghost prem = p.messages;
            let ghost pathg = it.path;
            p.messages.push(it.path);
            proof {
                lemma_deep_push(prem, p.messages, pathg);
            }
        },
        ItemKind::Input => {
            let ghost prei = p.inputs;
            let ghost pathg = it.path;
            p.inputs.push(it.path);
            proof {
                lemma_deep_push(prei, p.inputs, pathg);
            }
        },
    }
    let ghost pre_ins = ps;
    ps.insert(idx, p);
    proof {
        lemma_deep_insert(pre_ins, ps, idx as int, p);
        assert(ps.deep_view() =~= ps1.remove(idx as int).insert(idx as int, p.deep_view()));
        assert(ps1.remove(idx as int).insert(idx as int, p.deep_view()) =~= ps1.update(
            idx as int,
            p.deep_view(),
        ));
    }
    Ok(ps)
}

fn aggregate_items_x(ps: Vec<Protocol>, items: &Vec<ClassifiedItem>, i: usize) -> (r: Result<
    Vec<Protocol>,
    GenError,
>)
    requires
        i <= items.len(),
    ensures
        match r {
            Ok(v) => aggregate_items(ps.deep_view(), items.deep_view(), i as int) == Ok::<
                Seq<ProtocolV>,
                GenErrorV,
            >(v.deep_view()),
            Err(e) => aggregate_items(ps.deep_view(), items.deep_view(), i as int) == Err::<
                Seq<ProtocolV>,
                GenErrorV,
            >(e.deep_view()),
        },
    decreases items.len() - i,
{
    if i == items.len() {
        Ok(ps)
    } else {
        proof {
            lemma_deep_pointwise(*items);
        }
        match apply_classified_x(ps, crate::classify::clone_item(&items[i])) {
            Err(e) => Err(e),
            Ok(ps2) => aggregate_items_x(ps2, items, i + 1),
        }
    }
}

/// Folds all classified items, in encounter order, into one record per
/// protocol name, first-seen order preserved; fatal on a duplicate
/// singleton role.
pub fn aggregate_x(items: &Vec<ClassifiedItem>) -> (r: Result<Vec<Protocol>, GenError>)
    ensures
        match r {
            Ok(v) => aggregate(items.deep_view()) == Ok::<Seq<ProtocolV>, GenErrorV>(
                v.deep_view(),
            ),
            Err(e) => aggregate(items.deep_view()) == Err::<Seq<ProtocolV>, GenErrorV>(
                e.deep_view(),
            ),
        },
{
    let empty: Vec<Protocol> = Vec::new();
    proof {
        lemma_deep_pointwise(empty);
        assert(empty.deep_view() =~= Seq::<ProtocolV>::empty());
    }
    aggregate_items_x(empty, items, 0)
}

/// A protocol wholly hand-written: binding, component aggregate and message
/// aggregate all present.
pub open spec fn is_complete(p: ProtocolV) -> bool {
    p.binding is Some && p.component_aggregate is Some && p.message_aggregate is Some
}

/// A protocol the synthesizer may complete: not wholly hand-written, and
/// with no hand-written binding claiming it.
pub open spec fn is_generatable(p: ProtocolV) -> bool {
    !is_complete(p) && p.binding is None
}

fn is_generatable_x(p: &Protocol) -> (r: bool)
    ensures
        r == is_generatable(p.deep_view()),
{
    !(p.binding.is_some() && p.component_aggregate.is_some() && p.message_aggregate.is_some())
        && p.binding.is_none()
}

/// The generatable records, in order; the rest are not generation's to
/// touch and are dropped from output.
pub open spec fn keep_generatable(ps: Seq<ProtocolV>) -> Seq<ProtocolV>
    decreases ps.len(),
{
    if ps.len() == 0 {
        Seq::empty()
    } else if is_generatable(ps[0]) {
        seq![ps[0]] + keep_generatable(ps.skip(1))
    } else {
        keep_generatable(ps.skip(1))
    }
}

/// Keeps the generatable records, in order.
pub fn keep_generatable_x(ps: Vec<Protocol>) -> (r: Vec<Protocol>)
    ensures
        r.deep_view() =~= keep_generatable(ps.deep_view()),
    decreases ps@.len(),
{
    proof {
        lemma_deep_pointwise(ps);
    }
    if ps.len() == 0 {
        ps
    } else {
        let ghost pres = ps;
        let mut ps = ps;
        let h = ps.remove(0);
        proof {
            lemma_deep_remove0(pres, ps);
        }
        let keep_h = is_generatable_x(&h);
        let rest = keep_generatable_x(ps);
        if keep_h {
            let ghost prer = rest;
            let ghost hg = h;
            let mut rest = rest;
            rest.insert(0, h);
            proof {
                lemma_deep_insert0(prer, rest, hg);
            }
            rest
        } else {
            rest
        }
    }
}

} // verus!
