//! The declaration classifier: given the module path of a unit and its plain
//! mirror, produces the classified items — one per tagged declaration and one
//! per binding directive — with their kinds, qualified paths and protocol
//! names.

use vstd::prelude::*;
use vstd::string::*;
use crate::error::{GenError, GenErrorV};
use crate::lex::{Tok, TokV, is_digit_char, digit_char};
use crate::meta::{MetaArg, MetaArgV, metas_of, parse_args};
use crate::outside::{ident_text_ok, is_ident_text};
use crate::raw::{RawAttrV, RawItem, RawItemV};
use crate::util::{append_strings, clone_strings, eq_str, lemma_deep_pointwise, lemma_deep_push};

verus! {

/// The synchronization-mode tag captured from a `sync(...)` argument: its
/// delimiter and raw text, re-emitted verbatim on the synthesized variant.
pub struct SyncTag {
    pub open: char,
    pub inner: String,
}

/// The mathematical value of a `SyncTag`.
pub struct SyncTagV {
    pub open: char,
    pub inner: Seq<char>,
}

impl DeepView for SyncTag {
    type V = SyncTagV;

    open spec fn deep_view(&self) -> SyncTagV {
        SyncTagV { open: self.open, inner: self.inner@ }
    }
}

/// The role a classified item plays in its protocol.
pub enum ItemKind {
    Binding,
    ComponentAggregate,
    MessageAggregate,
    InputAggregate,
    Component { sync: Option<SyncTag> },
    Message,
    Input,
}

/// The mathematical value of an `ItemKind`.
pub enum ItemKindV {
    Binding,
    ComponentAggregate,
    MessageAggregate,
    InputAggregate,
    Component { sync: Option<SyncTagV> },
    Message,
    Input,
}

impl DeepView for ItemKind {
    type V = ItemKindV;

    open spec fn deep_view(&self) -> ItemKindV {
        match self {
            ItemKind::Binding => ItemKindV::Binding,
            ItemKind::ComponentAggregate => ItemKindV::ComponentAggregate,
            ItemKind::MessageAggregate => ItemKindV::MessageAggregate,
            ItemKind::InputAggregate => ItemKindV::InputAggregate,
            ItemKind::Component { sync } => ItemKindV::Component { sync: sync.deep_view() },
            ItemKind::Message => ItemKindV::Message,
            ItemKind::Input => ItemKindV::Input,
        }
    }
}

/// One classified item: its role, the qualified path of the declaration (as
/// segments), and the protocol it belongs to.
pub struct ClassifiedItem {
    pub kind: ItemKind,
    pub path: Vec<String>,
    pub protocol: String,
}

/// The mathematical value of a `ClassifiedItem`.
pub struct ClassifiedItemV {
    pub kind: ItemKindV,
    pub path: Seq<Seq<char>>,
    pub protocol: Seq<char>,
}

impl DeepView for ClassifiedItem {
    type V = ClassifiedItemV;

    open spec fn deep_view(&self) -> ClassifiedItemV {
        ClassifiedItemV {
            kind: self.kind.deep_view(),
            path: self.path.deep_view(),
            protocol: self.protocol@,
        }
    }
}

/// The annotation names the classifier recognizes.
pub open spec fn vocab_name(n: Seq<char>) -> bool {
    n == "component"@ || n == "message"@ || n == "input"@ || n == "component_protocol"@ || n
        == "message_protocol"@ || n == "inputs"@
}

fn vocab_name_x(n: &str) -> (r: bool)
    ensures
        r == vocab_name(n@),
{
    eq_str(n, "component") || eq_str(n, "message") || eq_str(n, "input") || eq_str(
        n,
        "component_protocol",
    ) || eq_str(n, "message_protocol") || eq_str(n, "inputs")
}

/// The role named by a recognized annotation, with the captured
/// synchronization tag where the role carries one.
pub open spec fn kind_of(k: Seq<char>, sync: Option<SyncTagV>) -> ItemKindV {
    if k == "component"@ {
        ItemKindV::Component { sync }
    } else if k == "message"@ {
        ItemKindV::Message
    } else if k == "input"@ {
        ItemKindV::Input
    } else if k == "component_protocol"@ {
        ItemKindV::ComponentAggregate
    } else if k == "message_protocol"@ {
        ItemKindV::MessageAggregate
    } else {
        ItemKindV::InputAggregate
    }
}

/// The state folded over a declaration's attributes: the last recognized
/// annotation name, the last protocol name, the last synchronization tag.
pub struct AttrStateV {
    pub kind: Option<Seq<char>>,
    pub protocol: Option<Seq<char>>,
    pub sync: Option<SyncTagV>,
}

pub struct AttrState {
    pub kind: Option<String>,
    pub protocol: Option<String>,
    pub sync: Option<SyncTag>,
}

impl DeepView for AttrState {
    type V = AttrStateV;

    open spec fn deep_view(&self) -> AttrStateV {
        AttrStateV {
            kind: self.kind.deep_view(),
            protocol: self.protocol.deep_view(),
            sync: self.sync.deep_view(),
        }
    }
}

/// Whether a pair's value is a lone identifier, as the protocol-name and
/// binding-name positions require.
pub open spec fn value_ident(value: Seq<TokV>) -> Option<Seq<char>> {
    if value.len() == 1 {
        match value[0] {
            TokV::Ident(x) => if x.len() > 0 && !is_digit_char(x[0]) {
                Some(x)
            } else {
                None
            },
            _ => None,
        }
    } else {
        None
    }
}

fn value_ident_x(value: &Vec<Tok>) -> (r: Option<String>)
    ensures
        r.deep_view() == value_ident(value.deep_view()),
{
    if value.len() == 1 {
        match &value[0] {
            Tok::Ident(x) => {
                if !x.as_str().is_empty() && !digit_char(x.as_str().get_char(0)) {
                    Some(x.clone())
                } else {
                    None
                }
            },
            _ => None,
        }
    } else {
        None
    }
}

/// One argument entry applied to the attribute state: a bare path names the
/// protocol by its last segment; `sync(...)` is captured; `protocol = value`
/// names the protocol, the value an identifier directly or inside a string
/// literal; anything else is kept as it is. A `protocol = ...` whose value
/// names no identifier is fatal.
pub open spec fn apply_meta(st: AttrStateV, m: MetaArgV) -> Result<AttrStateV, GenErrorV> {
    match m {
        MetaArgV::Word { segs } => if segs.len() > 0 {
            Ok(AttrStateV { protocol: Some(segs.last()), ..st })
        } else {
            Ok(st)
        },
        MetaArgV::Nested { segs, open, inner } => if segs =~= seq!["sync"@] {
            Ok(AttrStateV { sync: Some(SyncTagV { open, inner }), ..st })
        } else {
            Ok(st)
        },
        MetaArgV::Assign { segs, value } => if segs =~= seq!["protocol"@] {
            match value_ident(value) {
                Some(x) => Ok(AttrStateV { protocol: Some(x), ..st }),
                None => if value.len() == 1 && (value[0] matches TokV::StrLit(_)) {
                    match value[0] {
                        TokV::StrLit(c) => if ident_text_ok(c) {
                            Ok(AttrStateV { protocol: Some(c), ..st })
                        } else {
                            Err(GenErrorV::MalformedAnnotation)
                        },
                        _ => Err(GenErrorV::MalformedAnnotation),
                    }
                } else {
                    Err(GenErrorV::MalformedAnnotation)
                },
            }
        } else {
            Ok(st)
        },
    }
}

/// The argument entries of one recognized annotation, folded left to right.
pub open spec fn apply_metas(st: AttrStateV, ms: Seq<MetaArgV>) -> Result<AttrStateV, GenErrorV>
    decreases ms.len(),
{
    if ms.len() == 0 {
        Ok(st)
    } else {
        match apply_meta(st, ms[0]) {
            Err(e) => Err(e),
            Ok(st2) => apply_metas(st2, ms.skip(1)),
        }
    }
}

/// One attribute applied to the state: a recognized list-style annotation
/// sets the role name and folds its arguments; args that do not fit the
/// grammar are fatal; every other attribute is ignored.
pub open spec fn apply_attr(st: AttrStateV, a: RawAttrV) -> Result<AttrStateV, GenErrorV> {
    match a.args {
        Some(text) => if vocab_name(a.name) {
            match metas_of(text) {
                None => Err(GenErrorV::MalformedAnnotation),
                Some(ms) => apply_metas(
                    AttrStateV { kind: Some(a.name), protocol: st.protocol, sync: st.sync },
                    ms,
                ),
            }
        } else {
            Ok(st)
        },
        None => Ok(st),
    }
}

/// A declaration's attributes, folded left to right.
pub open spec fn apply_attrs(st: AttrStateV, attrs: Seq<RawAttrV>) -> Result<
    AttrStateV,
    GenErrorV,
>
    decreases attrs.len(),
{
    if attrs.len() == 0 {
        Ok(st)
    } else {
        match apply_attr(st, attrs[0]) {
            Err(e) => Err(e),
            Ok(st2) => apply_attrs(st2, attrs.skip(1)),
        }
    }
}

pub open spec fn empty_attr_state() -> AttrStateV {
    AttrStateV { kind: None, protocol: None, sync: None }
}

/// The items of one declaration: one classified item when a recognized
/// annotation and a protocol name were both found, none otherwise.
pub open spec fn classify_decl(
    fqp: Seq<Seq<char>>,
    mods: Seq<Seq<char>>,
    name: Seq<char>,
    attrs: Seq<RawAttrV>,
) -> Result<Seq<ClassifiedItemV>, GenErrorV> {
    match apply_attrs(empty_attr_state(), attrs) {
        Err(e) => Err(e),
        Ok(st) => match (st.kind, st.protocol) {
            (Some(k), Some(p)) => Ok(
                seq![
                    ClassifiedItemV {
                        kind: kind_of(k, st.sync),
                        path: fqp + mods + seq![name],
                        protocol: p,
                    },
                ],
            ),
            _ => Ok(Seq::empty()),
        },
    }
}

/// The binding-directive body folded left to right: every entry must be a
/// `name = value` pair; a pair whose name ends in `Self` must carry an
/// identifier value, the protocol name; other pairs are ignored.
pub open spec fn fold_directive(proto: Option<Seq<char>>, ms: Seq<MetaArgV>) -> Result<
    Option<Seq<char>>,
    GenErrorV,
>
    decreases ms.len(),
{
    if ms.len() == 0 {
        Ok(proto)
    } else {
        match ms[0] {
            MetaArgV::Assign { segs, value } => if segs.len() > 0 && segs.last() == "Self"@ {
                match value_ident(value) {
                    Some(x) => if ident_text_ok(x) {
                        fold_directive(Some(x), ms.skip(1))
                    } else {
                        Err(GenErrorV::MalformedDirective)
                    },
                    None => Err(GenErrorV::MalformedDirective),
                }
            } else {
                fold_directive(proto, ms.skip(1))
            },
            _ => Err(GenErrorV::MalformedDirective),
        }
    }
}

/// The items of one directive invocation: a binding item for the directive
/// that ties a protocol together, nothing for any other invocation. A body
/// that does not fit the pair grammar is fatal, as is a missing `Self`.
pub open spec fn classify_directive(
    fqp: Seq<Seq<char>>,
    mods: Seq<Seq<char>>,
    name: Seq<char>,
    body: Seq<char>,
) -> Result<Seq<ClassifiedItemV>, GenErrorV> {
    if name == "protocolize"@ {
        match metas_of(body) {
            None => Err(GenErrorV::MalformedDirective),
            Some(ms) => match fold_directive(None, ms) {
                Err(e) => Err(e),
                Ok(None) => Err(GenErrorV::DirectiveMissingName),
                Ok(Some(p)) => Ok(
                    seq![
                        ClassifiedItemV {
                            kind: ItemKindV::Binding,
                            path: fqp + mods + seq![p],
                            protocol: p,
                        },
                    ],
                ),
            },
        }
    } else {
        Ok(Seq::empty())
    }
}

/// The items of one mirror entry.
pub open spec fn classify_item(fqp: Seq<Seq<char>>, it: RawItemV) -> Result<
    Seq<ClassifiedItemV>,
    GenErrorV,
> {
    match it {
        RawItemV::Decl { mods, name, attrs } => classify_decl(fqp, mods, name, attrs),
        RawItemV::Directive { mods, name, body } => classify_directive(fqp, mods, name, body),
        RawItemV::Other => Ok(Seq::empty()),
    }
}

/// The items of a whole unit, in source order.
pub open spec fn classify_items(fqp: Seq<Seq<char>>, items: Seq<RawItemV>) -> Result<
    Seq<ClassifiedItemV>,
    GenErrorV,
>
    decreases items.len(),
{
    if items.len() == 0 {
        Ok(Seq::empty())
    } else {
        match classify_item(fqp, items[0]) {
            Err(e) => Err(e),
            Ok(head) => match classify_items(fqp, items.skip(1)) {
                Err(e) => Err(e),
                Ok(tail) => Ok(head + tail),
            },
        }
    }
}

fn apply_meta_x(st: AttrState, m: &MetaArg) -> (r: Result<AttrState, GenError>)
    ensures
        match r {
            Ok(st2) => apply_meta(st.deep_view(), m.deep_view()) == Ok::<AttrStateV, GenErrorV>(
                st2.deep_view(),
            ),
            Err(e) => apply_meta(st.deep_view(), m.deep_view()) == Err::<AttrStateV, GenErrorV>(
                e.deep_view(),
            ),
        },
{
    match m {
        MetaArg::Word { segs } => {
            proof {
                lemma_deep_pointwise(*segs);
            }
            if segs.len() > 0 {
                let last = segs[segs.len() - 1].clone();
                assert(last@ == segs.deep_view().last());
                Ok(AttrState { protocol: Some(last), ..st })
            } else {
                Ok(st)
            }
        },
        MetaArg::Nested { segs, open, inner } => {
            proof {
                lemma_deep_pointwise(*segs);
            }
            if segs.len() == 1 && eq_str(segs[0].as_str(), "sync") {
                assert(segs.deep_view() =~= seq!["sync"@]);
                Ok(AttrState { sync: Some(SyncTag { open: *open, inner: inner.clone() }), ..st })
            } else {
                proof {
                    if segs.deep_view() =~= seq!["sync"@] {
                        assert(segs.deep_view()[0] == "sync"@);
                        assert(false);
                    }
                }
                Ok(st)
            }
        },
        MetaArg::Assign { segs, value } => {
            proof {
                lemma_deep_pointwise(*segs);
            }
            if segs.len() == 1 && eq_str(segs[0].as_str(), "protocol") {
                assert(segs.deep_view() =~= seq!["protocol"@]);
                match value_ident_x(value) {
                    Some(x) => Ok(AttrState { protocol: Some(x), ..st }),
                    None => {
                        if value.len() == 1 {
                            match &value[0] {
                                Tok::StrLit(c) => {
                                    if is_ident_text(c.as_str()) {
                                        Ok(AttrState { protocol: Some(c.clone()), ..st })
                                    } else {
                                        Err(GenError::MalformedAnnotation)
                                    }
                                },
                                _ => Err(GenError::MalformedAnnotation),
                            }
                        } else {
                            Err(GenError::MalformedAnnotation)
                        }
                    },
                }
            } else {
                proof {
                    if segs.deep_view() =~= seq!["protocol"@] {
                        assert(segs.deep_view()[0] == "protocol"@);
                        assert(false);
                    }
                }
                Ok(st)
            }
        },
    }
}

fn apply_metas_x(st: AttrState, ms: &Vec<MetaArg>, i: usize) -> (r: Result<AttrState, GenError>)
    requires
        i <= ms.len(),
    ensures
        match r {
            Ok(st2) => apply_metas(st.deep_view(), ms.deep_view().skip(i as int)) == Ok::<
                AttrStateV,
                GenErrorV,
            >(st2.deep_view()),
            Err(e) => apply_metas(st.deep_view(), ms.deep_view().skip(i as int)) == Err::<
                AttrStateV,
                GenErrorV,
            >(e.deep_view()),
        },
    decreases ms.len() - i,
{
    if i == ms.len() {
        assert(ms.deep_view().skip(i as int) =~= Seq::<MetaArgV>::empty());
        Ok(st)
    } else {
        assert(ms.deep_view().skip(i as int)[0] == ms.deep_view()[i as int]);
        assert(ms.deep_view().skip(i as int).skip(1) =~= ms.deep_view().skip(i as int + 1));
        match apply_meta_x(st, &ms[i]) {
            Err(e) => Err(e),
            Ok(st2) => apply_metas_x(st2, ms, i + 1),
        }
    }
}

fn apply_attr_x(st: AttrState, a: &crate::raw::RawAttr) -> (r: Result<AttrState, GenError>)
    ensures
        match r {
            Ok(st2) => apply_attr(st.deep_view(), a.deep_view()) == Ok::<AttrStateV, GenErrorV>(
                st2.deep_view(),
            ),
            Err(e) => apply_attr(st.deep_view(), a.deep_view()) == Err::<AttrStateV, GenErrorV>(
                e.deep_view(),
            ),
        },
{
    let name = &a.name;
    match &a.args {
        Some(text) => {
            if vocab_name_x(name.as_str()) {
                match parse_args(text.as_str()) {
                    None => Err(GenError::MalformedAnnotation),
                    Some(ms) => {
                        let st2 = AttrState {
                            kind: Some(name.clone()),
                            protocol: st.protocol,
                            sync: st.sync,
                        };
                        assert(ms.deep_view().skip(0) =~= ms.deep_view());
                        apply_metas_x(st2, &ms, 0)
                    },
                }
            } else {
                Ok(st)
            }
        },
        None => Ok(st),
    }
}

fn apply_attrs_x(st: AttrState, attrs: &Vec<crate::raw::RawAttr>, i: usize) -> (r: Result<
    AttrState,
    GenError,
>)
    requires
        i <= attrs.len(),
    ensures
        match r {
            Ok(st2) => apply_attrs(st.deep_view(), attrs.deep_view().skip(i as int)) == Ok::<
                AttrStateV,
                GenErrorV,
            >(st2.deep_view()),
            Err(e) => apply_attrs(st.deep_view(), attrs.deep_view().skip(i as int)) == Err::<
                AttrStateV,
                GenErrorV,
            >(e.deep_view()),
        },
    decreases attrs.len() - i,
{
    if i == attrs.len() {
        assert(attrs.deep_view().skip(i as int) =~= Seq::<RawAttrV>::empty());
        Ok(st)
    } else {
        assert(attrs.deep_view().skip(i as int)[0] == attrs.deep_view()[i as int]);
        assert(attrs.deep_view().skip(i as int).skip(1) =~= attrs.deep_view().skip(i as int + 1));
        match apply_attr_x(st, &attrs[i]) {
            Err(e) => Err(e),
            Ok(st2) => apply_attrs_x(st2, attrs, i + 1),
        }
    }
}

fn fold_directive_x(proto: Option<String>, ms: &Vec<MetaArg>, i: usize) -> (r: Result<
    Option<String>,
    GenError,
>)
    requires
        i <= ms.len(),
    ensures
        match r {
            Ok(p) => fold_directive(proto.deep_view(), ms.deep_view().skip(i as int)) == Ok::<
                Option<Seq<char>>,
                GenErrorV,
            >(p.deep_view()),
            Err(e) => fold_directive(proto.deep_view(), ms.deep_view().skip(i as int)) == Err::<
                Option<Seq<char>>,
                GenErrorV,
            >(e.deep_view()),
        },
    decreases ms.len() - i,
{
    if i == ms.len() {
        assert(ms.deep_view().skip(i as int) =~= Seq::<MetaArgV>::empty());
        Ok(proto)
    } else {
        assert(ms.deep_view().skip(i as int)[0] == ms.deep_view()[i as int]);
        assert(ms.deep_view().skip(i as int).skip(1) =~= ms.deep_view().skip(i as int + 1));
        match &ms[i] {
            MetaArg::Assign { segs, value } => {
                proof {
                    lemma_deep_pointwise(*segs);
                }
                if segs.len() > 0 && eq_str(segs[segs.len() - 1].as_str(), "Self") {
                    assert(segs.deep_view().last() == "Self"@);
                    match value_ident_x(value) {
                        Some(x) => {
                            if is_ident_text(x.as_str()) {
                                fold_directive_x(Some(x), ms, i + 1)
                            } else {
                                Err(GenError::MalformedDirective)
                            }
                        },
                        None => Err(GenError::MalformedDirective),
                    }
                } else {
                    assert(segs.deep_view().len() > 0 ==> segs.deep_view().last() == segs[segs.len()
                        - 1]@);
                    fold_directive_x(proto, ms, i + 1)
                }
            },
            _ => Err(GenError::MalformedDirective),
        }
    }
}

/// The qualified path of a declaration: the unit's module path, the names of
/// the enclosing inline modules, and the declaration's own name.
fn qualified_path(fqp: &Vec<String>, mods: &Vec<String>, name: &String) -> (r: Vec<String>)
    ensures
        r.deep_view() == fqp.deep_view() + mods.deep_view() + seq![name@],
{
    let mut path = clone_strings(fqp);
    append_strings(&mut path, mods);
    let ghost pre = path;
    let entry = name.clone();
    let ghost entryg = entry;
    path.push(entry);
    proof {
        lemma_deep_push(pre, path, entryg);
        assert(path.deep_view() =~= fqp.deep_view() + mods.deep_view() + seq![name@]);
    }
    path
}

/// Classifies one mirror entry of a unit.
fn classify_item_x(fqp: &Vec<String>, it: &RawItem) -> (r: Result<Vec<ClassifiedItem>, GenError>)
    ensures
        match r {
            Ok(v) => classify_item(fqp.deep_view(), it.deep_view()) == Ok::<
                Seq<ClassifiedItemV>,
                GenErrorV,
            >(v.deep_view()),
            Err(e) => classify_item(fqp.deep_view(), it.deep_view()) == Err::<
                Seq<ClassifiedItemV>,
                GenErrorV,
            >(e.deep_view()),
        },
{
    match it {
        RawItem::Decl { mods, name, attrs } => {
            let st0 = AttrState { kind: None, protocol: None, sync: None };
            assert(attrs.deep_view().skip(0) =~= attrs.deep_view());
            match apply_attrs_x(st0, attrs, 0) {
                Err(e) => Err(e),
                Ok(st) => match (st.kind, st.protocol) {
                    (Some(k), Some(p)) => {
                        let kind = kind_of_x(&k, st.sync);
                        let path = qualified_path(fqp, mods, name);
                        let mut out: Vec<ClassifiedItem> = Vec::new();
                        let ghost pre = out;
                        let item = ClassifiedItem { kind, path, protocol: p };
                        let ghost itemg = item;
                        out.push(item);
                        proof {
                            lemma_deep_pointwise(pre);
                            lemma_deep_push(pre, out, itemg);
                            assert(out.deep_view() =~= seq![itemg.deep_view()]);
                        }
                        Ok(out)
                    },
                    _ => Ok(no_items()),
                },
            }
        },
        RawItem::Directive { mods, name, body } => {
            if eq_str(name.as_str(), "protocolize") {
                match parse_args(body.as_str()) {
                    None => Err(GenError::MalformedDirective),
                    Some(ms) => {
                        assert(ms.deep_view().skip(0) =~= ms.deep_view());
                        match fold_directive_x(None, &ms, 0) {
                            Err(e) => Err(e),
                            Ok(None) => Err(GenError::DirectiveMissingName),
                            Ok(Some(p)) => {
                                let path = qualified_path(fqp, mods, &p);
                                let mut out: Vec<ClassifiedItem> = Vec::new();
                                let ghost pre = out;
                                let item = ClassifiedItem {
                                    kind: ItemKind::Binding,
                                    path,
                                    protocol: p,
                                };
                                let ghost itemg = item;
                                out.push(item);
                                proof {
                                    lemma_deep_pointwise(pre);
                                    lemma_deep_push(pre, out, itemg);
                                    assert(out.deep_view() =~= seq![itemg.deep_view()]);
                                }
                                Ok(out)
                            },
                        }
                    },
                }
            } else {
                Ok(no_items())
            }
        },
        RawItem::Other => Ok(no_items()),
    }
}

fn kind_of_x(k: &String, sync: Option<SyncTag>) -> (r: ItemKind)
    ensures
        r.deep_view() == kind_of(k@, sync.deep_view()),
{
    if eq_str(k.as_str(), "component") {
        ItemKind::Component { sync }
    } else if eq_str(k.as_str(), "message") {
        ItemKind::Message
    } else if eq_str(k.as_str(), "input") {
        ItemKind::Input
    } else if eq_str(k.as_str(), "component_protocol") {
        ItemKind::ComponentAggregate
    } else if eq_str(k.as_str(), "message_protocol") {
        ItemKind::MessageAggregate
    } else {
        ItemKind::InputAggregate
    }
}

/// Classifies every entry of a unit, in source order, under the unit's
/// module path.
pub fn classify_unit(fqp: &Vec<String>, items: &Vec<RawItem>) -> (r: Result<
    Vec<ClassifiedItem>,
    GenError,
>)
    ensures
        match r {
            Ok(v) => classify_items(fqp.deep_view(), items.deep_view()) == Ok::<
                Seq<ClassifiedItemV>,
                GenErrorV,
            >(v.deep_view()),
            Err(e) => classify_items(fqp.deep_view(), items.deep_view()) == Err::<
                Seq<ClassifiedItemV>,
                GenErrorV,
            >(e.deep_view()),
        },
{
    proof {
        assert(items.deep_view().skip(0) =~= items.deep_view());
    }
    classify_items_x(fqp, items, 0)
}

fn classify_items_x(fqp: &Vec<String>, items: &Vec<RawItem>, i: usize) -> (r: Result<
    Vec<ClassifiedItem>,
    GenError,
>)
    requires
        i <= items.len(),
    ensures
        match r {
            Ok(v) => classify_items(fqp.deep_view(), items.deep_view().skip(i as int)) == Ok::<
                Seq<ClassifiedItemV>,
                GenErrorV,
            >(v.deep_view()),
            Err(e) => classify_items(fqp.deep_view(), items.deep_view().skip(i as int)) == Err::<
                Seq<ClassifiedItemV>,
                GenErrorV,
            >(e.deep_view()),
        },
    decreases items.len() - i,
{
    if i == items.len() {
        assert(items.deep_view().skip(i as int) =~= Seq::<RawItemV>::empty());
        Ok(no_items())
    } else {
        assert(items.deep_view().skip(i as int)[0] == items.deep_view()[i as int]);
        assert(items.deep_view().skip(i as int).skip(1) =~= items.deep_view().skip(i as int + 1));
        match classify_item_x(fqp, &items[i]) {
            Err(e) => Err(e),
            Ok(mut head) => match classify_items_x(fqp, items, i + 1) {
                Err(e) => Err(e),
                Ok(tail) => {
                    let ghost headv = head.deep_view();
                    let ghost tailv = tail.deep_view();
                    let mut k: usize = 0;
                    let tlen = tail.len();
                    while k < tlen
                        invariant
                            k <= tlen,
                            tlen == tailv.len(),
                            tail.len() == tlen,
                            tail.deep_view() == tailv,
                            head.deep_view() =~= headv + tailv.take(k as int),
                        decreases tlen - k,
                    {
                        proof {
                            lemma_deep_pointwise(tail);
                        }
                        let ghost pre = head;
                        let item = clone_item(&tail[k]);
                        let ghost itemg = item;
                        head.push(item);
                        k += 1;
                        proof {
                            lemma_deep_push(pre, head, itemg);
                            assert(itemg.deep_view() == tailv[k as int - 1]);
                            assert(headv + tailv.take(k as int) =~= (headv + tailv.take(
                                k as int - 1,
                            )).push(tailv[k as int - 1]));
                            assert(head.deep_view() =~= headv + tailv.take(k as int));
                        }
                    }
                    assert(tailv.take(tlen as int) =~= tailv);
                    Ok(head)
                },
            },
        }
    }
}

/// An empty classified-item vector, with its deep view pinned down.
fn no_items() -> (r: Vec<ClassifiedItem>)
    ensures
        r.deep_view() =~= Seq::<ClassifiedItemV>::empty(),
{
    let out: Vec<ClassifiedItem> = Vec::new();
    proof {
        lemma_deep_pointwise(out);
    }
    out
}

/// Appends a copy of every classified item of `more` to `out`, in order.
pub(crate) fn append_items(out: &mut Vec<ClassifiedItem>, more: &Vec<ClassifiedItem>)
    ensures
        final(out).deep_view() =~= old(out).deep_view() + more.deep_view(),
{
    let ghost basev = out.deep_view();
    let ghost morev = more.deep_view();
    proof {
        lemma_deep_pointwise(*more);
    }
    let mut k: usize = 0;
    while k < more.len()
        invariant
            k <= more.len(),
            morev == more.deep_view(),
            morev.len() == more.len(),
            forall|j: int| 0 <= j < more.len() ==> #[trigger] more@[j].deep_view() == morev[j],
            out.deep_view() =~= basev + morev.take(k as int),
        decreases more.len() - k,
    {
        let ghost pre = *out;
        let item = clone_item(&more[k]);
        let ghost itemg = item;
        out.push(item);
        k += 1;
        proof {
            lemma_deep_push(pre, *out, itemg);
            assert(basev + morev.take(k as int) =~= (basev + morev.take(k as int - 1)).push(
                morev[k as int - 1],
            ));
            assert(out.deep_view() =~= basev + morev.take(k as int));
        }
    }
    assert(morev.take(more.len() as int) =~= morev);
}

pub(crate) fn clone_item(it: &ClassifiedItem) -> (r: ClassifiedItem)
    ensures
        r.deep_view() == it.deep_view(),
{
    let kind = match &it.kind {
        ItemKind::Binding => ItemKind::Binding,
        ItemKind::ComponentAggregate => ItemKind::ComponentAggregate,
        ItemKind::MessageAggregate => ItemKind::MessageAggregate,
        ItemKind::InputAggregate => ItemKind::InputAggregate,
        ItemKind::Component { sync } => ItemKind::Component {
            sync: match sync {
                Some(t) => Some(SyncTag { open: t.open, inner: t.inner.clone() }),
                None => None,
            },
        },
        ItemKind::Message => ItemKind::Message,
        ItemKind::Input => ItemKind::Input,
    };
    ClassifiedItem { kind, path: clone_strings(&it.path), protocol: it.protocol.clone() }
}

} // verus!
