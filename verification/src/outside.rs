//! Every item here is trusted: a declaration of an outside type, a name for
//! what an outside function returns, or a wrapper whose body makes the outside
//! call and whose contract Verus believes without proof.

use vstd::prelude::*;
use crate::raw::{RawAttr, RawItem, RawItemV};

verus! {

#[verifier::external_type_specification]
#[verifier::external_body]
pub struct ExSynItem(syn::Item);

#[verifier::external_type_specification]
#[verifier::external_body]
pub struct ExSynMacro(syn::Macro);

#[verifier::external_type_specification]
#[verifier::external_body]
pub struct ExSynIdent(syn::Ident);

#[verifier::external_type_specification]
#[verifier::external_body]
pub struct ExSynAttribute(syn::Attribute);

#[verifier::external_type_specification]
#[verifier::external_body]
pub struct ExSynPath(syn::Path);

/// What `syn::parse_file` followed by the structural flattening below returns
/// for a given unit text: `None` when the text is not a syntactically valid
/// unit, else the unit's top-level entries in source order. The result
/// depends on the text alone.
pub uninterp spec fn parsed_items_of(text: Seq<char>) -> Option<Seq<RawItemV>>;

/// What `str::to_lowercase` returns; it depends on the characters alone.
pub uninterp spec fn lower_of(s: Seq<char>) -> Seq<char>;

/// What inflector's `to_pascal_case` returns; it depends on the characters
/// alone.
pub uninterp spec fn pascal_of(s: Seq<char>) -> Seq<char>;

/// Whether `syn::parse_str::<syn::Ident>` accepts the text as an identifier;
/// it depends on the characters alone.
pub uninterp spec fn ident_text_ok(s: Seq<char>) -> bool;

/// Relies on `syn::parse_file`: parses the text as one source unit, `None` on
/// a syntax error. The helpers below flatten the parsed tree one entry at a
/// time, in source order, into the plain mirror that classification reads.
#[verifier::external_body]
pub(crate) fn parse_unit(text: &str) -> (r: Option<Vec<RawItem>>)
    ensures
        r.deep_view() == parsed_items_of(text@),
{
    match syn::parse_file(text) {
        Ok(file) => {
            let mut mods: Vec<String> = Vec::new();
            let mut out: Vec<RawItem> = Vec::new();
            for it in file.items {
                flatten_item(&mut mods, it, &mut out);
            }
            Some(out)
        },
        Err(_) => None,
    }
}

/// Relies on `syn::Item`: moves one parsed item into the mirror, recursing
/// into the contents of an inline module under that module's name. Items
/// other than declarations, directive invocations and modules become
/// `RawItem::Other`.
#[verifier::external_body]
fn flatten_item(mods: &mut Vec<String>, it: syn::Item, out: &mut Vec<RawItem>) {
    match it {
        syn::Item::Mod(m) => if let Some((_brace, items)) = m.content {
            mods.push(m.ident.to_string());
            for sub in items { flatten_item(mods, sub, out); }
            mods.pop();
        },
        syn::Item::Macro(m) => out.push(directive_item(mods, m.mac)),
        syn::Item::Enum(e) => out.push(decl_item(mods, &e.ident, &e.attrs)),
        syn::Item::Struct(s) => out.push(decl_item(mods, &s.ident, &s.attrs)),
        _ => out.push(RawItem::Other),
    }
}

/// Relies on `syn::Macro`: moves an invocation's name and raw body text into
/// the mirror.
#[verifier::external_body]
fn directive_item(mods: &Vec<String>, mac: syn::Macro) -> RawItem {
    RawItem::Directive {
        mods: mods.clone(),
        name: last_segment(&mac.path),
        body: mac.tokens.to_string(),
    }
}

/// Relies on `syn::Ident` and `syn::Attribute`: moves a declaration's name
/// and attributes into the mirror.
#[verifier::external_body]
fn decl_item(mods: &Vec<String>, ident: &syn::Ident, attrs: &Vec<syn::Attribute>) -> RawItem {
    RawItem::Decl {
        mods: mods.clone(),
        name: ident.to_string(),
        attrs: attrs.iter().map(attr_of).collect(),
    }
}

/// Relies on `syn::Meta`: moves one attribute into the mirror, one arm per
/// variant; only a list-style attribute carries argument text.
#[verifier::external_body]
fn attr_of(a: &syn::Attribute) -> RawAttr {
    match &a.meta {
        syn::Meta::Path(p) => RawAttr { name: last_segment(p), args: None },
        syn::Meta::List(l) => RawAttr { name: last_segment(&l.path), args: Some(l.tokens.to_string()) },
        syn::Meta::NameValue(nv) => RawAttr { name: last_segment(&nv.path), args: None },
    }
}

/// Relies on `syn::Path`: picks the name of the last segment.
#[verifier::external_body]
fn last_segment(p: &syn::Path) -> String {
    p.segments.last().map(|s| s.ident.to_string()).unwrap_or(String::new())
}

/// Relies on `str::to_lowercase`: the result depends on the characters alone,
/// and the lowercase form of the empty string is empty.
#[verifier::external_body]
pub(crate) fn to_lower(s: &str) -> (r: String)
    ensures
        r@ == lower_of(s@),
        s@.len() == 0 ==> r@.len() == 0,
{
    s.to_lowercase()
}

/// Relies on inflector's `to_pascal_case`: the result depends on the
/// characters alone, and the empty string stays empty.
#[verifier::external_body]
pub(crate) fn to_pascal(s: &str) -> (r: String)
    ensures
        r@ == pascal_of(s@),
        s@.len() == 0 ==> r@.len() == 0,
{
    inflector::cases::pascalcase::to_pascal_case(s)
}

/// Relies on `syn::parse_str::<syn::Ident>`: accepts exactly the texts that
/// name an identifier; the result depends on the characters alone.
#[verifier::external_body]
pub(crate) fn is_ident_text(s: &str) -> (r: bool)
    ensures
        r == ident_text_ok(s@),
{
    syn::parse_str::<syn::Ident>(s).is_ok()
}

} // verus!
