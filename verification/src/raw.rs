//! The plain mirror of a parsed source unit: the pieces of a unit's syntax
//! tree that classification reads, as ordinary values. Nested inline modules
//! are flattened in source order; each entry carries the chain of enclosing
//! module names.

use vstd::prelude::*;

verus! {

/// An attribute on a declaration: the last segment of its name path, and the
/// raw argument text when the attribute has a parenthesized argument list
/// (`#[name(args)]`); `None` for a bare or `name = value` attribute.
pub struct RawAttr {
    pub name: String,
    pub args: Option<String>,
}

/// The mathematical value of a `RawAttr`.
pub struct RawAttrV {
    pub name: Seq<char>,
    pub args: Option<Seq<char>>,
}

impl DeepView for RawAttr {
    type V = RawAttrV;

    open spec fn deep_view(&self) -> RawAttrV {
        RawAttrV {
            name: self.name@,
            args: match self.args {
                Some(a) => Some(a@),
                None => None,
            },
        }
    }
}

/// One top-level entry of a source unit, with the names of the inline modules
/// that enclose it (outermost first).
pub enum RawItem {
    /// A record-like or sum-type-like declaration with its attributes.
    Decl { mods: Vec<String>, name: String, attrs: Vec<RawAttr> },
    /// A directive invocation: the last segment of the invoked name, and the
    /// raw text of its body tokens.
    Directive { mods: Vec<String>, name: String, body: String },
    /// Anything classification never reads.
    Other,
}

/// The mathematical value of a `RawItem`.
pub enum RawItemV {
    Decl { mods: Seq<Seq<char>>, name: Seq<char>, attrs: Seq<RawAttrV> },
    Directive { mods: Seq<Seq<char>>, name: Seq<char>, body: Seq<char> },
    Other,
}

impl DeepView for RawItem {
    type V = RawItemV;

    open spec fn deep_view(&self) -> RawItemV {
        match self {
            RawItem::Decl { mods, name, attrs } => RawItemV::Decl {
                mods: mods.deep_view(),
                name: name@,
                attrs: attrs.deep_view(),
            },
            RawItem::Directive { mods, name, body } => RawItemV::Directive {
                mods: mods.deep_view(),
                name: name@,
                body: body@,
            },
            RawItem::Other => RawItemV::Other,
        }
    }
}

} // verus!
