//! The code synthesizer and emitter: for each generatable protocol, in
//! order, the missing component and message aggregates and the final binding
//! declaration, emitted as one text.

use vstd::prelude::*;
use vstd::string::*;
use crate::classify::SyncTagV;
use crate::error::{GenError, GenErrorV};
use crate::outside::{ident_text_ok, is_ident_text, pascal_of, to_pascal};
use crate::protocol::{CompRef, CompRefV, Protocol, ProtocolV};
use crate::scan::{join_from, join_path};
use crate::util::{clone_strings, lemma_deep_pointwise};

verus! {

/// Where the generated declarations live, as path segments.
pub open spec fn gen_root() -> Seq<Seq<char>> {
    seq!["crate"@, "gen"@]
}

/// The last segment of a path, or empty for an empty path.
pub open spec fn last_or_empty(path: Seq<Seq<char>>) -> Seq<char> {
    if path.len() == 0 {
        Seq::empty()
    } else {
        path.last()
    }
}

fn last_or_empty_x(path: &Vec<String>) -> (r: String)
    ensures
        r@ == last_or_empty(path.deep_view()),
{
    proof {
        lemma_deep_pointwise(*path);
    }
    if path.len() == 0 {
        let r = String::new();
        assert(r@ =~= last_or_empty(path.deep_view()));
        r
    } else {
        path[path.len() - 1].clone()
    }
}

pub open spec fn delim_open_text(c: char) -> Seq<char> {
    if c == '(' {
        "("@
    } else if c == '[' {
        "["@
    } else {
        "{"@
    }
}

pub open spec fn delim_close_text(c: char) -> Seq<char> {
    if c == '(' {
        ")"@
    } else if c == '[' {
        "]"@
    } else {
        "}"@
    }
}

/// The synchronization attribute of one synthesized component variant: the
/// captured tag re-emitted verbatim, or the documented default mode.
pub open spec fn sync_attr(s: Option<SyncTagV>) -> Seq<char> {
    match s {
        Some(t) => "#[sync"@ + delim_open_text(t.open) + t.inner + delim_close_text(t.open)
            + "]"@,
        None => "#[sync(simple)]"@,
    }
}

fn sync_attr_x(s: &Option<crate::classify::SyncTag>) -> (r: String)
    ensures
        r@ == sync_attr(s.deep_view()),
{
    match s {
        Some(t) => {
            let mut out = String::from_str("#[sync");
            if t.open == '(' {
                out.append("(");
            } else if t.open == '[' {
                out.append("[");
            } else {
                out.append("{");
            }
            out.append(t.inner.as_str());
            if t.open == '(' {
                out.append(")");
            } else if t.open == '[' {
                out.append("]");
            } else {
                out.append("}");
            }
            out.append("]");
            out
        },
        None => String::from_str("#[sync(simple)]"),
    }
}

/// One variant of a synthesized component aggregate: the synchronization
/// attribute, then the declaration's local name applied to its qualified
/// path.
pub open spec fn comp_variant(c: CompRefV) -> Seq<char> {
    "    "@ + sync_attr(c.sync) + "\n    "@ + last_or_empty(c.path) + "("@ + join_from(c.path, 0)
        + "),\n"@
}

fn comp_variant_x(c: &CompRef) -> (r: String)
    ensures
        r@ == comp_variant(c.deep_view()),
{
    let mut out = String::from_str("    ");
    let sync_s = sync_attr_x(&c.sync);
    out.append(sync_s.as_str());
    out.append("\n    ");
    let name_s = last_or_empty_x(&c.path);
    out.append(name_s.as_str());
    out.append("(");
    let path_s = join_path(&c.path);
    out.append(path_s.as_str());
    out.append("),\n");
    out
}

/// The variants of a component aggregate from `i` on, in encounter order.
pub open spec fn comp_variants(cs: Seq<CompRefV>, i: int) -> Seq<char>
    decreases cs.len() - i
        when 0 <= i <= cs.len()
{
    if i == cs.len() {
        Seq::empty()
    } else {
        comp_variant(cs[i]) + comp_variants(cs, i + 1)
    }
}

fn comp_variants_x(cs: &Vec<CompRef>, i: usize) -> (r: String)
    requires
        i <= cs.len(),
    ensures
        r@ == comp_variants(cs.deep_view(), i as int),
    decreases cs.len() - i,
{
    proof {
        lemma_deep_pointwise(*cs);
    }
    if i == cs.len() {
        let r = String::new();
        assert(r@ =~= comp_variants(cs.deep_view(), i as int));
        r
    } else {
        let mut out = comp_variant_x(&cs[i]);
        let rest = comp_variants_x(cs, i + 1);
        out.append(rest.as_str());
        out
    }
}

/// A synthesized component aggregate: a sum type tagged for the protocol,
/// one variant per tagged component, in encounter order.
pub open spec fn comp_aggregate_frag(
    protocol: Seq<char>,
    agg_name: Seq<char>,
    cs: Seq<CompRefV>,
) -> Seq<char> {
    "#[lightyear::prelude::component_protocol(protocol = \""@ + protocol + "\")]\npub enum "@
        + agg_name + " {\n"@ + comp_variants(cs, 0) + "}\n"@
}

fn comp_aggregate_frag_x(protocol: &str, agg_name: &str, cs: &Vec<CompRef>) -> (r: String)
    ensures
        r@ == comp_aggregate_frag(protocol@, agg_name@, cs.deep_view()),
{
    let mut out = String::from_str("#[lightyear::prelude::component_protocol(protocol = \"");
    out.append(protocol);
    out.append("\")]\npub enum ");
    out.append(agg_name);
    out.append(" {\n");
    let vs = comp_variants_x(cs, 0);
    out.append(vs.as_str());
    out.append("}\n");
    out
}

/// One variant of a synthesized message aggregate; messages carry no
/// synchronization tagging.
pub open spec fn msg_variant(path: Seq<Seq<char>>) -> Seq<char> {
    "    "@ + last_or_empty(path) + "("@ + join_from(path, 0) + "),\n"@
}

fn msg_variant_x(path: &Vec<String>) -> (r: String)
    ensures
        r@ == msg_variant(path.deep_view()),
{
    let mut out = String::from_str("    ");
    let name_s = last_or_empty_x(path);
    out.append(name_s.as_str());
    out.append("(");
    let path_s = join_path(path);
    out.append(path_s.as_str());
    out.append("),\n");
    out
}

/// The variants of a message aggregate from `i` on, in encounter order.
pub open spec fn msg_variants(ms: Seq<Seq<Seq<char>>>, i: int) -> Seq<char>
    decreases ms.len() - i
        when 0 <= i <= ms.len()
{
    if i == ms.len() {
        Seq::empty()
    } else {
        msg_variant(ms[i]) + msg_variants(ms, i + 1)
    }
}

fn msg_variants_x(ms: &Vec<Vec<String>>, i: usize) -> (r: String)
    requires
        i <= ms.len(),
    ensures
        r@ == msg_variants(ms.deep_view(), i as int),
    decreases ms.len() - i,
{
    proof {
        lemma_deep_pointwise(*ms);
    }
    if i == ms.len() {
        let r = String::new();
        assert(r@ =~= msg_variants(ms.deep_view(), i as int));
        r
    } else {
        let mut out = msg_variant_x(&ms[i]);
        let rest = msg_variants_x(ms, i + 1);
        out.append(rest.as_str());
        out
    }
}

/// A synthesized message aggregate.
pub open spec fn msg_aggregate_frag(
    protocol: Seq<char>,
    agg_name: Seq<char>,
    ms: Seq<Seq<Seq<char>>>,
) -> Seq<char> {
    "#[lightyear::prelude::message_protocol(protocol = \""@ + protocol + "\")]\npub enum "@
        + agg_name + " {\n"@ + msg_variants(ms, 0) + "}\n"@
}

fn msg_aggregate_frag_x(protocol: &str, agg_name: &str, ms: &Vec<Vec<String>>) -> (r: String)
    ensures
        r@ == msg_aggregate_frag(protocol@, agg_name@, ms.deep_view()),
{
    let mut out = String::from_str("#[lightyear::prelude::message_protocol(protocol = \"");
    out.append(protocol);
    out.append("\")]\npub enum ");
    out.append(agg_name);
    out.append(" {\n");
    let vs = msg_variants_x(ms, 0);
    out.append(vs.as_str());
    out.append("}\n");
    out
}

/// The binding declaration: a module that brings the three aggregates and
/// the component's companion tag type into scope and ties them together
/// under the protocol's name.
pub open spec fn binding_frag(
    name: Seq<char>,
    magg: Seq<Seq<char>>,
    cagg: Seq<Seq<char>>,
    kagg: Seq<Seq<char>>,
    iagg: Seq<Seq<char>>,
) -> Seq<char> {
    "pub mod protocol {\n    use lightyear::protocolize;\n    use "@ + join_from(magg, 0)
        + ";\n    use "@ + join_from(cagg, 0) + ";\n    use "@ + join_from(kagg, 0)
        + ";\n    use "@ + join_from(iagg, 0) + ";\n    protocolize! {\n        Self = "@ + name
        + ",\n        Message = "@ + last_or_empty(magg) + ",\n        Component = "@
        + last_or_empty(cagg) + ",\n        Input = "@ + last_or_empty(iagg)
        + ",\n    }\n}\npub use protocol::*;\n"@
}

fn binding_frag_x(
    name: &str,
    magg: &Vec<String>,
    cagg: &Vec<String>,
    kagg: &Vec<String>,
    iagg: &Vec<String>,
) -> (r: String)
    ensures
        r@ == binding_frag(
            name@,
            magg.deep_view(),
            cagg.deep_view(),
            kagg.deep_view(),
            iagg.deep_view(),
        ),
{
    let mut out = String::from_str("pub mod protocol {\n    use lightyear::protocolize;\n    use ");
    let m_s = join_path(magg);
    out.append(m_s.as_str());
    out.append(";\n    use ");
    let c_s = join_path(cagg);
    out.append(c_s.as_str());
    out.append(";\n    use ");
    let k_s = join_path(kagg);
    out.append(k_s.as_str());
    out.append(";\n    use ");
    let i_s = join_path(iagg);
    out.append(i_s.as_str());
    out.append(";\n    protocolize! {\n        Self = ");
    out.append(name);
    out.append(",\n        Message = ");
    let m_l = last_or_empty_x(magg);
    out.append(m_l.as_str());
    out.append(",\n        Component = ");
    let c_l = last_or_empty_x(cagg);
    out.append(c_l.as_str());
    out.append(",\n        Input = ");
    let i_l = last_or_empty_x(iagg);
    out.append(i_l.as_str());
    out.append(",\n    }\n}\npub use protocol::*;\n");
    out
}

/// A path with its last segment replaced, where there is one.
pub open spec fn with_last(path: Seq<Seq<char>>, seg: Seq<char>) -> Seq<Seq<char>> {
    if path.len() == 0 {
        path
    } else {
        path.update(path.len() - 1, seg)
    }
}

/// What is emitted for one generatable protocol: the component aggregate
/// where none is hand-written (its name the pascal-cased protocol name and
/// `Components`), then the message aggregate where none is hand-written,
/// then the binding, which also references the companion tag type named by
/// the component aggregate and `Kind`. A generatable protocol without a
/// hand-written input aggregate is fatal, as is a derived name that cannot
/// stand as an identifier.
pub open spec fn synth_one(p: ProtocolV) -> Result<Seq<char>, GenErrorV> {
    let comp_name = pascal_of(p.name) + "Components"@;
    let msg_name = pascal_of(p.name) + "Messages"@;
    if p.component_aggregate is None && !ident_text_ok(comp_name) {
        Err(GenErrorV::InvalidIdentifier { text: comp_name })
    } else if p.message_aggregate is None && !ident_text_ok(msg_name) {
        Err(GenErrorV::InvalidIdentifier { text: msg_name })
    } else if p.input_aggregate is None {
        Err(GenErrorV::InputSynthesisUnimplemented { protocol: p.name })
    } else {
        let f1 = if p.component_aggregate is None {
            comp_aggregate_frag(p.name, comp_name, p.components)
        } else {
            Seq::empty()
        };
        let f2 = if p.message_aggregate is None {
            msg_aggregate_frag(p.name, msg_name, p.messages)
        } else {
            Seq::empty()
        };
        let cagg = match p.component_aggregate {
            Some(cp) => cp,
            None => gen_root().push(comp_name),
        };
        let magg = match p.message_aggregate {
            Some(mp) => mp,
            None => gen_root().push(msg_name),
        };
        let iagg = match p.input_aggregate {
            Some(ip) => ip,
            None => Seq::empty(),
        };
        let kind_name = last_or_empty(cagg) + "Kind"@;
        if !ident_text_ok(kind_name) {
            Err(GenErrorV::InvalidIdentifier { text: kind_name })
        } else {
            Ok(f1 + f2 + binding_frag(p.name, magg, cagg, with_last(cagg, kind_name), iagg))
        }
    }
}

/// A two-segment generated-module path extended with one name.
fn gen_root_path(leaf: &String) -> (r: Vec<String>)
    ensures
        r.deep_view() =~= gen_root().push(leaf@),
{
    let mut out: Vec<String> = Vec::new();
    out.push(String::from_str("crate"));
    out.push(String::from_str("gen"));
    out.push(leaf.clone());
    proof {
        lemma_deep_pointwise(out);
        assert(out.deep_view() =~= gen_root().push(leaf@));
    }
    out
}

fn synth_one_x(p: &Protocol) -> (r: Result<String, GenError>)
    ensures
        match r {
            Ok(s) => synth_one(p.deep_view()) == Ok::<Seq<char>, GenErrorV>(s@),
            Err(e) => synth_one(p.deep_view()) == Err::<Seq<char>, GenErrorV>(e.deep_view()),
        },
{
    let pas = to_pascal(p.name.as_str());
    let mut comp_name = pas.clone();
    comp_name.append("Components");
    let mut msg_name = pas.clone();
    msg_name.append("Messages");
    if p.component_aggregate.is_none() && !is_ident_text(comp_name.as_str()) {
        return Err(GenError::InvalidIdentifier { text: comp_name });
    }
    if p.message_aggregate.is_none() && !is_ident_text(msg_name.as_str()) {
        return Err(GenError::InvalidIdentifier { text: msg_name });
    }
    if p.input_aggregate.is_none() {
        return Err(GenError::InputSynthesisUnimplemented { protocol: p.name.clone() });
    }
    let f1: String = if p.component_aggregate.is_none() {
        comp_aggregate_frag_x(p.name.as_str(), comp_name.as_str(), &p.components)
    } else {
        let r = String::new();
        assert(r@ =~= Seq::<char>::empty());
        r
    };
    let f2: String = if p.message_aggregate.is_none() {
        msg_aggregate_frag_x(p.name.as_str(), msg_name.as_str(), &p.messages)
    } else {
        let r = String::new();
        assert(r@ =~= Seq::<char>::empty());
        r
    };
    let cagg: Vec<String> = match &p.component_aggregate {
        Some(cp) => clone_strings(cp),
        None => gen_root_path(&comp_name),
    };
    let magg: Vec<String> = match &p.message_aggregate {
        Some(mp) => clone_strings(mp),
        None => gen_root_path(&msg_name),
    };
    let iagg: Vec<String> = match &p.input_aggregate {
        Some(ip) => clone_strings(ip),
        None => {
            let out: Vec<String> = Vec::new();
            proof {
                lemma_deep_pointwise(out);
                assert(out.deep_view() =~= Seq::<Seq<char>>::empty());
            }
            out
        },
    };
    let mut kind_name = last_or_empty_x(&cagg);
    kind_name.append("Kind");
    if !is_ident_text(kind_name.as_str()) {
        return Err(GenError::InvalidIdentifier { text: kind_name });
    }
    let mut kagg: Vec<String> = clone_strings(&cagg);
    proof {
        lemma_deep_pointwise(kagg);
        lemma_deep_pointwise(cagg);
        assert(kagg.len() == cagg.len());
    }
    if kagg.len() > 0 {
        let ghost prek = kagg;
        let ghost kg = kind_name;
        let li = kagg.len() - 1;
        kagg.set(li, kind_name.clone());
        proof {
            crate::util::lemma_deep_update(prek, kagg, li as int, kg);
        }
    }
    proof {
        assert(kagg.deep_view() =~= with_last(cagg.deep_view(), kind_name@));
    }
    let mut out = f1;
    out.append(f2.as_str());
    let b = binding_frag_x(p.name.as_str(), &magg, &cagg, &kagg, &iagg);
    out.append(b.as_str());
    Ok(out)
}

/// The emitted artifact for the generatable protocols from `i` on: their
/// fragments concatenated, in protocol-encounter order.
pub open spec fn synth_from(ps: Seq<ProtocolV>, i: int) -> Result<Seq<char>, GenErrorV>
    decreases ps.len() - i
        when 0 <= i <= ps.len()
{
    if i == ps.len() {
        Ok(Seq::empty())
    } else {
        match synth_one(ps[i]) {
            Err(e) => Err(e),
            Ok(frag) => match synth_from(ps, i + 1) {
                Err(e) => Err(e),
                Ok(rest) => Ok(frag + rest),
            },
        }
    }
}

/// Emits the whole artifact for a sequence of generatable protocols.
pub fn synth_all(ps: &Vec<Protocol>) -> (r: Result<String, GenError>)
    ensures
        match r {
            Ok(s) => synth_from(ps.deep_view(), 0) == Ok::<Seq<char>, GenErrorV>(s@),
            Err(e) => synth_from(ps.deep_view(), 0) == Err::<Seq<char>, GenErrorV>(e.deep_view()),
        },
{
    synth_from_x(ps, 0)
}

fn synth_from_x(ps: &Vec<Protocol>, i: usize) -> (r: Result<String, GenError>)
    requires
        i <= ps.len(),
    ensures
        match r {
            Ok(s) => synth_from(ps.deep_view(), i as int) == Ok::<Seq<char>, GenErrorV>(s@),
            Err(e) => synth_from(ps.deep_view(), i as int) == Err::<Seq<char>, GenErrorV>(
                e.deep_view(),
            ),
        },
    decreases ps.len() - i,
{
    proof {
        lemma_deep_pointwise(*ps);
    }
    if i == ps.len() {
        let r = String::new();
        assert(r@ =~= Seq::<char>::empty());
        Ok(r)
    } else {
        match synth_one_x(&ps[i]) {
            Err(e) => Err(e),
            Ok(mut frag) => match synth_from_x(ps, i + 1) {
                Err(e) => Err(e),
                Ok(rest) => {
                    frag.append(rest.as_str());
                    Ok(frag)
                },
            },
        }
    }
}

} // verus!
