//! Reading a KDL document into the library's own configuration nodes.
//!
//! The kdl crate does the text-level parsing; its document and node types
//! are opaque here. What those opaque values hold is given names: a
//! document holds a list of node models, a node holds its name, the
//! properties the preset grammar reads, and its children, and parsing is
//! a function of the text alone. Each accessor the conversion needs
//! stands behind a small trusted wrapper whose contract speaks over
//! those names, and the conversion itself is verified code that walks
//! the document and returns exactly the named node list.

use crate::config::{config_views, lemma_config_views, ConfigNode, NodeV};
use vstd::prelude::*;
use vstd::string::*;

verus! {

#[verifier::external_type_specification]
#[verifier::external_body]
pub struct ExKdlDocument(kdl::KdlDocument);

#[verifier::external_type_specification]
#[verifier::external_body]
pub struct ExKdlNode(kdl::KdlNode);

#[verifier::external_type_specification]
#[verifier::external_body]
pub struct ExKdlIdentifier(kdl::KdlIdentifier);

#[verifier::external_type_specification]
#[verifier::external_body]
pub struct ExKdlValue(kdl::KdlValue);

/// The kinds of document value the grammar can tell apart: a string, an
/// integer, or anything else (floats, booleans, null).
pub enum ValueV {
    Str(Seq<char>),
    Int(i128),
    Other,
}

/// What parsing KDL text yields: the models of the document's top-level
/// nodes, or the parser's error message. Parsing is a function of the
/// text alone.
pub uninterp spec fn kdl_parse_of(text: Seq<char>) -> Result<Seq<NodeV>, Seq<char>>;

/// The models of a document's top-level nodes, in document order.
pub uninterp spec fn kdl_doc_view(d: kdl::KdlDocument) -> Seq<NodeV>;

/// The model of one document node.
pub uninterp spec fn kdl_node_view(n: kdl::KdlNode) -> NodeV;

/// The text of an identifier.
pub uninterp spec fn kdl_ident_view(i: kdl::KdlIdentifier) -> Seq<char>;

/// The kind and content of one document value.
pub uninterp spec fn kdl_value_view(v: kdl::KdlValue) -> ValueV;

/// The string a value contributes to a string-valued property: its text
/// when it is a string, nothing otherwise.
pub open spec fn str_of_value(v: Option<ValueV>) -> Option<Seq<char>> {
    match v {
        Option::Some(ValueV::Str(s)) => Option::Some(s),
        _ => Option::None,
    }
}

/// The integer a value contributes to an integer-valued property.
pub open spec fn int_of_value(v: Option<ValueV>) -> Option<i128> {
    match v {
        Option::Some(ValueV::Int(i)) => Option::Some(i),
        _ => Option::None,
    }
}

pub open spec fn opt_value_view(r: Option<&kdl::KdlValue>) -> Option<ValueV> {
    match r {
        Option::Some(v) => Option::Some(kdl_value_view(*v)),
        Option::None => Option::None,
    }
}

/// Relies on kdl::KdlDocument's `FromStr` impl to parse KDL text; a
/// rejected document becomes its error message. The parse reads nothing
/// but the text, so its outcome carries the name `kdl_parse_of`.
#[verifier::external_body]
fn kdl_parse_document(text: &str) -> (r: Result<kdl::KdlDocument, String>)
    ensures
        match r {
            Ok(d) => kdl_parse_of(text@) matches Ok(ns) && kdl_doc_view(d) == ns,
            Err(e) => kdl_parse_of(text@) matches Err(m) && e@ == m,
        },
{
    text.parse::<kdl::KdlDocument>().map_err(|e| e.to_string())
}

/// Relies on kdl::KdlDocument::nodes for the document's top-level nodes,
/// in document order; cloning a node keeps what it holds.
#[verifier::external_body]
fn kdl_doc_nodes(doc: &kdl::KdlDocument) -> (r: Vec<kdl::KdlNode>)
    ensures
        r@.len() == kdl_doc_view(*doc).len(),
        forall|k: int|
            0 <= k < r@.len() ==> kdl_node_view(#[trigger] r@[k]) == kdl_doc_view(*doc)[k],
{
    doc.nodes().to_vec()
}

/// Relies on kdl::KdlNode::name for the node's name.
#[verifier::external_body]
fn kdl_node_name<'a>(n: &'a kdl::KdlNode) -> (r: &'a kdl::KdlIdentifier)
    ensures
        kdl_ident_view(*r) == kdl_node_view(*n).name,
{
    n.name()
}

/// Relies on kdl::KdlIdentifier::value for the identifier's text.
#[verifier::external_body]
fn kdl_ident_value(i: &kdl::KdlIdentifier) -> (r: String)
    ensures
        r@ == kdl_ident_view(*i),
{
    i.value().to_string()
}

/// Relies on kdl::KdlNode::get for the value of the named property, the
/// last occurrence winning; for the properties the grammar reads, the
/// value determines that field of the node's model.
#[verifier::external_body]
fn kdl_node_get<'a>(n: &'a kdl::KdlNode, key: &str) -> (r: Option<&'a kdl::KdlValue>)
    ensures
        key@ == "name"@ ==> str_of_value(opt_value_view(r)) == kdl_node_view(*n).prop_name,
        key@ == "cwd"@ ==> str_of_value(opt_value_view(r)) == kdl_node_view(*n).prop_cwd,
        key@ == "command"@ ==> str_of_value(opt_value_view(r)) == kdl_node_view(*n).prop_command,
        key@ == "direction"@ ==> str_of_value(opt_value_view(r)) == kdl_node_view(
            *n,
        ).prop_direction,
        key@ == "size"@ ==> int_of_value(opt_value_view(r)) == kdl_node_view(*n).prop_size,
{
    n.get(key)
}

/// Relies on kdl::KdlValue::as_string: the text of a string value, `None`
/// for every other kind of value.
#[verifier::external_body]
fn kdl_value_as_string(v: &kdl::KdlValue) -> (r: Option<String>)
    ensures
        r.deep_view() == str_of_value(Option::Some(kdl_value_view(*v))),
{
    v.as_string().map(|s| s.to_string())
}

/// Relies on kdl::KdlValue::as_integer: the value of an integer value,
/// `None` for every other kind of value.
#[verifier::external_body]
fn kdl_value_as_integer(v: &kdl::KdlValue) -> (r: Option<i128>)
    ensures
        r == int_of_value(Option::Some(kdl_value_view(*v))),
{
    v.as_integer()
}

/// Relies on kdl::KdlNode::children for the node's child block, if any.
#[verifier::external_body]
fn kdl_node_children<'a>(n: &'a kdl::KdlNode) -> (r: Option<&'a kdl::KdlDocument>)
    ensures
        match r {
            Option::Some(d) => kdl_node_view(*n).children matches Some(cs) && kdl_doc_view(*d)
                == cs,
            Option::None => kdl_node_view(*n).children is None,
        },
{
    n.children()
}

/// The message for a document nested deeper than the reader follows.
pub open spec fn err_too_deep() -> Seq<char> {
    "Configuration nesting is too deep"@
}

/// Whether the node's children nest deeper than `fuel` further levels.
pub open spec fn node_exceeds(n: NodeV, fuel: int) -> bool
    decreases n, 0nat,
{
    match n.children {
        Option::None => false,
        Option::Some(cs) => fuel <= 0 || any_exceeds(cs, fuel - 1, 0),
    }
}

pub open spec fn any_exceeds(cs: Seq<NodeV>, fuel: int, i: int) -> bool
    decreases cs, cs.len() - i, 1nat,
{
    if 0 <= i < cs.len() {
        node_exceeds(cs[i], fuel) || any_exceeds(cs, fuel, i + 1)
    } else {
        false
    }
}

/// Whether any node of the list nests deeper than `fuel` levels below it.
pub open spec fn nodes_exceed(ns: Seq<NodeV>, fuel: int) -> bool {
    any_exceeds(ns, fuel, 0)
}

proof fn lemma_no_exceeds(cs: Seq<NodeV>, fuel: int, i: int)
    requires
        0 <= i <= cs.len(),
        forall|k: int| i <= k < cs.len() ==> !node_exceeds(#[trigger] cs[k], fuel),
    ensures
        !any_exceeds(cs, fuel, i),
    decreases cs.len() - i,
{
    if i < cs.len() {
        lemma_no_exceeds(cs, fuel, i + 1);
    }
}

proof fn lemma_exceeds_witness(cs: Seq<NodeV>, fuel: int, i: int, k: int)
    requires
        0 <= i <= k < cs.len(),
        node_exceeds(cs[k], fuel),
    ensures
        any_exceeds(cs, fuel, i),
    decreases k - i,
{
    if i < k {
        lemma_exceeds_witness(cs, fuel, i + 1, k);
    }
}

fn prop_string(n: &kdl::KdlNode, key: &str) -> (r: Option<String>)
    ensures
        key@ == "name"@ ==> r.deep_view() == kdl_node_view(*n).prop_name,
        key@ == "cwd"@ ==> r.deep_view() == kdl_node_view(*n).prop_cwd,
        key@ == "command"@ ==> r.deep_view() == kdl_node_view(*n).prop_command,
        key@ == "direction"@ ==> r.deep_view() == kdl_node_view(*n).prop_direction,
{
    match kdl_node_get(n, key) {
        Option::Some(v) => kdl_value_as_string(v),
        Option::None => Option::None,
    }
}

fn prop_integer(n: &kdl::KdlNode, key: &str) -> (r: Option<i128>)
    ensures
        key@ == "size"@ ==> r == kdl_node_view(*n).prop_size,
{
    match kdl_node_get(n, key) {
        Option::Some(v) => kdl_value_as_integer(v),
        Option::None => Option::None,
    }
}

fn convert_node(n: &kdl::KdlNode, fuel: usize) -> (r: Result<ConfigNode, String>)
    ensures
        match r {
            Ok(c) => c@ == kdl_node_view(*n) && !node_exceeds(kdl_node_view(*n), fuel as int),
            Err(e) => node_exceeds(kdl_node_view(*n), fuel as int) && e@ == err_too_deep(),
        },
    decreases fuel, 0nat,
{
    let name = kdl_ident_value(kdl_node_name(n));
    let prop_name = prop_string(n, "name");
    let prop_cwd = prop_string(n, "cwd");
    let prop_command = prop_string(n, "command");
    let prop_direction = prop_string(n, "direction");
    let prop_size = prop_integer(n, "size");
    let children: Option<Vec<ConfigNode>> = match kdl_node_children(n) {
        Option::None => Option::None,
        Option::Some(doc) => {
            if fuel == 0 {
                return Err(String::from_str("Configuration nesting is too deep"));
            }
            match convert_document(doc, fuel - 1) {
                Ok(v) => Option::Some(v),
                Err(e) => {
                    return Err(e);
                },
            }
        },
    };
    let c = ConfigNode { name, prop_name, prop_cwd, prop_command, prop_direction, prop_size, children };
    proof {
        assert(c@ =~= kdl_node_view(*n));
    }
    Ok(c)
}

fn convert_document(doc: &kdl::KdlDocument, fuel: usize) -> (r: Result<Vec<ConfigNode>, String>)
    ensures
        match r {
            Ok(v) => config_views(v, 0) == kdl_doc_view(*doc) && !nodes_exceed(
                kdl_doc_view(*doc),
                fuel as int,
            ),
            Err(e) => nodes_exceed(kdl_doc_view(*doc), fuel as int) && e@ == err_too_deep(),
        },
    decreases fuel, 1nat,
{
    let ghost dv = kdl_doc_view(*doc);
    let nodes = kdl_doc_nodes(doc);
    let mut out: Vec<ConfigNode> = Vec::new();
    let n = nodes.len();
    let mut i: usize = 0;
    proof {
        lemma_config_views(out, 0);
        assert(config_views(out, 0) =~= dv.take(0));
    }
    while i < n
        invariant
            0 <= i <= n,
            n == nodes.len(),
            dv == kdl_doc_view(*doc),
            dv.len() == n,
            forall|k: int| 0 <= k < n ==> kdl_node_view(#[trigger] nodes@[k]) == dv[k],
            config_views(out, 0) == dv.take(i as int),
            forall|k: int| 0 <= k < i ==> !node_exceeds(#[trigger] dv[k], fuel as int),
        decreases n - i,
    {
        match convert_node(&nodes[i], fuel) {
            Ok(c) => {
                let ghost before = out;
                out.push(c);
                proof {
                    lemma_config_views(before, 0);
                    lemma_config_views(out, 0);
                    assert forall|k: int| 0 <= k < out.len() implies #[trigger] config_views(
                        out,
                        0,
                    )[k] == dv.take(i + 1int)[k] by {
                        if k < i {
                            assert(out@[k] == before@[k]);
                            assert(config_views(before, 0)[k] == dv.take(i as int)[k]);
                        } else {
                            assert(out@[k] == c);
                        }
                    }
                    assert(config_views(out, 0) =~= dv.take(i + 1int));
                }
            },
            Err(e) => {
                proof {
                    lemma_exceeds_witness(dv, fuel as int, 0, i as int);
                }
                return Err(e);
            },
        }
        i = i + 1;
    }
    proof {
        assert(dv.take(n as int) =~= dv);
        lemma_no_exceeds(dv, fuel as int, 0);
    }
    Ok(out)
}

/// Reads KDL text into the library's configuration nodes: exactly the
/// named node list of the text, or the parser's error, or — for a
/// document nested deeper than the text's length, which no real text
/// reaches — the nesting error.
pub(crate) fn read_config_nodes(doc_str: &str) -> (r: Result<Vec<ConfigNode>, String>)
    ensures
        match r {
            Ok(v) => kdl_parse_of(doc_str@) matches Ok(ns) && config_views(v, 0) == ns
                && !nodes_exceed(ns, doc_str@.len() as int),
            Err(e) => (kdl_parse_of(doc_str@) matches Err(m) && e@ == m) || (kdl_parse_of(doc_str@)
                matches Ok(ns) && nodes_exceed(ns, doc_str@.len() as int) && e@ == err_too_deep()),
        },
{
    let fuel = doc_str.unicode_len();
    let doc = match kdl_parse_document(doc_str) {
        Ok(d) => d,
        Err(e) => {
            return Err(e);
        },
    };
    convert_document(&doc, fuel)
}

} // verus!
