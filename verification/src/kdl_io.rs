use vstd::prelude::*;

use crate::config::{build_table_from_raw, ConfigError, DirectiveTable, RawHost, RawNode};

verus! {

#[verifier::external_type_specification]
#[verifier::external_body]
pub struct ExKdlDocument(kdl::KdlDocument);

#[verifier::external_type_specification]
#[verifier::external_body]
pub struct ExKdlNode(kdl::KdlNode);

#[verifier::external_type_specification]
#[verifier::external_body]
pub struct ExKdlEntry(kdl::KdlEntry);

#[verifier::external_type_specification]
#[verifier::external_body]
pub struct ExKdlIdentifier(kdl::KdlIdentifier);

#[verifier::external_type_specification]
#[verifier::external_body]
pub struct ExKdlValue(kdl::KdlValue);

/// Relies on `kdl::KdlDocument::nodes`: the document's top-level nodes, in
/// document order.
#[verifier::external_body]
fn doc_nodes(d: &kdl::KdlDocument) -> &[kdl::KdlNode] {
    d.nodes()
}

/// Relies on `kdl::KdlNode::name`: the node's name identifier.
#[verifier::external_body]
fn node_name(n: &kdl::KdlNode) -> &kdl::KdlIdentifier {
    n.name()
}

/// Relies on `kdl::KdlIdentifier::value`: the identifier's text, copied out.
#[verifier::external_body]
fn ident_value(i: &kdl::KdlIdentifier) -> String {
    i.value().to_owned()
}

/// Relies on `kdl::KdlNode::children`: the node's child block, if it has one.
#[verifier::external_body]
fn node_children(n: &kdl::KdlNode) -> Option<&kdl::KdlDocument> {
    n.children()
}

/// Relies on `kdl::KdlNode::entries`: the node's arguments and properties, in
/// document order.
#[verifier::external_body]
fn node_entries(n: &kdl::KdlNode) -> &[kdl::KdlEntry] {
    n.entries()
}

/// Relies on `kdl::KdlEntry::value`: the entry's value.
#[verifier::external_body]
fn entry_value(e: &kdl::KdlEntry) -> &kdl::KdlValue {
    e.value()
}

/// Relies on `kdl::KdlValue::as_string`: the text of a string value, copied
/// out, and `None` for every other kind of value.
#[verifier::external_body]
fn value_as_string(v: &kdl::KdlValue) -> Option<String> {
    v.as_string().map(|s| s.to_owned())
}

/// The string arguments of one configuration node, in order; entries that are
/// not strings are passed over.
fn get_string_args(node: &kdl::KdlNode) -> Vec<String> {
    let entries = node_entries(node);
    let mut args: Vec<String> = Vec::new();
    let mut i: usize = 0;
    while i < entries.len()
        invariant
            0 <= i <= entries@.len(),
        decreases entries@.len() - i,
    {
        match value_as_string(entry_value(&entries[i])) {
            Some(s) => args.push(s),
            None => {},
        }
        i += 1;
    }
    args
}

/// Builds the directive table out of a parsed configuration document: each
/// top-level node is a host block whose children declare directives. The
/// document's text is read through the kdl crate; what the declarations then
/// mean is decided by `build_table_from_raw`, whose contract pins it down.
/// A table that comes back is well-formed: host names unique, no empty host.
pub fn build_config(doc: &kdl::KdlDocument) -> (r: Result<DirectiveTable, ConfigError>)
    ensures
        r is Ok ==> r->Ok_0.wf(),
{
    let nodes = doc_nodes(doc);
    let mut raw_hosts: Vec<RawHost> = Vec::new();
    let mut i: usize = 0;
    while i < nodes.len()
        invariant
            0 <= i <= nodes@.len(),
        decreases nodes@.len() - i,
    {
        let node = &nodes[i];
        let hostname = ident_value(node_name(node));
        let mut children: Vec<RawNode> = Vec::new();
        match node_children(node) {
            None => {},
            Some(child_doc) => {
                let child_nodes = doc_nodes(child_doc);
                let mut j: usize = 0;
                while j < child_nodes.len()
                    invariant
                        0 <= j <= child_nodes@.len(),
                    decreases child_nodes@.len() - j,
                {
                    let child = &child_nodes[j];
                    let name = ident_value(node_name(child));
                    let args = get_string_args(child);
                    children.push(RawNode { name, args });
                    j += 1;
                }
            },
        }
        raw_hosts.push(RawHost { hostname, children });
        i += 1;
    }
    build_table_from_raw(&raw_hosts)
}

} // verus!
