//! The boundary to the YAML loader: what is believed of it, and the values
//! it hands over turned into values of this library.

use vstd::prelude::*;

verus! {

/// A YAML value as `yaml_rust` holds it. Nothing inside it is visible here.
#[verifier::external_type_specification]
#[verifier::external_body]
pub struct ExYaml(yaml_rust::Yaml);

/// The error with which `yaml_rust` gives a text up.
#[verifier::external_type_specification]
#[verifier::external_body]
pub struct ExScanError(yaml_rust::ScanError);

/// What this library reads of a YAML value: a text, a table of pairs in the
/// order in which the loader walks them, or something else.
pub enum NodeView {
    Text(Seq<char>),
    Table(Seq<(NodeView, NodeView)>),
    Other,
}

/// The documents that `yaml_rust::YamlLoader::load_from_str` loads from a
/// text, or `None` where it gives the text up.
pub uninterp spec fn yaml_documents(text: Seq<char>) -> Option<Seq<NodeView>>;

/// What a YAML value holds: the text of a `Yaml::String`; the pairs of a
/// `Yaml::Hash` in the order in which its map is walked, which is the order
/// of insertion, a key that was inserted twice standing where it was
/// inserted last; `Other` for every other variant.
pub uninterp spec fn yaml_value(yaml: yaml_rust::Yaml) -> NodeView;

/// The words with which a scan error describes itself: what `to_string`
/// gives for it, which is the error's text with the line and the column at
/// which it arose.
pub uninterp spec fn scan_error_words(err: yaml_rust::ScanError) -> Seq<char>;

/// The words with which the loader describes its error.
///
/// Trusted: calls `to_string` on a `yaml_rust::ScanError`, which writes the
/// error through its `Display`: the error's text, then the line and the
/// column of its mark. The contract names these words and claims that they
/// depend on the error alone.
#[verifier::external_body]
pub(crate) fn scan_error_text(err: &yaml_rust::ScanError) -> (r: String)
    ensures
        r@ == scan_error_words(*err),
{
    err.to_string()
}

/// Loads the documents of a text.
///
/// Trusted: calls `yaml_rust::YamlLoader::load_from_str`. The contract names
/// what the loader returns for a text, and claims that this depends on the
/// text alone and that the call returns.
#[verifier::external_body]
pub(crate) fn load_yaml(text: &str) -> (r: Result<Vec<yaml_rust::Yaml>, yaml_rust::ScanError>)
    ensures
        r is Ok <==> yaml_documents(text@) is Some,
        r matches Ok(docs) ==> docs@.len() == yaml_documents(text@).unwrap().len()
            && forall|i: int|
            0 <= i < docs@.len() ==> yaml_value(#[trigger] docs@[i]) == yaml_documents(
                text@,
            ).unwrap()[i],
{
    yaml_rust::YamlLoader::load_from_str(text)
}

/// The text of a YAML string.
///
/// Trusted: calls `yaml_rust::Yaml::as_str`, which returns the text of a
/// `Yaml::String` and `None` for every other variant.
#[verifier::external_body]
pub(crate) fn yaml_text(yaml: &yaml_rust::Yaml) -> (r: Option<String>)
    ensures
        match yaml_value(*yaml) {
            NodeView::Text(s) => r matches Some(t) && t@ == s,
            _ => r is None,
        },
{
    yaml.as_str().map(|s| s.to_string())
}

/// The pairs of a YAML hash, in the order in which its map is walked.
///
/// Trusted: calls `yaml_rust::Yaml::as_hash`, which returns the map of a
/// `Yaml::Hash` and `None` for every other variant, and walks the map with
/// `iter`, copying each key and value.
#[verifier::external_body]
pub(crate) fn yaml_pairs(yaml: &yaml_rust::Yaml) -> (r: Option<
    Vec<(yaml_rust::Yaml, yaml_rust::Yaml)>,
>)
    ensures
        match yaml_value(*yaml) {
            NodeView::Table(pairs) => r matches Some(v) && v@.len() == pairs.len() && forall|
                i: int,
            |
                0 <= i < v@.len() ==> yaml_value((#[trigger] v@[i]).0) == pairs[i].0 && yaml_value(
                    v@[i].1,
                ) == pairs[i].1,
            _ => r is None,
        },
{
    yaml.as_hash().map(|h| h.iter().map(|(k, v)| (k.clone(), v.clone())).collect())
}

/// A YAML value of this library's own: what `yaml_value` names, held as
/// plain data.
#[derive(Debug, PartialEq, Eq)]
pub enum Node {
    Text(String),
    Table(Vec<(Node, Node)>),
    Other,
}

/// What a node holds.
pub open spec fn node_view(node: Node) -> NodeView
    decreases node,
{
    match node {
        Node::Text(s) => NodeView::Text(s@),
        Node::Table(pairs) => NodeView::Table(
            Seq::new(
                pairs@.len(),
                |i: int|
                    if 0 <= i < pairs@.len() {
                        (node_view(pairs@[i].0), node_view(pairs@[i].1))
                    } else {
                        (NodeView::Other, NodeView::Other)
                    },
            ),
        ),
        Node::Other => NodeView::Other,
    }
}

impl View for Node {
    type V = NodeView;

    open spec fn view(&self) -> NodeView {
        node_view(*self)
    }
}

/// The content of a table node, pair by pair.
pub proof fn lemma_table_view(node: Node)
    requires
        node is Table,
    ensures
        node@ is Table,
        node@->Table_0.len() == node->Table_0@.len(),
        forall|k: int|
            0 <= k < node->Table_0@.len() ==> (#[trigger] node@->Table_0[k]) == (
                node->Table_0@[k].0@,
                node->Table_0@[k].1@,
            ),
{
}

/// The contents of the nodes, in order.
pub open spec fn node_views(nodes: Seq<Node>) -> Seq<NodeView> {
    Seq::new(nodes.len(), |i: int| nodes[i]@)
}

/// Turns a YAML value of the loader into a node.
pub fn node_of(yaml: &yaml_rust::Yaml) -> (n: Node)
    ensures
        n@ == yaml_value(*yaml),
    decreases yaml_value(*yaml),
{
    match yaml_text(yaml) {
        Some(t) => Node::Text(t),
        None => match yaml_pairs(yaml) {
            Some(pairs) => {
                let ghost wanted = yaml_value(*yaml)->Table_0;
                let mut out: Vec<(Node, Node)> = Vec::new();
                let mut i: usize = 0;
                while i < pairs.len()
                    invariant
                        i <= pairs.len(),
                        yaml_value(*yaml) == NodeView::Table(wanted),
                        pairs@.len() == wanted.len(),
                        forall|k: int|
                            0 <= k < pairs@.len() ==> yaml_value((#[trigger] pairs@[k]).0)
                                == wanted[k].0 && yaml_value(pairs@[k].1) == wanted[k].1,
                        out@.len() == i,
                        forall|k: int|
                            0 <= k < i ==> (#[trigger] out@[k]).0@ == wanted[k].0 && out@[k].1@
                                == wanted[k].1,
                    decreases pairs.len() - i,
                {
                    proof {
                        let whole = yaml_value(*yaml);
                        let inner = whole->Table_0;
                        assert(inner == wanted);
                        assert(decreases_to!(whole => inner[i as int].0));
                        assert(decreases_to!(whole => inner[i as int].1));
                    }
                    let key = node_of(&pairs[i].0);
                    let value = node_of(&pairs[i].1);
                    out.push((key, value));
                    i = i + 1;
                }
                let n = Node::Table(out);
                assert(n@->Table_0 =~= wanted);
                n
            },
            None => Node::Other,
        },
    }
}

} // verus!
