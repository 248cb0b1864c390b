//! Configuration records, read from the documents of a YAML text.

use vstd::prelude::*;
use vstd::std_specs::convert::FromSpecImpl;
use crate::reserved::BackendKind;
use crate::machine::DriftPolicy;
use crate::text::{chars_of, same_chars};
use crate::yaml::{
    lemma_table_view, load_yaml, node_of, node_views, scan_error_text, scan_error_words,
    yaml_documents, yaml_value, Node, NodeView,
};

verus! {

/// An I/O error of the standard library. Nothing inside it is visible here.
#[verifier::external_type_specification]
#[verifier::external_body]
pub struct ExIoError(std::io::Error);

/// Why a configuration could not be read.
#[derive(Debug)]
pub enum ConfigError {
    /// The file could not be read.
    Io(std::io::Error),
    /// The text is not YAML.
    Yaml(yaml_rust::ScanError),
    /// A document of the text is not a table.
    NoYamlHash(),
}

impl From<std::io::Error> for ConfigError {
    fn from(err: std::io::Error) -> (r: ConfigError) {
        ConfigError::Io(err)
    }
}

impl FromSpecImpl<std::io::Error> for ConfigError {
    open spec fn obeys_from_spec() -> bool {
        true
    }

    open spec fn from_spec(err: std::io::Error) -> ConfigError {
        ConfigError::Io(err)
    }
}

impl From<yaml_rust::ScanError> for ConfigError {
    fn from(err: yaml_rust::ScanError) -> (r: ConfigError) {
        ConfigError::Yaml(err)
    }
}

impl FromSpecImpl<yaml_rust::ScanError> for ConfigError {
    open spec fn obeys_from_spec() -> bool {
        true
    }

    open spec fn from_spec(err: yaml_rust::ScanError) -> ConfigError {
        ConfigError::Yaml(err)
    }
}

/// How one target is reached and how a run against it behaves.
#[derive(Clone, Debug, PartialEq, Eq)]
pub struct Configuration {
    /// The name of the runner: it decides the kind of the backend.
    pub _runner: Option<String>,
    pub database: Option<String>,
    pub index: Option<String>,
    pub database_number: Option<u8>,
    pub ip_or_hostname: Option<String>,
    pub port: Option<u16>,
    pub username: Option<String>,
    pub password: Option<String>,
    /// `strict` to give a run up on drift; anything else to go on.
    pub drift: Option<String>,
}

/// Mathematical content of a [`Configuration`].
pub struct ConfigurationView {
    pub _runner: Option<Seq<char>>,
    pub database: Option<Seq<char>>,
    pub index: Option<Seq<char>>,
    pub database_number: Option<u8>,
    pub ip_or_hostname: Option<Seq<char>>,
    pub port: Option<u16>,
    pub username: Option<Seq<char>>,
    pub password: Option<Seq<char>>,
    pub drift: Option<Seq<char>>,
}

/// The content of an optional string.
pub open spec fn text_view(s: Option<String>) -> Option<Seq<char>> {
    match s {
        Some(s) => Some(s@),
        None => None,
    }
}

impl View for Configuration {
    type V = ConfigurationView;

    open spec fn view(&self) -> ConfigurationView {
        ConfigurationView {
            _runner: text_view(self._runner),
            database: text_view(self.database),
            index: text_view(self.index),
            database_number: self.database_number,
            ip_or_hostname: text_view(self.ip_or_hostname),
            port: self.port,
            username: text_view(self.username),
            password: text_view(self.password),
            drift: text_view(self.drift),
        }
    }
}

/// The database number that every configuration read from a text gets.
pub const DEFAULT_DATABASE_NUMBER: u8 = 1;

/// The port that every configuration read from a text gets.
pub const DEFAULT_PORT: u16 = 1234;

/// The text of a node: that of a text node, empty for every other.
pub open spec fn text_of(n: NodeView) -> Seq<char> {
    match n {
        NodeView::Text(s) => s,
        _ => Seq::empty(),
    }
}

/// The text under `key` among the pairs: the value of the last pair whose
/// key has the text `key` and whose value is a text.
pub open spec fn lookup(pairs: Seq<(NodeView, NodeView)>, key: Seq<char>) -> Option<Seq<char>>
    decreases pairs.len(),
{
    if pairs.len() == 0 {
        None
    } else {
        let last = pairs.last();
        if text_of(last.0) == key && last.1 is Text {
            Some(last.1->Text_0)
        } else {
            lookup(pairs.drop_last(), key)
        }
    }
}

/// The text under `key` in a table; `None` for a node that is no table.
pub open spec fn get_string_spec(n: NodeView, key: Seq<char>) -> Option<Seq<char>> {
    match n {
        NodeView::Table(pairs) => lookup(pairs, key),
        _ => None,
    }
}

/// The configuration that a node describes.
pub open spec fn configuration_of(n: NodeView) -> ConfigurationView {
    ConfigurationView {
        _runner: get_string_spec(n, "_runner"@),
        database: get_string_spec(n, "database"@),
        index: get_string_spec(n, "index"@),
        database_number: Some(DEFAULT_DATABASE_NUMBER),
        ip_or_hostname: get_string_spec(n, "ip_or_hostname"@),
        port: Some(DEFAULT_PORT),
        username: get_string_spec(n, "username"@),
        password: get_string_spec(n, "password"@),
        drift: get_string_spec(n, "drift"@),
    }
}

/// Position of the first configuration named `name` at or after `from`, or
/// the length of the list when there is none.
pub open spec fn position_of(
    list: Seq<(Seq<char>, ConfigurationView)>,
    name: Seq<char>,
    from: int,
) -> int
    decreases list.len() - from,
{
    if from < 0 || from >= list.len() {
        list.len() as int
    } else if list[from].0 == name {
        from
    } else {
        position_of(list, name, from + 1)
    }
}

/// The list with `value` under `name`: in the place of the configuration
/// that had the name, or at the end where none had it.
pub open spec fn upsert(
    list: Seq<(Seq<char>, ConfigurationView)>,
    name: Seq<char>,
    value: ConfigurationView,
) -> Seq<(Seq<char>, ConfigurationView)> {
    let i = position_of(list, name, 0);
    if i < list.len() {
        list.update(i, (name, value))
    } else {
        list.push((name, value))
    }
}

/// No name stands for two configurations.
pub open spec fn distinct_names(list: Seq<(Seq<char>, ConfigurationView)>) -> bool {
    forall|i: int, j: int|
        0 <= i < j < list.len() ==> (#[trigger] list[i]).0 != (#[trigger] list[j]).0
}

/// `position_of` finds a name exactly where the list holds it.
pub proof fn lemma_position_of(list: Seq<(Seq<char>, ConfigurationView)>, name: Seq<char>, from: int)
    requires
        0 <= from <= list.len(),
    ensures
        from <= position_of(list, name, from) <= list.len(),
        position_of(list, name, from) < list.len() ==> list[position_of(list, name, from)].0
            == name,
        forall|k: int| from <= k < position_of(list, name, from) ==> (#[trigger] list[k]).0 != name,
    decreases list.len() - from,
{
    if from < list.len() && list[from].0 != name {
        lemma_position_of(list, name, from + 1);
    }
}

/// Putting a configuration under a name keeps the names distinct, and the
/// name then stands for that configuration.
pub proof fn lemma_upsert_distinct(
    list: Seq<(Seq<char>, ConfigurationView)>,
    name: Seq<char>,
    value: ConfigurationView,
)
    requires
        distinct_names(list),
    ensures
        distinct_names(upsert(list, name, value)),
        exists|k: int|
            0 <= k < upsert(list, name, value).len() && #[trigger] upsert(list, name, value)[k] == (
                name,
                value,
            ),
{
    lemma_position_of(list, name, 0);
    let i = position_of(list, name, 0);
    let after = upsert(list, name, value);
    assert forall|a: int, b: int| 0 <= a < b < after.len() implies (#[trigger] after[a]).0 != (
    #[trigger] after[b]).0 by {
        if i < list.len() {
            assert(after[a].0 == list[a].0 && after[b].0 == list[b].0);
        } else {
            if b < list.len() {
                assert(after[a] == list[a] && after[b] == list[b]);
            } else {
                assert(after[a] == list[a]);
            }
        }
    }
    if i < list.len() {
        assert(after[i] == (name, value));
    } else {
        assert(after[list.len() as int] == (name, value));
    }
}

/// Taking the sections of a document in keeps the names distinct.
pub proof fn lemma_sections_distinct(
    list: Seq<(Seq<char>, ConfigurationView)>,
    pairs: Seq<(NodeView, NodeView)>,
)
    requires
        distinct_names(list),
    ensures
        distinct_names(with_sections(list, pairs)),
    decreases pairs.len(),
{
    if pairs.len() > 0 {
        lemma_sections_distinct(list, pairs.drop_last());
        let sofar = with_sections(list, pairs.drop_last());
        if let NodeView::Table(inner) = pairs.last().1 {
            lemma_upsert_distinct(sofar, text_of(pairs.last().0), configuration_of(inner[0].1));
        }
    }
}

/// What a map from names to configurations has, the list of configurations
/// has too: no name occurs in it twice.
pub proof fn lemma_configurations_distinct(docs: Seq<NodeView>)
    requires
        configurations_spec(docs) is Some,
    ensures
        distinct_names(configurations_spec(docs).unwrap()),
    decreases docs.len(),
{
    if docs.len() > 0 {
        lemma_configurations_distinct(docs.drop_last());
        if let NodeView::Table(pairs) = docs.last() {
            lemma_sections_distinct(configurations_spec(docs.drop_last()).unwrap(), pairs);
        }
    }
}

/// The list after the pairs of one document were taken in. A pair whose
/// value is a table is a section: it describes a configuration by the value
/// of its first pair, named by the text of the section's key. Other pairs
/// are passed over.
pub open spec fn with_sections(
    list: Seq<(Seq<char>, ConfigurationView)>,
    pairs: Seq<(NodeView, NodeView)>,
) -> Seq<(Seq<char>, ConfigurationView)>
    decreases pairs.len(),
{
    if pairs.len() == 0 {
        list
    } else {
        let sofar = with_sections(list, pairs.drop_last());
        match pairs.last().1 {
            NodeView::Table(inner) => upsert(
                sofar,
                text_of(pairs.last().0),
                configuration_of(inner[0].1),
            ),
            _ => sofar,
        }
    }
}

/// The configurations of a sequence of documents, or `None` where a document
/// is no table.
pub open spec fn configurations_spec(docs: Seq<NodeView>) -> Option<
    Seq<(Seq<char>, ConfigurationView)>,
>
    decreases docs.len(),
{
    if docs.len() == 0 {
        Some(Seq::empty())
    } else {
        match (configurations_spec(docs.drop_last()), docs.last()) {
            (Some(list), NodeView::Table(pairs)) => Some(with_sections(list, pairs)),
            _ => None,
        }
    }
}

/// The node is a table without pairs.
pub open spec fn is_empty_table(n: NodeView) -> bool {
    n is Table && n->Table_0.len() == 0
}

/// Some pair has a table without pairs as its value.
pub open spec fn has_empty_section(pairs: Seq<(NodeView, NodeView)>) -> bool {
    exists|i: int| 0 <= i < pairs.len() && is_empty_table((#[trigger] pairs[i]).1)
}

/// Reading the documents in order comes upon a section without pairs before
/// it comes upon a document that is no table.
pub open spec fn hits_empty_section(docs: Seq<NodeView>) -> bool
    decreases docs.len(),
{
    if docs.len() == 0 {
        false
    } else {
        hits_empty_section(docs.drop_last()) || (configurations_spec(docs.drop_last()) is Some
            && docs.last() is Table && has_empty_section(docs.last()->Table_0))
    }
}

/// The contents of the named configurations, in order.
pub open spec fn named_views(list: Seq<(String, Configuration)>) -> Seq<
    (Seq<char>, ConfigurationView),
> {
    Seq::new(list.len(), |i: int| (list[i].0@, list[i].1@))
}

/// The text of a node: that of a text node, empty for every other.
pub fn as_string(node: &Node) -> (r: String)
    ensures
        r@ == text_of(node@),
{
    match node {
        Node::Text(s) => s.clone(),
        _ => String::new(),
    }
}

/// Looks a key up in a table: the text of the last pair whose key has the
/// text `search_key` and whose value is a text. `None` where there is no
/// such pair, or the node is no table.
pub fn get_string(node: &Node, search_key: String) -> (r: Option<String>)
    ensures
        text_view(r) == get_string_spec(node@, search_key@),
{
    let mut result: Option<String> = None;
    match node {
        Node::Table(pairs) => {
            let ghost views = node@->Table_0;
            proof {
                lemma_table_view(*node);
            }
            let mut i: usize = 0;
            while i < pairs.len()
                invariant
                    i <= pairs.len(),
                    views.len() == pairs@.len(),
                    forall|k: int|
                        0 <= k < pairs@.len() ==> (#[trigger] views[k]) == (
                            pairs@[k].0@,
                            pairs@[k].1@,
                        ),
                    text_view(result) == lookup(views.subrange(0, i as int), search_key@),
                decreases pairs.len() - i,
            {
                assert(views.subrange(0, i + 1).drop_last() == views.subrange(0, i as int));
                assert(views.subrange(0, i + 1).last() == views[i as int]);
                if as_string(&pairs[i].0) == search_key {
                    match &pairs[i].1 {
                        Node::Text(value) => {
                            result = Some(value.clone());
                        },
                        _ => {},
                    }
                }
                i = i + 1;
            }
            assert(views.subrange(0, pairs.len() as int) == views);
        },
        _ => {},
    }
    result
}

/// A string with the text of a literal.
fn text(s: &str) -> (r: String)
    ensures
        r@ == s@,
{
    crate::text::string_of(&chars_of(s))
}

/// Reads the configuration that a node describes. Database number and port
/// are not read from the node: every configuration gets the defaults.
pub fn configuration_from(node: &Node) -> (c: Configuration)
    ensures
        c@ == configuration_of(node@),
{
    Configuration {
        _runner: get_string(node, text("_runner")),
        database: get_string(node, text("database")),
        index: get_string(node, text("index")),
        database_number: Some(DEFAULT_DATABASE_NUMBER),
        ip_or_hostname: get_string(node, text("ip_or_hostname")),
        port: Some(DEFAULT_PORT),
        username: get_string(node, text("username")),
        password: get_string(node, text("password")),
        drift: get_string(node, text("drift")),
    }
}

/// Puts a configuration under a name: in the place of the one that had the
/// name, or at the end.
fn put(list: &mut Vec<(String, Configuration)>, name: String, value: Configuration)
    ensures
        named_views(final(list)@) == upsert(named_views(old(list)@), name@, value@),
{
    let ghost before = named_views(list@);
    let mut i: usize = 0;
    while i < list.len() && !(list[i].0 == name)
        invariant
            i <= list.len(),
            *list == *old(list),
            before == named_views(list@),
            position_of(before, name@, 0) == position_of(before, name@, i as int),
        decreases list.len() - i,
    {
        i = i + 1;
    }
    if i < list.len() {
        list.set(i, (name, value));
        assert(named_views(list@) =~= before.update(i as int, (name@, value@)));
    } else {
        list.push((name, value));
        assert(named_views(list@) =~= before.push((name@, value@)));
    }
}

/// Once a document is no table, no longer sequence of documents has
/// configurations, and none comes upon another empty section.
proof fn lemma_no_table_ends(docs: Seq<NodeView>, k: int)
    requires
        0 <= k <= docs.len(),
        configurations_spec(docs.subrange(0, k)) is None,
    ensures
        configurations_spec(docs) is None,
        hits_empty_section(docs) == hits_empty_section(docs.subrange(0, k)),
    decreases docs.len() - k,
{
    if k == docs.len() {
        assert(docs.subrange(0, k) == docs);
    } else {
        assert(docs.subrange(0, k + 1).drop_last() == docs.subrange(0, k));
        lemma_no_table_ends(docs, k + 1);
    }
}

/// An empty section that a shorter sequence of documents comes upon, a
/// longer one comes upon too.
proof fn lemma_empty_section_stays(docs: Seq<NodeView>, k: int)
    requires
        0 <= k <= docs.len(),
        hits_empty_section(docs.subrange(0, k)),
    ensures
        hits_empty_section(docs),
    decreases docs.len() - k,
{
    if k == docs.len() {
        assert(docs.subrange(0, k) == docs);
    } else {
        assert(docs.subrange(0, k + 1).drop_last() == docs.subrange(0, k));
        lemma_empty_section_stays(docs, k + 1);
    }
}

/// Tells whether some pair has a table without pairs as its value.
fn find_empty_section(pairs: &Vec<(Node, Node)>, Ghost(views): Ghost<Seq<(NodeView, NodeView)>>) -> (r:
    bool)
    requires
        views.len() == pairs@.len(),
        forall|k: int|
            0 <= k < pairs@.len() ==> (#[trigger] views[k]) == (pairs@[k].0@, pairs@[k].1@),
    ensures
        r == has_empty_section(views),
{
    let mut i: usize = 0;
    while i < pairs.len()
        invariant
            i <= pairs.len(),
            views.len() == pairs@.len(),
            forall|k: int|
                0 <= k < pairs@.len() ==> (#[trigger] views[k]) == (pairs@[k].0@, pairs@[k].1@),
            forall|k: int| 0 <= k < i ==> !is_empty_table((#[trigger] views[k]).1),
        decreases pairs.len() - i,
    {
        match &pairs[i].1 {
            Node::Table(inner) => {
                proof {
                    lemma_table_view(pairs@[i as int].1);
                }
                if inner.len() == 0 {
                    assert(is_empty_table(views[i as int].1));
                    return true;
                }
            },
            _ => {},
        }
        i = i + 1;
    }
    false
}

/// Tells whether reading the documents in order comes upon a section
/// without pairs before it comes upon a document that is no table.
pub fn comes_upon_empty_section(docs: &Vec<Node>) -> (r: bool)
    ensures
        r == hits_empty_section(node_views(docs@)),
{
    let ghost views = node_views(docs@);
    let mut d: usize = 0;
    assert(views.subrange(0, 0) =~= Seq::<NodeView>::empty());
    while d < docs.len()
        invariant
            d <= docs.len(),
            views == node_views(docs@),
            configurations_spec(views.subrange(0, d as int)) is Some,
            !hits_empty_section(views.subrange(0, d as int)),
        decreases docs.len() - d,
    {
        assert(views.subrange(0, d + 1).drop_last() == views.subrange(0, d as int));
        assert(views.subrange(0, d + 1).last() == docs@[d as int]@);
        match &docs[d] {
            Node::Table(pairs) => {
                proof {
                    lemma_table_view(docs@[d as int]);
                }
                if find_empty_section(pairs, Ghost(docs@[d as int]@->Table_0)) {
                    proof {
                        lemma_empty_section_stays(views, d + 1);
                    }
                    return true;
                }
            },
            _ => {
                proof {
                    lemma_no_table_ends(views, d + 1);
                }
                return false;
            },
        }
        d = d + 1;
    }
    assert(views.subrange(0, docs.len() as int) == views);
    false
}

/// Takes the sections of one document in.
fn take_sections(
    list: &mut Vec<(String, Configuration)>,
    pairs: &Vec<(Node, Node)>,
    Ghost(views): Ghost<Seq<(NodeView, NodeView)>>,
)
    requires
        views.len() == pairs@.len(),
        forall|k: int|
            0 <= k < pairs@.len() ==> (#[trigger] views[k]) == (pairs@[k].0@, pairs@[k].1@),
        !has_empty_section(views),
    ensures
        named_views(final(list)@) == with_sections(named_views(old(list)@), views),
{
    let ghost before = named_views(list@);
    let mut i: usize = 0;
    assert(views.subrange(0, 0) =~= Seq::<(NodeView, NodeView)>::empty());
    while i < pairs.len()
        invariant
            i <= pairs.len(),
            views.len() == pairs@.len(),
            forall|k: int|
                0 <= k < pairs@.len() ==> (#[trigger] views[k]) == (pairs@[k].0@, pairs@[k].1@),
            !has_empty_section(views),
            named_views(list@) == with_sections(before, views.subrange(0, i as int)),
        decreases pairs.len() - i,
    {
        assert(views.subrange(0, i + 1).drop_last() == views.subrange(0, i as int));
        assert(views.subrange(0, i + 1).last() == views[i as int]);
        match &pairs[i].1 {
            Node::Table(inner) => {
                proof {
                    lemma_table_view(pairs@[i as int].1);
                    assert(!is_empty_table(views[i as int].1));
                }
                let c = configuration_from(&inner[0].1);
                put(list, as_string(&pairs[i].0), c);
            },
            _ => {},
        }
        i = i + 1;
    }
    assert(views.subrange(0, pairs.len() as int) == views);
}

/// Reads the configurations of a sequence of documents. Every document
/// must be a table; each of its pairs whose value is a table is a section,
/// which describes one configuration by the value of its first pair and
/// names it by the text of its key. A later section of the same name takes
/// the place of the earlier one. No section may be without pairs.
pub fn configurations(docs: &Vec<Node>) -> (r: Result<Vec<(String, Configuration)>, ConfigError>)
    requires
        !hits_empty_section(node_views(docs@)),
    ensures
        match r {
            Ok(list) => configurations_spec(node_views(docs@)) == Some(named_views(list@))
                && distinct_names(named_views(list@)),
            Err(e) => e is NoYamlHash && configurations_spec(node_views(docs@)) is None,
        },
{
    let ghost views = node_views(docs@);
    let mut list: Vec<(String, Configuration)> = Vec::new();
    let mut d: usize = 0;
    assert(views.subrange(0, 0) =~= Seq::<NodeView>::empty());
    assert(named_views(list@) =~= Seq::<(Seq<char>, ConfigurationView)>::empty());
    while d < docs.len()
        invariant
            d <= docs.len(),
            views == node_views(docs@),
            !hits_empty_section(views),
            configurations_spec(views.subrange(0, d as int)) == Some(named_views(list@)),
        decreases docs.len() - d,
    {
        assert(views.subrange(0, d + 1).drop_last() == views.subrange(0, d as int));
        assert(views.subrange(0, d + 1).last() == docs@[d as int]@);
        match &docs[d] {
            Node::Table(pairs) => {
                proof {
                    lemma_table_view(docs@[d as int]);
                    if has_empty_section(docs@[d as int]@->Table_0) {
                        lemma_empty_section_stays(views, d + 1);
                    }
                }
                take_sections(&mut list, pairs, Ghost(docs@[d as int]@->Table_0));
            },
            _ => {
                proof {
                    lemma_no_table_ends(views, d + 1);
                }
                return Err(ConfigError::NoYamlHash());
            },
        }
        d = d + 1;
    }
    assert(views.subrange(0, docs.len() as int) == views);
    proof {
        lemma_configurations_distinct(views);
    }
    Ok(list)
}

/// Turns what the loader handed back into what this library hands on: the
/// documents as nodes, or the loader's own error as a configuration error.
pub fn documents_of(loaded: Result<Vec<yaml_rust::Yaml>, yaml_rust::ScanError>) -> (r: Result<
    Vec<Node>,
    ConfigError,
>)
    ensures
        match loaded {
            Ok(raw) => r matches Ok(docs) && docs@.len() == raw@.len() && forall|k: int|
                0 <= k < raw@.len() ==> (#[trigger] docs@[k])@ == yaml_value(raw@[k]),
            Err(cause) => r matches Err(e) && e == ConfigError::Yaml(cause),
        },
{
    match loaded {
        Ok(raw) => {
            let mut docs: Vec<Node> = Vec::new();
            let mut i: usize = 0;
            while i < raw.len()
                invariant
                    i <= raw.len(),
                    docs@.len() == i,
                    forall|k: int| 0 <= k < i ==> (#[trigger] docs@[k])@ == yaml_value(raw@[k]),
                decreases raw.len() - i,
            {
                docs.push(node_of(&raw[i]));
                i = i + 1;
            }
            Ok(docs)
        },
        Err(cause) => Err(ConfigError::Yaml(cause)),
    }
}

/// Loads the documents of a YAML text. Where the loader gives the text up,
/// its error is handed on as it is.
pub fn parse_documents(text: &str) -> (r: Result<Vec<Node>, ConfigError>)
    ensures
        match r {
            Ok(docs) => yaml_documents(text@) == Some(node_views(docs@)),
            Err(e) => e is Yaml && yaml_documents(text@) is None,
        },
{
    let loaded = load_yaml(text);
    let ghost wanted = yaml_documents(text@);
    let r = documents_of(loaded);
    proof {
        if r is Ok {
            assert(node_views(r->Ok_0@) =~= wanted.unwrap());
        }
    }
    r
}

/// Reads the configurations of a YAML text: loads its documents and reads
/// them as `configurations` does. `None` where reading comes upon a section
/// without pairs, which describes no configuration.
pub fn from_text(text: &str) -> (r: Option<Result<Vec<(String, Configuration)>, ConfigError>>)
    ensures
        match yaml_documents(text@) {
            None => r matches Some(Err(e)) && e is Yaml,
            Some(docs) => if hits_empty_section(docs) {
                r is None
            } else {
                match configurations_spec(docs) {
                    Some(list) => r matches Some(Ok(found)) && named_views(found@) == list
                        && distinct_names(list),
                    None => r matches Some(Err(e)) && e is NoYamlHash,
                }
            },
        },
{
    match parse_documents(text) {
        Ok(docs) => if comes_upon_empty_section(&docs) {
            None
        } else {
            Some(configurations(&docs))
        },
        Err(e) => Some(Err(e)),
    }
}

/// The words with which the standard library describes an I/O error.
///
/// Trusted: calls `to_string` on a `std::io::Error`. Nothing is claimed of
/// the result: the words depend on the platform.
#[verifier::external_body]
fn io_error_text(err: &std::io::Error) -> (r: String) {
    err.to_string()
}

/// The words every message starts with, by the kind of the error.
pub open spec fn message_prefix(e: ConfigError) -> Seq<char> {
    match e {
        ConfigError::Io(_) => "MITRE: IO error: "@,
        ConfigError::Yaml(_) => "MITRE: YAML error: "@,
        ConfigError::NoYamlHash() => "MITRE: YAML error: the top level doc in the yaml wasn't a hash"@,
    }
}

/// The message of an error whose cause describes itself with the given
/// words: the prefix, and behind it the words where the error has a cause.
pub open spec fn message_text(e: ConfigError, cause: Seq<char>) -> Seq<char> {
    match e {
        ConfigError::NoYamlHash() => message_prefix(e),
        _ => message_prefix(e) + cause,
    }
}

impl ConfigError {
    /// Puts the message of the error together from the words of its cause.
    pub fn message_with(&self, cause: &str) -> (r: String)
        ensures
            r@ == message_text(*self, cause@),
    {
        match self {
            ConfigError::Io(_) => {
                let mut r = text("MITRE: IO error: ");
                r.append(cause);
                r
            },
            ConfigError::Yaml(_) => {
                let mut r = text("MITRE: YAML error: ");
                r.append(cause);
                r
            },
            ConfigError::NoYamlHash() => text(
                "MITRE: YAML error: the top level doc in the yaml wasn't a hash",
            ),
        }
    }

    /// The error in words: a prefix that tells the kind of the error, and
    /// behind it the words with which the underlying error describes
    /// itself, where there is one.
    pub fn message(&self) -> (r: String)
        ensures
            match *self {
                ConfigError::Io(_) => exists|cause: Seq<char>|
                    r@ == #[trigger] message_text(*self, cause),
                ConfigError::Yaml(cause) => r@ == message_text(*self, scan_error_words(cause)),
                ConfigError::NoYamlHash() => r@ == message_prefix(*self),
            },
            r@.len() >= message_prefix(*self).len(),
            r@.subrange(0, message_prefix(*self).len() as int) == message_prefix(*self),
    {
        let r = match self {
            ConfigError::Io(err) => {
                let cause = io_error_text(err);
                let r = self.message_with(cause.as_str());
                assert(r@ == message_text(*self, cause@));
                r
            },
            ConfigError::Yaml(err) => {
                let cause = scan_error_text(err);
                self.message_with(cause.as_str())
            },
            ConfigError::NoYamlHash() => self.message_with(""),
        };
        assert(r@.subrange(0, message_prefix(*self).len() as int) =~= message_prefix(*self));
        r
    }
}

/// The kind of backend that a runner name stands for.
pub open spec fn kind_of_runner(name: Seq<char>) -> Option<BackendKind> {
    if name == "mariadb"@ || name == "mysql"@ || name == "postgres"@ {
        Some(BackendKind::Relational)
    } else if name == "redis"@ {
        Some(BackendKind::KeyValue)
    } else if name == "elasticsearch"@ {
        Some(BackendKind::SearchIndex)
    } else {
        None
    }
}

/// Tells whether a string has the text of a literal.
fn is_text(s: &String, literal: &str) -> (r: bool)
    ensures
        r == (s@ == literal@),
{
    same_chars(&chars_of(s.as_str()), &chars_of(literal))
}

impl Configuration {
    /// The kind of the backend, as the runner's name tells it; `None` where
    /// there is no runner or its name is unknown.
    pub fn backend_kind(&self) -> (r: Option<BackendKind>)
        ensures
            r == match self._runner {
                Some(name) => kind_of_runner(name@),
                None => None,
            },
    {
        match &self._runner {
            Some(name) => {
                if is_text(name, "mariadb") || is_text(name, "mysql") || is_text(name, "postgres") {
                    Some(BackendKind::Relational)
                } else if is_text(name, "redis") {
                    Some(BackendKind::KeyValue)
                } else if is_text(name, "elasticsearch") {
                    Some(BackendKind::SearchIndex)
                } else {
                    None
                }
            },
            None => None,
        }
    }

    /// What a run does on drift: it gives up where the configuration says
    /// `strict`, and goes on otherwise.
    pub fn drift_policy(&self) -> (r: DriftPolicy)
        ensures
            r == if self.drift matches Some(word) && word@ == "strict"@ {
                DriftPolicy::Strict
            } else {
                DriftPolicy::Lenient
            },
    {
        match &self.drift {
            Some(word) => if is_text(word, "strict") {
                DriftPolicy::Strict
            } else {
                DriftPolicy::Lenient
            },
            None => DriftPolicy::Lenient,
        }
    }
}

} // verus!
