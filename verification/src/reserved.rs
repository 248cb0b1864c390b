//! Identifiers that a backend keeps for itself, and the lookup that detects them.

use vstd::prelude::*;
use crate::text::{chars_of, lower_char, to_lower_char};

verus! {

/// The kinds of data store a migration can target.
#[derive(Clone, Copy, Debug, PartialEq, Eq, Structural)]
pub enum BackendKind {
    /// A relational store that speaks SQL and has native transactions.
    Relational,
    /// A key-value store.
    KeyValue,
    /// A document store or search index.
    SearchIndex,
}

/// The name of a backend kind.
pub open spec fn kind_name(kind: BackendKind) -> Seq<char> {
    match kind {
        BackendKind::Relational => "relational"@,
        BackendKind::KeyValue => "key-value"@,
        BackendKind::SearchIndex => "search-index"@,
    }
}

impl BackendKind {
    /// The name of the kind, as it is shown to the user.
    pub fn name(&self) -> (r: String)
        ensures
            r@ == kind_name(*self),
    {
        let name = match self {
            BackendKind::Relational => "relational",
            BackendKind::KeyValue => "key-value",
            BackendKind::SearchIndex => "search-index",
        };
        crate::text::string_of(&chars_of(name))
    }
}

/// One reserved identifier, the backend kind that reserves it, and why.
#[derive(Clone, Copy, Debug)]
pub struct ReservedWord {
    pub word: &'static str,
    pub kind: BackendKind,
    pub reason: &'static str,
}

/// The reserved identifiers of every backend kind, in listing order.
pub open spec fn reserved_table() -> Seq<ReservedWord> {
    seq![
        ReservedWord { word: "select", kind: BackendKind::Relational, reason: "SQL keyword" },
        ReservedWord { word: "insert", kind: BackendKind::Relational, reason: "SQL keyword" },
        ReservedWord { word: "update", kind: BackendKind::Relational, reason: "SQL keyword" },
        ReservedWord { word: "delete", kind: BackendKind::Relational, reason: "SQL keyword" },
        ReservedWord { word: "drop", kind: BackendKind::Relational, reason: "SQL keyword" },
        ReservedWord { word: "alter", kind: BackendKind::Relational, reason: "SQL keyword" },
        ReservedWord { word: "from", kind: BackendKind::Relational, reason: "SQL keyword" },
        ReservedWord { word: "where", kind: BackendKind::Relational, reason: "SQL keyword" },
        ReservedWord { word: "join", kind: BackendKind::Relational, reason: "SQL keyword" },
        ReservedWord { word: "union", kind: BackendKind::Relational, reason: "SQL keyword" },
        ReservedWord { word: "grant", kind: BackendKind::Relational, reason: "SQL keyword" },
        ReservedWord { word: "null", kind: BackendKind::Relational, reason: "SQL keyword" },
        ReservedWord { word: "keys", kind: BackendKind::KeyValue, reason: "store command" },
        ReservedWord { word: "eval", kind: BackendKind::KeyValue, reason: "store command" },
        ReservedWord { word: "multi", kind: BackendKind::KeyValue, reason: "store command" },
        ReservedWord { word: "exec", kind: BackendKind::KeyValue, reason: "store command" },
        ReservedWord { word: "flushdb", kind: BackendKind::KeyValue, reason: "store command" },
        ReservedWord { word: "flushall", kind: BackendKind::KeyValue, reason: "store command" },
        ReservedWord { word: "_id", kind: BackendKind::SearchIndex, reason: "metadata field" },
        ReservedWord { word: "_index", kind: BackendKind::SearchIndex, reason: "metadata field" },
        ReservedWord { word: "_source", kind: BackendKind::SearchIndex, reason: "metadata field" },
        ReservedWord { word: "_all", kind: BackendKind::SearchIndex, reason: "metadata field" },
        ReservedWord { word: "mappings", kind: BackendKind::SearchIndex, reason: "index section" },
        ReservedWord { word: "settings", kind: BackendKind::SearchIndex, reason: "index section" },
        ReservedWord { word: "aliases", kind: BackendKind::SearchIndex, reason: "index section" },
    ]
}

/// The reserved identifiers of every backend kind, in listing order.
pub fn words() -> (r: Vec<ReservedWord>)
    ensures
        r@ == reserved_table(),
{
    let r = vec![
        ReservedWord { word: "select", kind: BackendKind::Relational, reason: "SQL keyword" },
        ReservedWord { word: "insert", kind: BackendKind::Relational, reason: "SQL keyword" },
        ReservedWord { word: "update", kind: BackendKind::Relational, reason: "SQL keyword" },
        ReservedWord { word: "delete", kind: BackendKind::Relational, reason: "SQL keyword" },
        ReservedWord { word: "drop", kind: BackendKind::Relational, reason: "SQL keyword" },
        ReservedWord { word: "alter", kind: BackendKind::Relational, reason: "SQL keyword" },
        ReservedWord { word: "from", kind: BackendKind::Relational, reason: "SQL keyword" },
        ReservedWord { word: "where", kind: BackendKind::Relational, reason: "SQL keyword" },
        ReservedWord { word: "join", kind: BackendKind::Relational, reason: "SQL keyword" },
        ReservedWord { word: "union", kind: BackendKind::Relational, reason: "SQL keyword" },
        ReservedWord { word: "grant", kind: BackendKind::Relational, reason: "SQL keyword" },
        ReservedWord { word: "null", kind: BackendKind::Relational, reason: "SQL keyword" },
        ReservedWord { word: "keys", kind: BackendKind::KeyValue, reason: "store command" },
        ReservedWord { word: "eval", kind: BackendKind::KeyValue, reason: "store command" },
        ReservedWord { word: "multi", kind: BackendKind::KeyValue, reason: "store command" },
        ReservedWord { word: "exec", kind: BackendKind::KeyValue, reason: "store command" },
        ReservedWord { word: "flushdb", kind: BackendKind::KeyValue, reason: "store command" },
        ReservedWord { word: "flushall", kind: BackendKind::KeyValue, reason: "store command" },
        ReservedWord { word: "_id", kind: BackendKind::SearchIndex, reason: "metadata field" },
        ReservedWord { word: "_index", kind: BackendKind::SearchIndex, reason: "metadata field" },
        ReservedWord { word: "_source", kind: BackendKind::SearchIndex, reason: "metadata field" },
        ReservedWord { word: "_all", kind: BackendKind::SearchIndex, reason: "metadata field" },
        ReservedWord { word: "mappings", kind: BackendKind::SearchIndex, reason: "index section" },
        ReservedWord { word: "settings", kind: BackendKind::SearchIndex, reason: "index section" },
        ReservedWord { word: "aliases", kind: BackendKind::SearchIndex, reason: "index section" },
    ];
    assert(r@ =~= reserved_table());
    r
}

/// A string with its ASCII letters lower-cased.
pub open spec fn lower(s: Seq<char>) -> Seq<char> {
    Seq::new(s.len(), |i: int| lower_char(s[i]))
}

/// True when two strings are equal once ASCII case is ignored.
pub open spec fn same_ignoring_case(a: Seq<char>, b: Seq<char>) -> bool {
    lower(a) == lower(b)
}

/// True when `word`, ignoring ASCII case, is reserved by `kind`.
pub open spec fn is_reserved_word(word: Seq<char>, kind: BackendKind) -> bool {
    exists|i: int|
        0 <= i < reserved_table().len() && (#[trigger] reserved_table()[i]).kind == kind
            && same_ignoring_case(reserved_table()[i].word@, word)
}

/// Every backend kind reserves some word, and a word is reserved whatever
/// the case of its letters.
pub proof fn lemma_every_kind_reserves(kind: BackendKind)
    ensures
        exists|i: int|
            0 <= i < reserved_table().len() && (#[trigger] reserved_table()[i]).kind == kind
                && is_reserved_word(reserved_table()[i].word@, kind),
        forall|a: Seq<char>, b: Seq<char>|
            same_ignoring_case(a, b) ==> is_reserved_word(a, kind) == is_reserved_word(b, kind),
{
    let i = match kind {
        BackendKind::Relational => 0int,
        BackendKind::KeyValue => 12int,
        BackendKind::SearchIndex => 18int,
    };
    assert(reserved_table()[i].kind == kind);
    assert(same_ignoring_case(reserved_table()[i].word@, reserved_table()[i].word@));
    assert forall|a: Seq<char>, b: Seq<char>| same_ignoring_case(a, b) implies is_reserved_word(
        a,
        kind,
    ) == is_reserved_word(b, kind) by {
        if is_reserved_word(a, kind) {
            let k = choose|k: int|
                0 <= k < reserved_table().len() && (#[trigger] reserved_table()[k]).kind == kind
                    && same_ignoring_case(reserved_table()[k].word@, a);
            assert(same_ignoring_case(reserved_table()[k].word@, b));
        }
        if is_reserved_word(b, kind) {
            let k = choose|k: int|
                0 <= k < reserved_table().len() && (#[trigger] reserved_table()[k]).kind == kind
                    && same_ignoring_case(reserved_table()[k].word@, b);
            assert(same_ignoring_case(reserved_table()[k].word@, a));
        }
    }
}

/// No backend kind reserves a word of more than eight characters, or the
/// empty word: a slug made of such tokens collides with nothing.
pub proof fn lemma_long_words_are_free(word: Seq<char>, kind: BackendKind)
    requires
        word.len() == 0 || word.len() > 8,
    ensures
        !is_reserved_word(word, kind),
{
    reveal_strlit("select");
    reveal_strlit("insert");
    reveal_strlit("update");
    reveal_strlit("delete");
    reveal_strlit("drop");
    reveal_strlit("alter");
    reveal_strlit("from");
    reveal_strlit("where");
    reveal_strlit("join");
    reveal_strlit("union");
    reveal_strlit("grant");
    reveal_strlit("null");
    reveal_strlit("keys");
    reveal_strlit("eval");
    reveal_strlit("multi");
    reveal_strlit("exec");
    reveal_strlit("flushdb");
    reveal_strlit("flushall");
    reveal_strlit("_id");
    reveal_strlit("_index");
    reveal_strlit("_source");
    reveal_strlit("_all");
    reveal_strlit("mappings");
    reveal_strlit("settings");
    reveal_strlit("aliases");
    assert forall|i: int| 0 <= i < reserved_table().len() implies !same_ignoring_case(
        (#[trigger] reserved_table()[i]).word@,
        word,
    ) by {
        let w = reserved_table()[i].word@;
        assert(0 < w.len() <= 8);
        assert(lower(w).len() == w.len() && lower(word).len() == word.len());
    }
}

/// Case-insensitive comparison of two character vectors.
pub fn eq_ignoring_case(a: &Vec<char>, b: &Vec<char>) -> (r: bool)
    ensures
        r == same_ignoring_case(a@, b@),
{
    if a.len() != b.len() {
        assert(lower(a@).len() != lower(b@).len());
        return false;
    }
    let mut i: usize = 0;
    while i < a.len()
        invariant
            a.len() == b.len(),
            i <= a.len(),
            forall|k: int| 0 <= k < i ==> lower_char(a@[k]) == lower_char(b@[k]),
        decreases a.len() - i,
    {
        if to_lower_char(a[i]) != to_lower_char(b[i]) {
            assert(lower(a@)[i as int] != lower(b@)[i as int]);
            return false;
        }
        i = i + 1;
    }
    assert(lower(a@) =~= lower(b@));
    true
}

/// Looks `word` up among the identifiers reserved by `kind`, ignoring ASCII case.
pub fn is_reserved_chars(word: &Vec<char>, kind: BackendKind) -> (r: bool)
    ensures
        r == is_reserved_word(word@, kind),
{
    let table = words();
    let mut i: usize = 0;
    while i < table.len()
        invariant
            table@ == reserved_table(),
            i <= table.len(),
            forall|k: int|
                0 <= k < i ==> !((#[trigger] reserved_table()[k]).kind == kind
                    && same_ignoring_case(reserved_table()[k].word@, word@)),
        decreases table.len() - i,
    {
        if table[i].kind == kind {
            let candidate = chars_of(table[i].word);
            if eq_ignoring_case(&candidate, word) {
                return true;
            }
        }
        i = i + 1;
    }
    false
}

/// Reports whether `word` is reserved by the given backend kind. The lookup
/// ignores ASCII case and reads no state.
pub fn is_reserved(word: &str, kind: BackendKind) -> (r: bool)
    ensures
        r == is_reserved_word(word@, kind),
{
    let chars = chars_of(word);
    is_reserved_chars(&chars, kind)
}

} // verus!
