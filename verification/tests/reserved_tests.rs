use mitre::reserved::{is_reserved, words, BackendKind};

#[test]
fn every_kind_knows_a_reserved_word_and_lets_a_plain_one_pass() {
    let known = [
        (BackendKind::Relational, "select"),
        (BackendKind::KeyValue, "flushall"),
        (BackendKind::SearchIndex, "_source"),
    ];
    for (kind, word) in known {
        assert!(is_reserved(word, kind));
        assert!(!is_reserved("users", kind));
        assert!(!is_reserved("", kind));
    }
}

#[test]
fn reserved_words_are_found_whatever_their_case() {
    assert!(is_reserved("SELECT", BackendKind::Relational));
    assert!(is_reserved("Select", BackendKind::Relational));
    assert!(is_reserved("FlushDb", BackendKind::KeyValue));
    assert!(is_reserved("_ID", BackendKind::SearchIndex));
}

#[test]
fn a_word_is_reserved_for_its_own_kind_only() {
    assert!(!is_reserved("select", BackendKind::KeyValue));
    assert!(!is_reserved("select", BackendKind::SearchIndex));
    assert!(!is_reserved("keys", BackendKind::Relational));
    assert!(!is_reserved("mappings", BackendKind::Relational));
    assert!(!is_reserved("selects", BackendKind::Relational));
    assert!(!is_reserved("selec", BackendKind::Relational));
}

#[test]
fn every_listed_word_is_reserved_for_its_kind() {
    let all = words();
    assert_eq!(all.len(), 25);
    for w in all.iter() {
        assert!(is_reserved(w.word, w.kind));
        assert!(!w.reason.is_empty());
    }
    for kind in [BackendKind::Relational, BackendKind::KeyValue, BackendKind::SearchIndex] {
        assert!(all.iter().any(|w| w.kind == kind));
    }
}

#[test]
fn kinds_have_names() {
    assert_eq!(BackendKind::Relational.name(), "relational");
    assert_eq!(BackendKind::KeyValue.name(), "key-value");
    assert_eq!(BackendKind::SearchIndex.name(), "search-index");
}
