use mitre::config::{
    as_string, comes_upon_empty_section, configuration_from, configurations, documents_of,
    from_text, get_string, parse_documents, ConfigError, Configuration,
};
use mitre::reserved::BackendKind;
use mitre::machine::DriftPolicy;
use mitre::yaml::{node_of, Node};

fn text(s: &str) -> Node {
    Node::Text(s.to_string())
}

#[test]
fn get_string_gets_string() -> Result<(), ConfigError> {
    let yaml_docs = parse_documents(
        "
key: bestValue
  ",
    )?;
    let doc = yaml_docs.first();
    let result = match doc {
        Some(document) => get_string(document, String::from("key")),
        _ => None,
    };

    assert_eq!(
        result.or(Some(String::from("error"))),
        Some(String::from("bestValue"))
    );
    Ok(())
}

#[test]
fn documents_are_loaded_as_nodes() {
    let docs = parse_documents("a: b\nc:\n  d: e\n  1: f\ng: [h]\n---\n- x\n").unwrap();
    assert_eq!(docs.len(), 2);
    assert_eq!(
        docs[0],
        Node::Table(vec![
            (text("a"), text("b")),
            (text("c"), Node::Table(vec![(text("d"), text("e")), (Node::Other, text("f"))])),
            (text("g"), Node::Other),
        ])
    );
    assert_eq!(docs[1], Node::Other);
}

#[test]
fn a_loader_value_becomes_a_node() {
    let raw = yaml_rust::YamlLoader::load_from_str("k: v\nn: 3\n").unwrap();
    assert_eq!(
        node_of(&raw[0]),
        Node::Table(vec![(text("k"), text("v")), (text("n"), Node::Other)])
    );
    assert_eq!(node_of(&yaml_rust::Yaml::String("s".to_string())), text("s"));
    assert_eq!(node_of(&yaml_rust::Yaml::Null), Node::Other);
}

#[test]
fn a_text_that_is_not_yaml_is_an_error() {
    let err = parse_documents("a: [1, 2").unwrap_err();
    assert!(matches!(err, ConfigError::Yaml(_)));
    assert!(err.message().starts_with("MITRE: YAML error: "));
    assert!(err.message().len() > "MITRE: YAML error: ".len());
}

#[test]
fn as_string_is_the_text_or_empty() {
    assert_eq!(as_string(&text("abc")), "abc");
    assert_eq!(as_string(&Node::Other), "");
    assert_eq!(as_string(&Node::Table(Vec::new())), "");
}

#[test]
fn get_string_takes_the_last_text_under_the_key() {
    let table = Node::Table(vec![
        (text("k"), text("first")),
        (text("other"), text("x")),
        (text("k"), Node::Other),
        (text("k"), text("last")),
        (text("k"), Node::Table(Vec::new())),
    ]);
    assert_eq!(get_string(&table, "k".to_string()), Some("last".to_string()));
    assert_eq!(get_string(&table, "other".to_string()), Some("x".to_string()));
    assert_eq!(get_string(&table, "missing".to_string()), None);
    assert_eq!(get_string(&text("k"), "k".to_string()), None);
    assert_eq!(get_string(&Node::Other, "k".to_string()), None);
}

#[test]
fn a_key_that_is_no_text_counts_as_the_empty_key() {
    let table = Node::Table(vec![(Node::Other, text("v"))]);
    assert_eq!(get_string(&table, String::new()), Some("v".to_string()));
}

#[test]
fn configurations_are_read_from_the_first_pair_of_each_section() {
    let docs = parse_documents(
        "
defaults: &defaults
  _runner: mariadb
  database: app
  ip_or_hostname: db.example
  username: admin
  password: pw
  drift: strict
development:
  <<: *defaults
production:
  <<: *defaults
  database: ignored
plain: text
",
    )
    .unwrap();
    assert!(!comes_upon_empty_section(&docs));
    let list = configurations(&docs).unwrap();
    let names: Vec<&str> = list.iter().map(|(name, _)| name.as_str()).collect();
    assert_eq!(names, vec!["defaults", "development", "production"]);
    let expected = Configuration {
        _runner: Some("mariadb".to_string()),
        database: Some("app".to_string()),
        index: None,
        database_number: Some(1),
        ip_or_hostname: Some("db.example".to_string()),
        port: Some(1234),
        username: Some("admin".to_string()),
        password: Some("pw".to_string()),
        drift: Some("strict".to_string()),
    };
    assert_eq!(list[1].1, expected);
    assert_eq!(list[2].1, expected);
    let bare = Configuration {
        _runner: None,
        database: None,
        index: None,
        database_number: Some(1),
        ip_or_hostname: None,
        port: Some(1234),
        username: None,
        password: None,
        drift: None,
    };
    assert_eq!(list[0].1, bare);
}

#[test]
fn a_later_section_takes_the_place_of_an_earlier_one_of_its_name() {
    let docs = parse_documents(
        "
a:
  x:
    index: one
b:
  x:
    index: two
---
a:
  x:
    index: three
",
    )
    .unwrap();
    let list = configurations(&docs).unwrap();
    assert_eq!(list.len(), 2);
    assert_eq!(list[0].0, "a");
    assert_eq!(list[0].1.index, Some("three".to_string()));
    assert_eq!(list[1].0, "b");
    assert_eq!(list[1].1.index, Some("two".to_string()));
}

#[test]
fn a_document_that_is_no_table_is_an_error() {
    let docs = parse_documents("a:\n  x:\n    index: one\n---\n- item\n").unwrap();
    assert!(!comes_upon_empty_section(&docs));
    let err = configurations(&docs).unwrap_err();
    assert!(matches!(err, ConfigError::NoYamlHash()));
    assert_eq!(
        err.message(),
        "MITRE: YAML error: the top level doc in the yaml wasn't a hash"
    );
}

#[test]
fn no_documents_give_no_configurations() {
    assert_eq!(configurations(&Vec::new()).unwrap(), Vec::new());
}

#[test]
fn an_empty_section_is_found_before_it_is_read() {
    let docs = parse_documents("a: {}\n").unwrap();
    assert!(comes_upon_empty_section(&docs));
    let behind = parse_documents("- item\n---\na: {}\n").unwrap();
    assert!(!comes_upon_empty_section(&behind));
    assert!(configurations(&behind).is_err());
}

#[test]
fn a_configuration_is_read_from_a_node() {
    let node = Node::Table(vec![
        (text("index"), text("logs")),
        (text("_runner"), text("elasticsearch")),
        (text("port"), text("9200")),
    ]);
    let c = configuration_from(&node);
    assert_eq!(c.index, Some("logs".to_string()));
    assert_eq!(c.port, Some(1234));
    assert_eq!(c.database_number, Some(1));
    assert_eq!(c.backend_kind(), Some(BackendKind::SearchIndex));
    assert_eq!(c.drift_policy(), DriftPolicy::Lenient);
}

#[test]
fn the_runner_names_the_kind_of_the_backend() {
    let mut c = configuration_from(&Node::Other);
    assert_eq!(c.backend_kind(), None);
    for (name, kind) in [
        ("mariadb", Some(BackendKind::Relational)),
        ("mysql", Some(BackendKind::Relational)),
        ("postgres", Some(BackendKind::Relational)),
        ("redis", Some(BackendKind::KeyValue)),
        ("elasticsearch", Some(BackendKind::SearchIndex)),
        ("oracle", None),
        ("Redis", None),
    ] {
        c._runner = Some(name.to_string());
        assert_eq!(c.backend_kind(), kind);
    }
    c.drift = Some("strict".to_string());
    assert_eq!(c.drift_policy(), DriftPolicy::Strict);
    c.drift = Some("lenient".to_string());
    assert_eq!(c.drift_policy(), DriftPolicy::Lenient);
}

#[test]
fn errors_are_made_from_their_causes() {
    let io = ConfigError::from(std::io::Error::new(std::io::ErrorKind::NotFound, "gone"));
    assert!(matches!(io, ConfigError::Io(_)));
    assert_eq!(io.message(), "MITRE: IO error: gone");
    let scan = yaml_rust::YamlLoader::load_from_str("a: [1, 2").unwrap_err();
    let words = scan.to_string();
    let yaml = ConfigError::from(scan);
    assert!(matches!(yaml, ConfigError::Yaml(_)));
    assert_eq!(yaml.message(), format!("MITRE: YAML error: {}", words));
}

#[test]
fn odd_texts_are_documents_or_errors() {
    let texts = [
        "",
        "\n",
        "---",
        "...",
        "{",
        "}",
        "[",
        "]",
        "&",
        "*x",
        "!!",
        "\t",
        "- - -",
        "? ",
        "? a\n: b",
        "a: b: c",
        "\"unterminated",
        "'unterminated",
        "%YAML 1.2\n---\na",
        "%TAG !e! tag:example.com,2000:app/\n---\n!e!foo bar",
        "a: &x\n  b: *x",
        "a: |\n  text\nb: >\n  folded",
        "\u{0}",
        "key: \"\\x41\\u00e9\\N\\_\\L\\P\"",
        "{a: [b, {c: d}], e: }",
        "- &a a\n- *a\n- *b",
        "a:\n\tb: c",
    ];
    for text in texts {
        match parse_documents(text) {
            Ok(docs) => {
                let _ = comes_upon_empty_section(&docs);
            }
            Err(err) => assert!(matches!(err, ConfigError::Yaml(_))),
        }
    }
    assert_eq!(parse_documents("").unwrap().len(), 0);
    assert_eq!(parse_documents("---").unwrap(), vec![Node::Other]);
}

#[test]
fn a_text_is_read_in_one_go() {
    let list = from_text("db:\n  main:\n    _runner: redis\n    database: zero\n").unwrap().unwrap();
    assert_eq!(list.len(), 1);
    assert_eq!(list[0].0, "db");
    assert_eq!(list[0].1._runner, Some("redis".to_string()));
    assert_eq!(list[0].1.database, Some("zero".to_string()));
    assert_eq!(list[0].1.backend_kind(), Some(BackendKind::KeyValue));
    assert!(from_text("db: {}\n").is_none());
    assert!(matches!(from_text("- a\n"), Some(Err(ConfigError::NoYamlHash()))));
    assert!(matches!(from_text("a: [1"), Some(Err(ConfigError::Yaml(_)))));
    assert_eq!(from_text("").unwrap().unwrap(), Vec::new());
}

#[test]
fn the_error_of_the_loader_is_handed_on_as_it_is() {
    let scan = yaml_rust::YamlLoader::load_from_str("a: [1, 2").unwrap_err();
    match documents_of(Err(scan.clone())) {
        Err(ConfigError::Yaml(cause)) => assert_eq!(cause, scan),
        other => panic!("{:?}", other),
    }
    match parse_documents("a: [1, 2") {
        Err(ConfigError::Yaml(cause)) => assert_eq!(cause, scan),
        other => panic!("{:?}", other),
    }
    match from_text("a: [1, 2") {
        Some(Err(ConfigError::Yaml(cause))) => assert_eq!(cause, scan),
        other => panic!("{:?}", other),
    }
    let loaded = yaml_rust::YamlLoader::load_from_str("a: b\n---\nc");
    assert_eq!(
        documents_of(loaded).unwrap(),
        vec![Node::Table(vec![(text("a"), text("b"))]), text("c")]
    );
    assert_eq!(documents_of(Ok(Vec::new())).unwrap(), Vec::new());
}

#[test]
fn a_message_is_the_prefix_and_the_words_of_the_cause() {
    let io = ConfigError::from(std::io::Error::new(std::io::ErrorKind::Other, "x"));
    assert_eq!(io.message_with("disk on fire"), "MITRE: IO error: disk on fire");
    assert_eq!(io.message_with(""), "MITRE: IO error: ");
    let scan = yaml_rust::YamlLoader::load_from_str("a: [1, 2").unwrap_err();
    let words = scan.to_string();
    let yaml = ConfigError::Yaml(scan);
    assert_eq!(yaml.message_with("bad"), "MITRE: YAML error: bad");
    assert_eq!(yaml.message(), yaml.message_with(words.as_str()));
    assert!(words.contains("line"));
    assert_eq!(
        ConfigError::NoYamlHash().message_with("ignored"),
        "MITRE: YAML error: the top level doc in the yaml wasn't a hash"
    );
}

#[test]
fn no_name_stands_for_two_configurations() {
    let list = from_text("a:\n  x:\n    index: one\nb:\n  x:\n    index: two\n---\nb:\n  y:\n    index: three\n---\na:\n  z: {}\n")
        .unwrap()
        .unwrap();
    let names: Vec<&str> = list.iter().map(|(name, _)| name.as_str()).collect();
    assert_eq!(names, vec!["a", "b"]);
    assert_eq!(list[1].1.index, Some("three".to_string()));
    assert_eq!(list[0].1.index, None);
}
