use mitre::filename::Direction;
use mitre::migrations::{checksum, discover, DiscoveryError, Migration, SourceFile};
use mitre::reserved::BackendKind;

fn file(name: &str, content: &str) -> SourceFile {
    SourceFile { name: name.to_string(), content: content.as_bytes().to_vec() }
}

fn versions(list: &Vec<Migration>) -> Vec<u64> {
    list.iter().map(|m| m.parsed.id.version).collect()
}

#[test]
fn checksum_is_fnv1a() {
    assert_eq!(checksum(&Vec::new()), 0xcbf29ce484222325);
    assert_eq!(checksum(&b"a".to_vec()), 0xaf63dc4c8601ec8c);
    assert_eq!(checksum(&b"foobar".to_vec()), 0x85944171f73967e8);
}

#[test]
fn discovery_of_an_empty_directory_is_empty() {
    assert_eq!(discover(&Vec::new(), BackendKind::Relational), Ok(Vec::new()));
}

#[test]
fn discovery_sorts_by_version_and_counts_every_up() {
    let files = vec![
        file("3_three.up.sql", "c"),
        file("1_one.up.sql", "a"),
        file("20_twenty.up.sql", "e"),
        file("2_two.up.sql", "b"),
        file("10_ten.up.sql", "d"),
    ];
    let list = discover(&files, BackendKind::Relational).unwrap();
    assert_eq!(list.len(), 5);
    assert_eq!(versions(&list), vec![1, 2, 3, 10, 20]);
    for m in list.iter() {
        assert_eq!(m.parsed.id.direction, Direction::Up);
        assert_eq!(m.checksum, checksum(&m.content));
        assert_eq!(m.down, None);
    }
    assert_eq!(list[3].path, "10_ten.up.sql");
    assert_eq!(list[3].content, b"d".to_vec());
    assert_eq!(list[3].parsed.id.slug, "ten");
}

#[test]
fn discovery_is_idempotent() {
    let files = vec![
        file("2_two.up.sql", "b"),
        file("2_two.down.sql", "undo b"),
        file("1_one.up.sql", "a"),
        file("notes.txt", "hello"),
    ];
    let first = discover(&files, BackendKind::Relational);
    let second = discover(&files, BackendKind::Relational);
    assert_eq!(first, second);
    assert_eq!(versions(&first.unwrap()), vec![1, 2]);
}

#[test]
fn discovery_pairs_up_and_down() {
    let files = vec![
        file("2_two.down.sql", "undo b"),
        file("1_one.up.sql", "a"),
        file("2_two.up.sql", "b"),
    ];
    let list = discover(&files, BackendKind::Relational).unwrap();
    assert_eq!(list.len(), 2);
    assert_eq!(list[0].down, None);
    let down = list[1].down.clone().unwrap();
    assert_eq!(down.path, "2_two.down.sql");
    assert_eq!(down.content, b"undo b".to_vec());
    assert_eq!(down.checksum, checksum(&b"undo b".to_vec()));
}

#[test]
fn discovery_passes_over_unrelated_files() {
    let files = vec![
        file("README.md", "docs"),
        file("1_one.up.sql", "a"),
        file(".gitkeep", ""),
        file("1_one.up", "nothing"),
    ];
    let list = discover(&files, BackendKind::Relational).unwrap();
    assert_eq!(versions(&list), vec![1]);
}

#[test]
fn discovery_reports_a_duplicate_version() {
    let files = vec![file("1_one.up.sql", "a"), file("1_uno.up.sql", "b")];
    assert_eq!(discover(&files, BackendKind::Relational), Err(DiscoveryError::DuplicateVersion));
    let downs = vec![
        file("1_one.up.sql", "a"),
        file("1_one.down.sql", "b"),
        file("1_one.down.txt", "c"),
    ];
    assert_eq!(discover(&downs, BackendKind::Relational), Err(DiscoveryError::DuplicateVersion));
}

#[test]
fn discovery_reports_an_orphan_down() {
    let files = vec![file("1_one.up.sql", "a"), file("2_two.down.sql", "b")];
    assert_eq!(
        discover(&files, BackendKind::Relational),
        Err(DiscoveryError::OrphanDownMigration)
    );
    let other_slug = vec![file("1_one.up.sql", "a"), file("1_uno.down.sql", "b")];
    assert_eq!(
        discover(&other_slug, BackendKind::Relational),
        Err(DiscoveryError::OrphanDownMigration)
    );
}

#[test]
fn discovery_reports_an_empty_up() {
    let files = vec![file("1_one.up.sql", "")];
    assert_eq!(discover(&files, BackendKind::Relational), Err(DiscoveryError::EmptyMigration));
    let empty_down = vec![file("1_one.up.sql", "a"), file("1_one.down.sql", "")];
    assert!(discover(&empty_down, BackendKind::Relational).is_ok());
}

#[test]
fn discovery_reports_a_reserved_word() {
    let files = vec![file("1_one.up.sql", "a"), file("2_drop_all.up.sql", "b")];
    assert_eq!(
        discover(&files, BackendKind::Relational),
        Err(DiscoveryError::ReservedWordInFilename)
    );
    assert!(discover(&files, BackendKind::KeyValue).is_ok());
}

#[test]
fn discovery_reports_the_first_fault_of_its_order() {
    let files = vec![
        file("1_one.up.sql", ""),
        file("1_uno.up.sql", "b"),
        file("9_nine.down.sql", "c"),
        file("3_select.up.sql", "d"),
    ];
    assert_eq!(
        discover(&files, BackendKind::Relational),
        Err(DiscoveryError::ReservedWordInFilename)
    );
    assert_eq!(discover(&files[..3].to_vec(), BackendKind::Relational), Err(DiscoveryError::EmptyMigration));
    let dup_and_orphan = vec![
        file("1_one.up.sql", "a"),
        file("1_uno.up.sql", "b"),
        file("9_nine.down.sql", "c"),
    ];
    assert_eq!(
        discover(&dup_and_orphan, BackendKind::Relational),
        Err(DiscoveryError::DuplicateVersion)
    );
}

#[test]
fn a_copy_of_a_migration_is_equal_to_it() {
    let files = vec![file("2_two.up.sql", "b"), file("2_two.down.sql", "undo b")];
    let list = discover(&files, BackendKind::Relational).unwrap();
    assert_eq!(list[0].duplicate(), list[0]);
    assert_eq!(list[0].version(), 2);
}
