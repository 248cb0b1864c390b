use mitre::filename::{parse, Direction, FilenameError, MigrationId, Parsed};
use mitre::reserved::BackendKind;
use mitre::text::{parse_decimal, push_decimal, string_of};

fn parsed(version: u64, slug: &str, direction: Direction, extension: &str) -> Parsed {
    Parsed {
        id: MigrationId { version, slug: slug.to_string(), direction },
        extension: extension.to_string(),
    }
}

#[test]
fn parse_reads_every_part_of_a_name() {
    let p = parse("20200716120000_add_users.up.sql", BackendKind::Relational).unwrap();
    assert_eq!(p.id.version, 20200716120000);
    assert_eq!(p.id.slug, "add_users");
    assert_eq!(p.id.direction, Direction::Up);
    assert_eq!(p.extension, "sql");
}

#[test]
fn parse_reads_a_down_migration() {
    assert_eq!(
        parse("7_drop-index.down.es", BackendKind::SearchIndex),
        Ok(parsed(7, "drop-index", Direction::Down, "es"))
    );
}

#[test]
fn format_writes_the_canonical_name() {
    let p = parsed(42, "add_users", Direction::Up, "sql");
    assert_eq!(mitre::filename::format(&p), "42_add_users.up.sql");
    let q = parsed(0, "x", Direction::Down, "redis");
    assert_eq!(mitre::filename::format(&q), "0_x.down.redis");
}

#[test]
fn names_round_trip_through_parse_and_format() {
    let names = [
        "1_init.up.sql",
        "1_init.down.sql",
        "20200716120000_add_users_table.up.sql",
        "18446744073709551615_last.up.curl",
        "0_zero.down.es",
        "12_a-b_c9.up.redis",
    ];
    for kind in [BackendKind::Relational, BackendKind::KeyValue, BackendKind::SearchIndex] {
        for name in names {
            let p = parse(name, kind).unwrap();
            assert_eq!(mitre::filename::format(&p), name);
            assert_eq!(parse(mitre::filename::format(&p).as_str(), kind), Ok(p));
        }
    }
}

#[test]
fn leading_zeros_are_dropped_by_the_canonical_form() {
    let p = parse("0007_seven.up.sql", BackendKind::Relational).unwrap();
    assert_eq!(p.id.version, 7);
    let canonical = mitre::filename::format(&p);
    assert_eq!(canonical, "7_seven.up.sql");
    assert_eq!(parse(canonical.as_str(), BackendKind::Relational), Ok(p));
}

#[test]
fn parse_rejects_names_without_the_shape() {
    let bad = [
        "",
        "README.md",
        "1.up.sql",
        "_slug.up.sql",
        "x1_slug.up.sql",
        "1_.up.sql",
        "1_slug.sideways.sql",
        "1_slug.up",
        "1_slug.up.",
        "1_slug.up.sql.bak",
        "1_sl ug.up.sql",
        "1_slug.UP.sql",
        "18446744073709551616_too_big.up.sql",
        "1_slug..sql",
    ];
    for name in bad {
        assert_eq!(parse(name, BackendKind::Relational), Err(FilenameError::InvalidFilename));
    }
}

#[test]
fn parse_rejects_a_reserved_token() {
    assert_eq!(
        parse("1_select_users.up.sql", BackendKind::Relational),
        Err(FilenameError::ReservedWordInFilename)
    );
    assert_eq!(
        parse("1_users_SELECT.up.sql", BackendKind::Relational),
        Err(FilenameError::ReservedWordInFilename)
    );
    assert_eq!(
        parse("3_add_keys.up.redis", BackendKind::KeyValue),
        Err(FilenameError::ReservedWordInFilename)
    );
    assert_eq!(
        parse("3_new_mappings.up.es", BackendKind::SearchIndex),
        Err(FilenameError::ReservedWordInFilename)
    );
}

#[test]
fn a_word_reserved_elsewhere_is_accepted() {
    assert!(parse("1_select_users.up.redis", BackendKind::KeyValue).is_ok());
    assert!(parse("3_add_keys.up.sql", BackendKind::Relational).is_ok());
    assert!(parse("5_selection.up.sql", BackendKind::Relational).is_ok());
}

#[test]
fn the_shape_is_checked_before_reserved_words() {
    assert_eq!(
        parse("x_select.up.sql", BackendKind::Relational),
        Err(FilenameError::InvalidFilename)
    );
}

#[test]
fn decimal_numbers_are_read_and_written() {
    let digits: Vec<char> = "0123456789".chars().collect();
    assert_eq!(parse_decimal(&digits, 0, 10), Some(123456789));
    assert_eq!(parse_decimal(&digits, 3, 5), Some(34));
    assert_eq!(parse_decimal(&digits, 3, 3), None);
    let mixed: Vec<char> = "12a".chars().collect();
    assert_eq!(parse_decimal(&mixed, 0, 3), None);
    assert_eq!(parse_decimal(&mixed, 0, 2), Some(12));
    let mut out: Vec<char> = vec!['v'];
    push_decimal(&mut out, 9070);
    assert_eq!(string_of(&out), "v9070");
    let mut max: Vec<char> = Vec::new();
    push_decimal(&mut max, u64::MAX);
    assert_eq!(string_of(&max), "18446744073709551615");
}

#[test]
fn a_word_that_begins_with_an_underscore_is_found_in_a_slug() {
    for name in [
        "1__id.up.es",
        "1__ID.up.es",
        "2_add__source.up.es",
        "3_wipe__all_now.down.es",
        "4___index.up.es",
    ] {
        assert_eq!(
            parse(name, BackendKind::SearchIndex),
            Err(FilenameError::ReservedWordInFilename)
        );
        assert!(parse(name, BackendKind::Relational).is_ok());
    }
    for name in ["1_add_id.up.es", "2_source.up.es", "3_x_all.up.es", "4_a_index_b.up.es"] {
        assert!(parse(name, BackendKind::SearchIndex).is_ok());
    }
}
