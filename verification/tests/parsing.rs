use surrealdb_migrations::scan::parse_migration_filename;

#[test]
fn parses_a_well_formed_migration_name() {
    assert_eq!(
        parse_migration_filename("20230101_120002_AddPost"),
        Some((20230101, 120002))
    );
}

#[test]
fn parses_short_digit_groups() {
    assert_eq!(parse_migration_filename("1_2_x"), Some((1, 2)));
}

#[test]
fn rejects_names_without_enough_groups() {
    assert_eq!(parse_migration_filename(""), None);
    assert_eq!(parse_migration_filename("AddPost"), None);
    assert_eq!(parse_migration_filename("20230101"), None);
    assert_eq!(parse_migration_filename("20230101_120002"), None);
    assert_eq!(parse_migration_filename("20230101_120002_"), None);
}

#[test]
fn rejects_empty_digit_groups() {
    assert_eq!(parse_migration_filename("_120002_AddPost"), None);
    assert_eq!(parse_migration_filename("20230101__AddPost"), None);
}

#[test]
fn rejects_non_digit_characters_in_the_stamp() {
    assert_eq!(parse_migration_filename("2023x101_120002_AddPost"), None);
    assert_eq!(parse_migration_filename("20230101_12o002_AddPost"), None);
}

#[test]
fn rejects_digit_groups_too_large_for_a_stamp() {
    // One more digit than u64::MAX = 18446744073709551615 can carry.
    assert_eq!(parse_migration_filename("99999999999999999999_1_x"), None);
    assert_eq!(parse_migration_filename("1_99999999999999999999_x"), None);
    // The largest representable stamp still parses.
    assert_eq!(
        parse_migration_filename("18446744073709551615_1_x"),
        Some((18446744073709551615, 1))
    );
}

#[test]
fn keeps_underscores_in_the_label() {
    assert_eq!(
        parse_migration_filename("20230101_120002_Add_Admin_User"),
        Some((20230101, 120002))
    );
}
