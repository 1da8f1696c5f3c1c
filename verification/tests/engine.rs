use surrealdb_migrations::{
    MigrationError, ProjectSource, ScriptMigration, SourceFile, SurrealdbConfiguration,
    SurrealdbMigrations,
};

fn source(name: &str, content: &str) -> SourceFile {
    SourceFile { name: name.to_string(), content: content.to_string() }
}

fn record(name: &str, executed_at: &str) -> ScriptMigration {
    ScriptMigration { script_name: name.to_string(), executed_at: executed_at.to_string() }
}

fn three_migrations() -> ProjectSource {
    ProjectSource {
        schemas: vec![source("user", "DEFINE TABLE user SCHEMALESS;")],
        events: vec![source("signup", "DEFINE EVENT signup ON TABLE user;")],
        migrations: vec![
            source("20230103_090000_AddComment", "CREATE comment:1;"),
            source("20230101_120001_AddAdminUser", "CREATE user:admin;"),
            source("20230101_120002_AddPost", "CREATE post:1;"),
        ],
    }
}

#[test]
fn default_configuration_has_no_values() {
    let configuration = SurrealdbConfiguration::default();
    assert!(configuration.url.is_none());
    assert!(configuration.ns.is_none());
    assert!(configuration.db.is_none());
    assert!(configuration.username.is_none());
    assert!(configuration.password.is_none());
}

#[test]
fn up_orders_migrations_by_timestamp() {
    let runner = SurrealdbMigrations::new(SurrealdbConfiguration::default());
    let report = runner.up(&three_migrations(), &vec![]).expect("up should plan");
    let names: Vec<&str> = report.to_apply.iter().map(|m| m.name.as_str()).collect();
    assert_eq!(
        names,
        vec![
            "20230101_120001_AddAdminUser",
            "20230101_120002_AddPost",
            "20230103_090000_AddComment",
        ]
    );
    assert!(report.record);
    assert_eq!(report.schemas.len(), 1);
    assert_eq!(report.schemas[0].name, "user");
    assert_eq!(report.events.len(), 1);
    assert_eq!(report.events[0].name, "signup");
}

#[test]
fn up_skips_already_recorded_migrations() {
    let runner = SurrealdbMigrations::new(SurrealdbConfiguration::default());
    let applied = vec![record("20230101_120001_AddAdminUser", "2023-02-01T10:00:00Z")];
    let report = runner.up(&three_migrations(), &applied).expect("up should plan");
    let names: Vec<&str> = report.to_apply.iter().map(|m| m.name.as_str()).collect();
    assert_eq!(names, vec!["20230101_120002_AddPost", "20230103_090000_AddComment"]);
    assert_eq!(report.skipped, vec!["20230101_120001_AddAdminUser".to_string()]);
}

#[test]
fn up_to_stops_at_the_target() {
    let runner = SurrealdbMigrations::new(SurrealdbConfiguration::default());
    let report = runner
        .up_to("20230101_120002_AddPost", &three_migrations(), &vec![])
        .expect("up_to should plan");
    let names: Vec<&str> = report.to_apply.iter().map(|m| m.name.as_str()).collect();
    assert_eq!(names, vec!["20230101_120001_AddAdminUser", "20230101_120002_AddPost"]);
}

#[test]
fn up_to_unknown_target_fails_with_target_not_found() {
    let runner = SurrealdbMigrations::new(SurrealdbConfiguration::default());
    let result = runner.up_to("20990101_000000_Nothing", &three_migrations(), &vec![]);
    match result {
        Err(MigrationError::TargetNotFound { target }) => {
            assert_eq!(target, "20990101_000000_Nothing");
        },
        _ => panic!("expected a target-not-found error"),
    }
}

#[test]
fn malformed_migration_filename_fails_the_scan() {
    let runner = SurrealdbMigrations::new(SurrealdbConfiguration::default());
    let mut project = three_migrations();
    project.migrations.push(source("NotATimestamp", "CREATE broken:1;"));
    let result = runner.up(&project, &vec![]);
    match result {
        Err(MigrationError::MalformedFilename { filename }) => {
            assert_eq!(filename, "NotATimestamp");
        },
        _ => panic!("expected a malformed-filename error"),
    }
}

#[test]
fn duplicate_timestamp_fails_the_scan() {
    let runner = SurrealdbMigrations::new(SurrealdbConfiguration::default());
    let mut project = three_migrations();
    project.migrations.push(source("20230101_120002_AddPostAgain", "CREATE post:2;"));
    let result = runner.up(&project, &vec![]);
    match result {
        Err(MigrationError::DuplicateTimestamp { first, second }) => {
            assert!(first.starts_with("20230101_120002_"));
            assert!(second.starts_with("20230101_120002_"));
            assert_ne!(first, second);
        },
        _ => panic!("expected a duplicate-timestamp error"),
    }
}

#[test]
fn second_up_run_has_nothing_pending() {
    let runner = SurrealdbMigrations::new(SurrealdbConfiguration::default());
    let project = three_migrations();
    let mut records: Vec<ScriptMigration> = vec![];

    let first_run = runner.up(&project, &records).expect("up should plan");
    assert_eq!(first_run.to_apply.len(), 3);
    for m in first_run.to_apply.iter() {
        let n = records.len();
        records.push(record(&m.name, &format!("2023-02-01T10:00:{:02}Z", n)));
    }

    let second_run = runner.up(&project, &records).expect("up should plan");
    assert_eq!(second_run.to_apply.len(), 0);
    assert_eq!(second_run.skipped.len(), 3);
    // Definitions are still re-executed on every run.
    assert_eq!(second_run.schemas.len(), 1);
    assert_eq!(second_run.events.len(), 1);
}

#[test]
fn dry_run_suppresses_records_only() {
    let args = surrealdb_migrations::ApplyArgs { up: None, dry_run: true };
    let report = surrealdb_migrations::apply::apply_plan(&args, &three_migrations(), &vec![])
        .expect("plan should succeed");
    assert_eq!(report.to_apply.len(), 3);
    assert!(!report.record);
}

#[test]
fn list_returns_records_in_execution_order() {
    let runner = SurrealdbMigrations::new(SurrealdbConfiguration::default());
    // Execution order differs from timestamp order: the later-stamped script
    // was applied first.
    let applied = vec![
        record("20230101_120002_AddPost", "2023-02-01T10:00:00Z"),
        record("20230101_120001_AddAdminUser", "2023-02-01T10:00:01Z"),
    ];
    let listed = runner.list(applied);
    assert_eq!(listed.len(), 2);
    assert_eq!(listed[0].script_name, "20230101_120002_AddPost");
    assert_eq!(listed[0].executed_at, "2023-02-01T10:00:00Z");
    assert_eq!(listed[1].script_name, "20230101_120001_AddAdminUser");
    assert_eq!(listed[1].executed_at, "2023-02-01T10:00:01Z");
}

#[test]
fn validate_reports_malformed_applied_name() {
    let runner = SurrealdbMigrations::new(SurrealdbConfiguration::default());
    let applied = vec![record("garbage", "2023-02-01T10:00:00Z")];
    let result = runner.validate_version_order(&three_migrations(), &applied);
    match result {
        Err(MigrationError::MalformedFilename { filename }) => {
            assert_eq!(filename, "garbage");
        },
        _ => panic!("expected a malformed-filename error"),
    }
}

#[test]
fn error_messages_render_each_variant() {
    let missing = MigrationError::MissingMigrations {
        names: vec!["20230101_120001_AddAdminUser".to_string(), "20230101_120002_AddPost".to_string()],
    };
    assert_eq!(
        missing.message(),
        "The following migrations have not been applied: 20230101_120001_AddAdminUser, 20230101_120002_AddPost"
    );

    let malformed = MigrationError::MalformedFilename { filename: "x".to_string() };
    assert_eq!(malformed.message(), "cannot parse the migration file name: x");

    let duplicate = MigrationError::DuplicateTimestamp {
        first: "20230101_120001_A".to_string(),
        second: "20230101_120001_B".to_string(),
    };
    assert_eq!(
        duplicate.message(),
        "duplicate migration timestamp: 20230101_120001_A, 20230101_120001_B"
    );

    let not_found = MigrationError::TargetNotFound { target: "20230101_120009_X".to_string() };
    assert_eq!(not_found.message(), "target migration does not exist: 20230101_120009_X");
}
