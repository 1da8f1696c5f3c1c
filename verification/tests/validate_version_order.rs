use surrealdb_migrations::{
    ProjectSource, ScriptMigration, SourceFile, SurrealdbConfiguration, SurrealdbMigrations,
};

fn source(name: &str, content: &str) -> SourceFile {
    SourceFile { name: name.to_string(), content: content.to_string() }
}

fn blog_project() -> ProjectSource {
    ProjectSource {
        schemas: vec![source("post", "DEFINE TABLE post SCHEMALESS;")],
        events: vec![source("publish_post", "DEFINE EVENT publish_post ON TABLE post;")],
        migrations: vec![
            source("20230101_120002_AddPost", "CREATE post:1;"),
            source("20230101_120001_AddAdminUser", "CREATE user:admin;"),
        ],
    }
}

fn record_all(report: &surrealdb_migrations::ApplyReport, records: &mut Vec<ScriptMigration>) {
    for m in report.to_apply.iter() {
        let n = records.len();
        records.push(ScriptMigration {
            script_name: m.name.clone(),
            executed_at: format!("2023-02-01T10:00:{:02}Z", n),
        });
    }
}

#[test]
fn ok_if_no_migration_file() {
    let runner = SurrealdbMigrations::new(SurrealdbConfiguration::default());
    let project = ProjectSource {
        schemas: vec![source("post", "DEFINE TABLE post SCHEMALESS;")],
        events: vec![],
        migrations: vec![],
    };
    let applied: Vec<ScriptMigration> = vec![];
    assert!(runner.validate_version_order(&project, &applied).is_ok());
}

#[test]
fn ok_if_migrations_applied_but_no_new_migration() {
    let runner = SurrealdbMigrations::new(SurrealdbConfiguration::default());
    let project = blog_project();
    let mut records: Vec<ScriptMigration> = vec![];

    let report = runner.up(&project, &records).expect("up should plan");
    record_all(&report, &mut records);

    assert!(runner.validate_version_order(&project, &records).is_ok());
}

#[test]
fn ok_if_migrations_applied_with_new_migration_after_last_applied() {
    let runner = SurrealdbMigrations::new(SurrealdbConfiguration::default());
    let project = blog_project();
    let mut records: Vec<ScriptMigration> = vec![];

    let first_migration_name = "20230101_120001_AddAdminUser";
    let report = runner.up_to(first_migration_name, &project, &records).expect("up_to should plan");
    record_all(&report, &mut records);

    assert!(runner.validate_version_order(&project, &records).is_ok());
}

#[test]
fn fails_if_migrations_applied_with_new_migration_before_last_applied() {
    let runner = SurrealdbMigrations::new(SurrealdbConfiguration::default());

    // The AddAdminUser file is removed before the first run: only AddPost is
    // applied and recorded.
    let mut project = blog_project();
    project.migrations.retain(|m| !m.name.contains("AddAdminUser"));
    let mut records: Vec<ScriptMigration> = vec![];
    let report = runner.up(&project, &records).expect("up should plan");
    record_all(&report, &mut records);

    // Both files are back on disk: AddAdminUser now sorts before the latest
    // applied migration but has no execution record.
    let project = blog_project();
    let result = runner.validate_version_order(&project, &records);
    assert!(result.is_err());

    let message = result.unwrap_err().message();
    assert_eq!(
        message,
        "The following migrations have not been applied: 20230101_120001_AddAdminUser"
    );
}
