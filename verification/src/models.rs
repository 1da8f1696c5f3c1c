use vstd::prelude::*;

verus! {

/// A raw file handed to the engine by the embedding application: the file
/// name (without directory or extension) and the script text it contains.
pub struct SourceFile {
    pub name: String,
    pub content: String,
}

/// The three folders of a migration project, read from disk by the embedding
/// application and passed to the engine as plain values.
pub struct ProjectSource {
    pub schemas: Vec<SourceFile>,
    pub events: Vec<SourceFile>,
    pub migrations: Vec<SourceFile>,
}

/// A migration script whose file name parsed as `<date>_<time>_<label>`.
/// `name` keeps the full file name, which is the script's identity; `date`
/// and `time` are the two numeric groups that order it.
pub struct MigrationFile {
    pub date: u64,
    pub time: u64,
    pub name: String,
    pub content: String,
}

/// A schema or event definition: unordered, re-applied in full on every run.
pub struct DefinitionFile {
    pub name: String,
    pub content: String,
}

/// One row of the execution-record table: proof that the migration script
/// called `script_name` has run, stamped with the moment it was recorded.
pub struct ScriptMigration {
    pub script_name: String,
    pub executed_at: String,
}

} // verus!
