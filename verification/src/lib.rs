//! A migration engine for SurrealDB projects.
//!
//! A project tree is divided into three kinds of files: schema definitions,
//! event definitions and migration scripts.  Schema and event definitions are
//! unordered and re-applied in full on every run; migration scripts carry a
//! timestamp prefix in their file name and are applied exactly once, in
//! timestamp order.
//!
//! The engine itself never touches a database or the file system.  An
//! embedding application reads the project tree and the table of execution
//! records, hands both to the engine as plain values, and performs the script
//! executions that the returned plan lists.  Everything the engine decides —
//! which file names are well formed, how migrations are ordered, whether the
//! applied history is a gap-free prefix of the declared sequence, and which
//! scripts an `up` run must execute — is stated in contracts and proved.

use vstd::prelude::*;

pub mod apply;
pub mod config;
pub mod errors;
pub mod laws;
pub mod models;
pub mod ordering;
pub mod scan;
pub mod validate;

pub use apply::ApplyArgs;
pub use apply::ApplyReport;
pub use config::SurrealdbConfiguration;
pub use errors::MigrationError;
pub use models::DefinitionFile;
pub use models::MigrationFile;
pub use models::ProjectSource;
pub use models::ScriptMigration;
pub use models::SourceFile;

use crate::apply::apply_plan;
use crate::apply::parsed_names;
use crate::apply::pending_migrations;
use crate::apply::plan_bound;
use crate::apply::sorted_declared;
use crate::apply::target_elem;
use crate::scan::all_names_valid;
use crate::scan::build_declared_sequence;
use crate::scan::parsed_migrations;
use crate::validate::all_applied_valid;
use crate::validate::gap_free;
use crate::validate::is_gap_free_prefix;
use crate::validate::is_missing;
use crate::validate::lemma_gap_free_iff;
use crate::validate::lemma_not_missing_permutation;
use crate::validate::missing_migrations;
use crate::ordering::sorted_migrations;
use crate::ordering::unique_keys;

verus! {

/// The main entry point for the library, used to apply migrations.
pub struct SurrealdbMigrations {
    pub db_configuration: SurrealdbConfiguration,
}

impl SurrealdbMigrations {
    /// Create a new instance of SurrealdbMigrations.
    pub fn new(db_configuration: SurrealdbConfiguration) -> (r: SurrealdbMigrations)
        ensures
            r.db_configuration == db_configuration,
    {
        SurrealdbMigrations { db_configuration }
    }

    /// Check that the applied history and the declared migration files are
    /// consistent: succeeds exactly when every file name parses, stamps are
    /// unique on both sides, and no declared migration sorting at or before
    /// the latest recorded one lacks an execution record.  Never plans or
    /// performs any write.
    pub fn validate_version_order(
        &self,
        project: &ProjectSource,
        applied: &Vec<ScriptMigration>,
    ) -> (r: Result<(), MigrationError>)
        ensures
            r is Ok <==> {
                &&& all_names_valid(project.migrations@)
                &&& unique_keys(parsed_migrations(project.migrations@))
                &&& all_applied_valid(applied@)
                &&& forall|k: int|
                    0 <= k < parsed_migrations(project.migrations@).len() ==> !is_missing(
                        #[trigger] parsed_migrations(project.migrations@)[k],
                        applied@,
                    )
            },
            applied@.len() == 0 && all_names_valid(project.migrations@) && unique_keys(
                parsed_migrations(project.migrations@),
            ) ==> r is Ok,
            r matches Err(e) ==> !(e is TargetNotFound),
            r matches Err(e) ==> (e matches MigrationError::MissingMigrations { names } ==> {
                &&& names@ == missing_migrations(
                    sorted_declared(project.migrations@),
                    applied@,
                ).map_values(|m: MigrationFile| m.name)
                &&& names@.len() > 0
            }),
    {
        let ghost files = project.migrations@;
        let ghost parsed = parsed_migrations(files);
        let declared = match build_declared_sequence(&project.migrations) {
            Ok(ds) => ds,
            Err(e) => {
                return Err(e);
            },
        };
        proof {
            crate::apply::lemma_sorted_declared_is(files, declared@);
        }
        let r = is_gap_free_prefix(applied, &declared);
        proof {
            lemma_gap_free_iff(declared@, applied@);
            if gap_free(declared@, applied@) {
                lemma_not_missing_permutation(declared@, parsed, applied@);
            }
            if forall|k: int|
                0 <= k < parsed.len() ==> !is_missing(#[trigger] parsed[k], applied@) {
                lemma_not_missing_permutation(parsed, declared@, applied@);
            }
        }
        r
    }

    /// Plan a full `up` run: re-apply every schema and event definition and
    /// execute every declared migration that has no execution record yet, in
    /// stamp order, recording each one.
    pub fn up(&self, project: &ProjectSource, applied: &Vec<ScriptMigration>) -> (r: Result<
        ApplyReport,
        MigrationError,
    >)
        ensures
            r is Ok <==> all_names_valid(project.migrations@) && unique_keys(
                parsed_migrations(project.migrations@),
            ),
            r matches Ok(rep) ==> {
                &&& rep.schemas@ == project.schemas@.map_values(
                    |f: SourceFile| crate::apply::definition_of(f),
                )
                &&& rep.events@ == project.events@.map_values(
                    |f: SourceFile| crate::apply::definition_of(f),
                )
                &&& rep.record
                &&& sorted_migrations(rep.to_apply@)
                &&& rep.to_apply@ == pending_migrations(
                    sorted_declared(project.migrations@),
                    applied@,
                    None,
                )
                &&& rep.skipped@ == crate::apply::already_applied_names(
                    sorted_declared(project.migrations@),
                    applied@,
                )
            },
            r matches Err(e) ==> !(e is MissingMigrations) && !(e is TargetNotFound),
    {
        let args = ApplyArgs { up: None, dry_run: false };
        apply_plan(&args, project, applied)
    }

    /// Plan an `up` run bounded by the named migration: like `up`, but no
    /// migration sorting after the target is executed, even where later
    /// migrations exist on disk.  Fails when the name is not declared.
    pub fn up_to(&self, name: &str, project: &ProjectSource, applied: &Vec<ScriptMigration>) -> (r:
        Result<ApplyReport, MigrationError>)
        ensures
            r is Ok <==> all_names_valid(project.migrations@) && unique_keys(
                parsed_migrations(project.migrations@),
            ) && parsed_names(project.migrations@).contains(name@),
            r matches Ok(rep) ==> {
                &&& rep.schemas@ == project.schemas@.map_values(
                    |f: SourceFile| crate::apply::definition_of(f),
                )
                &&& rep.events@ == project.events@.map_values(
                    |f: SourceFile| crate::apply::definition_of(f),
                )
                &&& rep.record
                &&& sorted_migrations(rep.to_apply@)
                &&& rep.to_apply@ == pending_migrations(
                    sorted_declared(project.migrations@),
                    applied@,
                    Some(target_elem(project.migrations@, name@)),
                )
                &&& rep.skipped@ == crate::apply::already_applied_names(
                    sorted_declared(project.migrations@),
                    applied@,
                )
            },
            r matches Err(e) ==> (e matches MigrationError::TargetNotFound { target } ==> target@
                == name@ && !parsed_names(project.migrations@).contains(name@)),
            r matches Err(e) ==> !(e is MissingMigrations),
    {
        let args = ApplyArgs { up: Some(String::from_str(name)), dry_run: false };
        let r = apply_plan(&args, project, applied);
        proof {
            assert(args.up matches Some(t) && t@ == name@);
        }
        r
    }

    /// List the execution records of the applied history, in the order the
    /// reader handed them over: by execution date ascending, which is the
    /// order the migrations actually ran in.
    pub fn list(&self, applied: Vec<ScriptMigration>) -> (r: Vec<ScriptMigration>)
        ensures
            r@ == applied@,
    {
        applied
    }
}

} // verus!
