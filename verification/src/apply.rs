use vstd::prelude::*;

use crate::errors::MigrationError;
use crate::models::DefinitionFile;
use crate::models::MigrationFile;
use crate::models::ProjectSource;
use crate::models::ScriptMigration;
use crate::models::SourceFile;
use crate::ordering::key_le;
use crate::ordering::lemma_sorted_permutation_equal;
use crate::ordering::same_key;
use crate::ordering::sorted_migrations;
use crate::ordering::unique_keys;
use crate::scan::all_names_valid;
use crate::scan::build_declared_sequence;
use crate::scan::parsed_migrations;
use crate::scan::wf_migration;
use crate::validate::applied_names;
use crate::validate::contains_name;

verus! {

/// What an `up` run was asked to do: apply everything, or stop after the
/// named migration.  A dry run still executes every planned script, but no
/// execution record is written, so the next run plans the same work again.
pub struct ApplyArgs {
    pub up: Option<String>,
    pub dry_run: bool,
}

/// The work an `up` run must perform, in order: re-apply every schema
/// definition, then every event definition, then execute the listed
/// migrations, recording each one unless the run is dry.  The engine decides
/// the plan; the embedding application executes it against the database.
pub struct ApplyReport {
    pub schemas: Vec<DefinitionFile>,
    pub events: Vec<DefinitionFile>,
    pub to_apply: Vec<MigrationFile>,
    pub skipped: Vec<String>,
    pub record: bool,
}

/// The definition a raw schema or event file denotes.
pub open spec fn definition_of(f: SourceFile) -> DefinitionFile {
    DefinitionFile { name: f.name, content: f.content }
}

/// The names of the declared migrations, in discovery order.
pub open spec fn parsed_names(files: Seq<SourceFile>) -> Seq<Seq<char>> {
    parsed_migrations(files).map_values(|m: MigrationFile| m.name@)
}

/// The declared sequence in its one sorted arrangement.  With unique stamps
/// a sorted arrangement of the declared files is unique, so this picks the
/// sequence the scanner returns.
pub open spec fn sorted_declared(files: Seq<SourceFile>) -> Seq<MigrationFile> {
    choose|ds: Seq<MigrationFile>|
        sorted_migrations(ds) && #[trigger] ds.to_multiset() == parsed_migrations(
            files,
        ).to_multiset()
}

/// The declared migration that carries the name `n`.
pub open spec fn target_elem(files: Seq<SourceFile>, n: Seq<char>) -> MigrationFile {
    choose|m: MigrationFile| parsed_migrations(files).contains(m) && #[trigger] m.name@ == n
}

/// The bound an `up to` argument places on the plan.
pub open spec fn plan_bound(files: Seq<SourceFile>, up: Option<String>) -> Option<MigrationFile> {
    match up {
        Some(t) => Some(target_elem(files, t@)),
        None => None,
    }
}

/// The declared migration `d` still has to run: it has no execution record
/// and does not sort after the bound, if one is set.
pub open spec fn pending_pred(
    d: MigrationFile,
    applied: Seq<ScriptMigration>,
    bound: Option<MigrationFile>,
) -> bool {
    &&& !applied_names(applied).contains(d.name@)
    &&& match bound {
        Some(b) => key_le(d, b),
        None => true,
    }
}

/// The migrations an `up` run must execute: every declared migration without
/// an execution record, up to the bound, in declared order.
pub open spec fn pending_migrations(
    declared: Seq<MigrationFile>,
    applied: Seq<ScriptMigration>,
    bound: Option<MigrationFile>,
) -> Seq<MigrationFile> {
    declared.filter(|d: MigrationFile| pending_pred(d, applied, bound))
}

/// The names of the declared migrations that already have an execution
/// record, in declared order.
pub open spec fn already_applied_names(
    declared: Seq<MigrationFile>,
    applied: Seq<ScriptMigration>,
) -> Seq<String> {
    declared.filter(|d: MigrationFile| applied_names(applied).contains(d.name@)).map_values(
        |m: MigrationFile| m.name,
    )
}

/// An exact copy of one migration file.
fn clone_migration(m: &MigrationFile) -> (r: MigrationFile)
    ensures
        r == *m,
{
    MigrationFile {
        date: m.date,
        time: m.time,
        name: m.name.clone(),
        content: m.content.clone(),
    }
}

/// Copy raw definition files into the report, keeping their order.
fn copy_definitions(files: &Vec<SourceFile>) -> (r: Vec<DefinitionFile>)
    ensures
        r@ == files@.map_values(|f: SourceFile| definition_of(f)),
{
    let mut r: Vec<DefinitionFile> = Vec::new();
    let mut i: usize = 0;
    proof {
        assert(r@ =~= files@.subrange(0, 0).map_values(|f: SourceFile| definition_of(f)));
    }
    while i < files.len()
        invariant
            i <= files@.len(),
            r@ == files@.subrange(0, i as int).map_values(|f: SourceFile| definition_of(f)),
        decreases files@.len() - i,
    {
        r.push(DefinitionFile { name: files[i].name.clone(), content: files[i].content.clone() });
        proof {
            assert(files@.subrange(0, i + 1).map_values(|f: SourceFile| definition_of(f))
                =~= files@.subrange(0, i as int).map_values(|f: SourceFile| definition_of(f)).push(
                definition_of(files@[i as int]),
            ));
        }
        i = i + 1;
    }
    proof {
        assert(files@.subrange(0, files@.len() as int) =~= files@);
    }
    r
}

/// The position of the first declared migration named `t`, or the length of
/// `declared` where none carries that name.
fn find_name(declared: &Vec<MigrationFile>, t: &String) -> (w: usize)
    ensures
        w <= declared@.len(),
        w < declared@.len() ==> declared@[w as int].name@ == t@,
        forall|k: int| 0 <= k < w ==> #[trigger] declared@[k].name@ != t@,
{
    let mut w: usize = 0;
    while w < declared.len()
        invariant
            w <= declared@.len(),
            forall|k: int| 0 <= k < w ==> #[trigger] declared@[k].name@ != t@,
        decreases declared@.len() - w,
    {
        if declared[w].name == *t {
            return w;
        }
        w = w + 1;
    }
    w
}

/// The scanner's output is the one sorted arrangement of the declared
/// files: with unique stamps, sortedness pins the order completely.
pub proof fn lemma_sorted_declared_is(files: Seq<SourceFile>, ds: Seq<MigrationFile>)
    requires
        sorted_migrations(ds),
        unique_keys(ds),
        ds.to_multiset() == parsed_migrations(files).to_multiset(),
    ensures
        sorted_declared(files) == ds,
{
    let chosen = sorted_declared(files);
    assert(sorted_migrations(chosen) && chosen.to_multiset() == parsed_migrations(
        files,
    ).to_multiset()) by {
        assert(sorted_migrations(ds) && ds.to_multiset() == parsed_migrations(
            files,
        ).to_multiset());
    }
    lemma_sorted_permutation_equal(ds, chosen);
}

/// An element of one arrangement of the declared files occurs in any other.
pub proof fn lemma_elem_transfer(x: Seq<MigrationFile>, y: Seq<MigrationFile>, k: int)
    requires
        x.to_multiset() == y.to_multiset(),
        0 <= k < y.len(),
    ensures
        exists|w: int| 0 <= w < x.len() && #[trigger] x[w] == y[k],
{
    broadcast use vstd::seq_lib::group_to_multiset_ensures;
    broadcast use vstd::multiset::group_multiset_axioms;

    x.to_multiset_ensures();
    y.to_multiset_ensures();
    assert(y.contains(y[k]));
    assert(x.to_multiset().count(y[k]) > 0);
    assert(x.contains(y[k]));
}

/// Decide the full work of one `up` run, without touching anything: scan and
/// order the declared migrations, resolve the `up to` target, and list the
/// definitions to re-apply and the migrations still to execute.
pub fn apply_plan(args: &ApplyArgs, project: &ProjectSource, applied: &Vec<ScriptMigration>) -> (r:
    Result<ApplyReport, MigrationError>)
    ensures
        r is Ok <==> all_names_valid(project.migrations@) && unique_keys(
            parsed_migrations(project.migrations@),
        ) && (args.up matches Some(t) ==> parsed_names(project.migrations@).contains(t@)),
        r matches Ok(rep) ==> {
            &&& rep.schemas@ == project.schemas@.map_values(|f: SourceFile| definition_of(f))
            &&& rep.events@ == project.events@.map_values(|f: SourceFile| definition_of(f))
            &&& rep.record == !args.dry_run
            &&& sorted_migrations(rep.to_apply@)
            &&& rep.to_apply@ == pending_migrations(
                sorted_declared(project.migrations@),
                applied@,
                plan_bound(project.migrations@, args.up),
            )
            &&& rep.skipped@ == already_applied_names(sorted_declared(project.migrations@), applied@)
            &&& sorted_migrations(sorted_declared(project.migrations@))
            &&& sorted_declared(project.migrations@).to_multiset() == parsed_migrations(
                project.migrations@,
            ).to_multiset()
            &&& forall|k: int|
                0 <= k < sorted_declared(project.migrations@).len() ==> wf_migration(
                    #[trigger] sorted_declared(project.migrations@)[k],
                )
        },
        r matches Err(e) ==> (e matches MigrationError::TargetNotFound { target } ==> {
            &&& args.up matches Some(t) && target == t
            &&& !parsed_names(project.migrations@).contains(target@)
        }),
        r matches Err(e) ==> (e matches MigrationError::MalformedFilename { filename }
            ==> !all_names_valid(project.migrations@)),
        r matches Err(e) ==> (e matches MigrationError::DuplicateTimestamp { first, second }
            ==> !unique_keys(parsed_migrations(project.migrations@))),
        r matches Err(e) ==> !(e is MissingMigrations),
{
    let ghost files = project.migrations@;
    let ghost parsed = parsed_migrations(files);
    let declared = match build_declared_sequence(&project.migrations) {
        Ok(ds) => ds,
        Err(e) => {
            proof {
                if e is DuplicateTimestamp && unique_keys(parsed) {
                    let first = e->DuplicateTimestamp_first;
                    let second = e->DuplicateTimestamp_second;
                    let (i1, j1) = choose|i1: int, j1: int|
                        #![trigger parsed[i1], parsed[j1]]
                        {
                            &&& 0 <= i1 < parsed.len()
                            &&& 0 <= j1 < parsed.len()
                            &&& i1 != j1
                            &&& same_key(parsed[i1], parsed[j1])
                            &&& parsed[i1].name == first
                            &&& parsed[j1].name == second
                        };
                    if i1 < j1 {
                        assert(same_key(parsed[i1], parsed[j1]));
                    } else {
                        assert(same_key(parsed[j1], parsed[i1]));
                    }
                    assert(false);
                }
            }
            return Err(e);
        },
    };
    proof {
        lemma_sorted_declared_is(files, declared@);
    }
    let ghost bound = plan_bound(files, args.up);
    let mut bound_idx: usize = 0;
    let mut have_bound = false;
    match &args.up {
        None => {},
        Some(t) => {
            let w = find_name(&declared, t);
            if w == declared.len() {
                proof {
                    assert forall|k: int| 0 <= k < parsed_names(files).len() implies #[trigger] parsed_names(
                        files,
                    )[k] != t@ by {
                        lemma_elem_transfer(declared@, parsed, k);
                        let v = choose|v: int| 0 <= v < declared@.len() && #[trigger] declared@[v]
                            == parsed[k];
                        assert(declared@[v].name@ != t@);
                    }
                }
                return Err(MigrationError::TargetNotFound { target: t.clone() });
            }
            bound_idx = w;
            have_bound = true;
            proof {
                lemma_elem_transfer(parsed, declared@, w as int);
                assert(parsed_names(files).contains(t@)) by {
                    let v = choose|v: int| 0 <= v < parsed.len() && #[trigger] parsed[v]
                        == declared@[w as int];
                    assert(parsed_names(files)[v] == t@);
                }
                assert(target_elem(files, t@) == declared@[bound_idx as int]) by {
                    let m = target_elem(files, t@);
                    assert(parsed.contains(declared@[w as int]) && declared@[w as int].name@
                        == t@);
                    assert(parsed.contains(m) && m.name@ == t@);
                    let vm = choose|v: int| 0 <= v < parsed.len() && #[trigger] parsed[v] == m;
                    let vw = choose|v: int| 0 <= v < parsed.len() && #[trigger] parsed[v]
                        == declared@[w as int];
                    assert(wf_migration(parsed[vm]) && wf_migration(parsed[vw])) by {
                        assert(forall|k: int|
                            0 <= k < declared@.len() ==> wf_migration(#[trigger] declared@[k]));
                        lemma_elem_transfer(declared@, parsed, vm);
                        lemma_elem_transfer(declared@, parsed, vw);
                        let am = choose|v: int|
                            0 <= v < declared@.len() && #[trigger] declared@[v] == parsed[vm];
                        let aw = choose|v: int|
                            0 <= v < declared@.len() && #[trigger] declared@[v] == parsed[vw];
                        assert(wf_migration(declared@[am]) && wf_migration(declared@[aw]));
                    }
                    assert(same_key(m, declared@[w as int]));
                    if vm != vw {
                        if vm < vw {
                            assert(!same_key(parsed[vm], parsed[vw]));
                        } else {
                            assert(!same_key(parsed[vw], parsed[vm]));
                        }
                        assert(false);
                    }
                }
            }
        },
    }
    let ghost pred = |d: MigrationFile| pending_pred(d, applied@, bound);
    let ghost apred = |d: MigrationFile| applied_names(applied@).contains(d.name@);
    let mut to_apply: Vec<MigrationFile> = Vec::new();
    let mut skipped: Vec<String> = Vec::new();
    proof {
        crate::validate::lemma_filter_all_false(declared@.subrange(0, 0), pred);
        crate::validate::lemma_filter_all_false(declared@.subrange(0, 0), apred);
        assert(to_apply@ =~= declared@.subrange(0, 0).filter(pred));
        assert(skipped@ =~= declared@.subrange(0, 0).filter(apred).map_values(
            |m: MigrationFile| m.name,
        ));
    }
    let mut j: usize = 0;
    while j < declared.len()
        invariant
            j <= declared@.len(),
            sorted_migrations(declared@),
            pred == (|d: MigrationFile| pending_pred(d, applied@, bound)),
            apred == (|d: MigrationFile| applied_names(applied@).contains(d.name@)),
            have_bound ==> bound_idx < declared@.len() && bound == Some(declared@[bound_idx as int]),
            !have_bound ==> bound is None,
            to_apply@ == declared@.subrange(0, j as int).filter(pred),
            skipped@ == declared@.subrange(0, j as int).filter(apred).map_values(
                |m: MigrationFile| m.name,
            ),
            sorted_migrations(to_apply@),
            forall|k: int|
                #![trigger to_apply@[k]]
                0 <= k < to_apply@.len() ==> exists|h: int|
                    #![trigger declared@[h]]
                    0 <= h < j && to_apply@[k] == declared@[h],
        decreases declared@.len() - j,
    {
        let ghost d = declared@[j as int];
        let recorded = contains_name(applied, &declared[j].name);
        let within = if have_bound {
            declared[j].date < declared[bound_idx].date || (declared[j].date
                == declared[bound_idx].date && declared[j].time <= declared[bound_idx].time)
        } else {
            true
        };
        let mut added = false;
        if recorded {
            skipped.push(declared[j].name.clone());
        } else if within {
            to_apply.push(clone_migration(&declared[j]));
            added = true;
        }
        proof {
            assert(added == pred(d));
            assert(recorded == apred(d));
            let before = declared@.subrange(0, j as int);
            let after = declared@.subrange(0, j + 1);
            assert(after =~= before + seq![d]);
            Seq::<MigrationFile>::filter_distributes_over_add(before, seq![d], pred);
            Seq::<MigrationFile>::filter_distributes_over_add(before, seq![d], apred);
            reveal_with_fuel(Seq::filter, 2);
            assert(seq![d].drop_last() =~= Seq::<MigrationFile>::empty());
            if pred(d) {
                assert(seq![d].filter(pred) =~= seq![d]);
                assert(after.filter(pred) =~= before.filter(pred).push(d));
            } else {
                assert(seq![d].filter(pred) =~= Seq::<MigrationFile>::empty());
                assert(after.filter(pred) =~= before.filter(pred));
            }
            if apred(d) {
                assert(seq![d].filter(apred) =~= seq![d]);
                assert(after.filter(apred) =~= before.filter(apred).push(d));
                assert(after.filter(apred).map_values(|m: MigrationFile| m.name) =~= before.filter(
                    apred,
                ).map_values(|m: MigrationFile| m.name).push(d.name));
            } else {
                assert(seq![d].filter(apred) =~= Seq::<MigrationFile>::empty());
                assert(after.filter(apred) =~= before.filter(apred));
            }
            if added {
                let old_ta = before.filter(pred);
                let na = after.filter(pred);
                assert(na == old_ta.push(d));
                assert(sorted_migrations(na)) by {
                    assert forall|a: int, b: int| 0 <= a < b < na.len() implies key_le(
                        #[trigger] na[a],
                        #[trigger] na[b],
                    ) by {
                        if b < na.len() - 1 {
                            assert(key_le(old_ta[a], old_ta[b]));
                        } else {
                            assert(na[b] == d);
                            if a < na.len() - 1 {
                                assert(na[a] == old_ta[a]);
                                let h = choose|h: int|
                                    #![trigger declared@[h]]
                                    0 <= h < j && old_ta[a] == declared@[h];
                                assert(key_le(declared@[h], declared@[j as int]));
                            }
                        }
                    }
                }
            }
        }
        j = j + 1;
    }
    proof {
        assert(declared@.subrange(0, declared@.len() as int) =~= declared@);
    }
    let schemas = copy_definitions(&project.schemas);
    let events = copy_definitions(&project.events);
    Ok(
        ApplyReport {
            schemas,
            events,
            to_apply,
            skipped,
            record: !args.dry_run,
        },
    )
}

} // verus!
