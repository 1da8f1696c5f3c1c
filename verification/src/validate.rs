use vstd::prelude::*;

use crate::errors::MigrationError;
use crate::models::MigrationFile;
use crate::models::ScriptMigration;
use crate::scan::date_of;
use crate::scan::parse_migration_filename;
use crate::scan::time_of;
use crate::scan::valid_migration_name;

verus! {

/// The identities recorded in the applied history, in its order.
pub open spec fn applied_names(applied: Seq<ScriptMigration>) -> Seq<Seq<char>> {
    applied.map_values(|r: ScriptMigration| r.script_name@)
}

/// Every recorded identity is a well-formed migration name.
pub open spec fn all_applied_valid(applied: Seq<ScriptMigration>) -> bool {
    forall|i: int|
        0 <= i < applied.len() ==> valid_migration_name(#[trigger] applied[i].script_name@)
}

/// The stamp `(d1, t1)` sorts at or before `(d2, t2)`.
pub open spec fn stamp_le(d1: int, t1: int, d2: int, t2: int) -> bool {
    d1 < d2 || (d1 == d2 && t1 <= t2)
}

/// The date group of a recorded identity.
pub open spec fn applied_date(a: ScriptMigration) -> int {
    date_of(a.script_name@)
}

/// The time group of a recorded identity.
pub open spec fn applied_time(a: ScriptMigration) -> int {
    time_of(a.script_name@)
}

/// The declared migration `d` is a gap in the history: it has no execution
/// record, yet some recorded migration sorts at or after it.
pub open spec fn is_missing(d: MigrationFile, applied: Seq<ScriptMigration>) -> bool {
    &&& !applied_names(applied).contains(d.name@)
    &&& exists|i: int|
        0 <= i < applied.len() && stamp_le(
            d.date as int,
            d.time as int,
            applied_date(#[trigger] applied[i]),
            applied_time(applied[i]),
        )
}

/// The declared migrations that the history skipped, in declared order.
pub open spec fn missing_migrations(
    declared: Seq<MigrationFile>,
    applied: Seq<ScriptMigration>,
) -> Seq<MigrationFile> {
    declared.filter(|d: MigrationFile| is_missing(d, applied))
}

/// The applied history forms a gap-free prefix of the declared sequence.
pub open spec fn gap_free(declared: Seq<MigrationFile>, applied: Seq<ScriptMigration>) -> bool {
    missing_migrations(declared, applied).len() == 0
}

/// A sequence on which the predicate never holds filters to nothing.
pub proof fn lemma_filter_all_false<A>(s: Seq<A>, pred: spec_fn(A) -> bool)
    requires
        forall|k: int| 0 <= k < s.len() ==> !pred(#[trigger] s[k]),
    ensures
        s.filter(pred).len() == 0,
    decreases s.len(),
{
    reveal(Seq::filter);
    if s.len() > 0 {
        assert(!pred(s.last()));
        assert(forall|k: int| 0 <= k < s.drop_last().len() ==> !pred(#[trigger] s.drop_last()[k]));
        lemma_filter_all_false(s.drop_last(), pred);
    }
}

/// A filter is empty exactly when its predicate holds of no element.
pub proof fn lemma_gap_free_iff(declared: Seq<MigrationFile>, applied: Seq<ScriptMigration>)
    ensures
        gap_free(declared, applied) <==> forall|k: int|
            0 <= k < declared.len() ==> !is_missing(#[trigger] declared[k], applied),
{
    let pred = |d: MigrationFile| is_missing(d, applied);
    if forall|k: int| 0 <= k < declared.len() ==> !pred(#[trigger] declared[k]) {
        lemma_filter_all_false(declared, pred);
    } else {
        let k = choose|k: int| 0 <= k < declared.len() && pred(declared[k]);
        declared.lemma_filter_contains(pred, k);
        assert(declared.filter(pred).contains(declared[k]));
        assert(declared.filter(pred).len() > 0);
    }
}

/// Whether a declared migration counts as missing depends on its own stamp
/// and name only, never on its position: it transfers between arrangements
/// of the same files.
pub proof fn lemma_not_missing_permutation(
    x: Seq<MigrationFile>,
    y: Seq<MigrationFile>,
    applied: Seq<ScriptMigration>,
)
    requires
        x.to_multiset() == y.to_multiset(),
        forall|k: int| 0 <= k < x.len() ==> !is_missing(#[trigger] x[k], applied),
    ensures
        forall|k: int| 0 <= k < y.len() ==> !is_missing(#[trigger] y[k], applied),
{
    broadcast use vstd::seq_lib::group_to_multiset_ensures;
    broadcast use vstd::multiset::group_multiset_axioms;

    x.to_multiset_ensures();
    y.to_multiset_ensures();
    assert forall|k: int| 0 <= k < y.len() implies !is_missing(#[trigger] y[k], applied) by {
        assert(y.contains(y[k]));
        assert(x.to_multiset().count(y[k]) > 0);
        assert(x.contains(y[k]));
        let w = choose|w: int| 0 <= w < x.len() && x[w] == y[k];
        assert(!is_missing(x[w], applied));
    }
}

/// Whether the recorded identity `n` occurs in the applied history.
pub fn contains_name(applied: &Vec<ScriptMigration>, n: &String) -> (b: bool)
    ensures
        b == applied_names(applied@).contains(n@),
{
    let mut t: usize = 0;
    while t < applied.len()
        invariant
            t <= applied@.len(),
            forall|k: int| 0 <= k < t ==> #[trigger] applied@[k].script_name@ != n@,
        decreases applied@.len() - t,
    {
        if applied[t].script_name == *n {
            proof {
                assert(applied_names(applied@)[t as int] == n@);
            }
            return true;
        }
        t = t + 1;
    }
    proof {
        assert forall|k: int| 0 <= k < applied_names(applied@).len() implies #[trigger] applied_names(
            applied@,
        )[k] != n@ by {
            assert(applied@[k].script_name@ != n@);
        }
    }
    false
}

/// Decide whether the applied history is a gap-free prefix of the declared
/// sequence: no declared migration sorting at or before the latest recorded
/// one may lack an execution record.  On violation the error carries the
/// names of every skipped migration, in declared order.
pub fn is_gap_free_prefix(applied: &Vec<ScriptMigration>, declared: &Vec<MigrationFile>) -> (r:
    Result<(), MigrationError>)
    ensures
        r is Ok <==> all_applied_valid(applied@) && gap_free(declared@, applied@),
        applied@.len() == 0 ==> r is Ok,
        r matches Err(e) ==> (e matches MigrationError::MalformedFilename { filename } ==> exists|
            i: int,
        |
            0 <= i < applied@.len() && #[trigger] applied@[i].script_name == filename
                && !valid_migration_name(filename@)),
        r matches Err(e) ==> (e matches MigrationError::MissingMigrations { names } ==> {
            &&& names@ == missing_migrations(declared@, applied@).map_values(
                |m: MigrationFile| m.name,
            )
            &&& names@.len() > 0
            &&& all_applied_valid(applied@)
        }),
        r matches Err(e) ==> (e is MalformedFilename || e is MissingMigrations),
{
    if applied.len() == 0 {
        proof {
            let pred = |d: MigrationFile| is_missing(d, applied@);
            assert forall|k: int| 0 <= k < declared@.len() implies !pred(
                #[trigger] declared@[k],
            ) by {}
            lemma_filter_all_false(declared@, pred);
        }
        return Ok(());
    }
    let mut max_d: u64 = 0;
    let mut max_t: u64 = 0;
    let mut i: usize = 0;
    while i < applied.len()
        invariant
            applied@.len() > 0,
            i <= applied@.len(),
            forall|k: int|
                0 <= k < i ==> valid_migration_name(#[trigger] applied@[k].script_name@),
            forall|k: int|
                0 <= k < i ==> stamp_le(
                    applied_date(#[trigger] applied@[k]),
                    applied_time(applied@[k]),
                    max_d as int,
                    max_t as int,
                ),
            i > 0 ==> exists|w: int|
                0 <= w < i && applied_date(#[trigger] applied@[w]) == max_d && applied_time(
                    applied@[w],
                ) == max_t,
        decreases applied@.len() - i,
    {
        match parse_migration_filename(applied[i].script_name.as_str()) {
            None => {
                return Err(
                    MigrationError::MalformedFilename {
                        filename: applied[i].script_name.clone(),
                    },
                );
            },
            Some((d, t)) => {
                if i == 0 || d > max_d || (d == max_d && t > max_t) {
                    max_d = d;
                    max_t = t;
                }
            },
        }
        i = i + 1;
    }
    let ghost pred = |d: MigrationFile| is_missing(d, applied@);
    let mut names: Vec<String> = Vec::new();
    let ghost missing_pfx = Seq::<MigrationFile>::empty();
    proof {
        assert(declared@.subrange(0, 0).filter(pred) =~= missing_pfx) by {
            assert(declared@.subrange(0, 0) =~= Seq::<MigrationFile>::empty());
            lemma_filter_all_false(Seq::<MigrationFile>::empty(), pred);
        }
        assert(names@ =~= missing_pfx.map_values(|m: MigrationFile| m.name));
    }
    let mut j: usize = 0;
    while j < declared.len()
        invariant
            applied@.len() > 0,
            j <= declared@.len(),
            pred == (|d: MigrationFile| is_missing(d, applied@)),
            all_applied_valid(applied@),
            forall|k: int|
                0 <= k < applied@.len() ==> stamp_le(
                    applied_date(#[trigger] applied@[k]),
                    applied_time(applied@[k]),
                    max_d as int,
                    max_t as int,
                ),
            exists|w: int|
                0 <= w < applied@.len() && applied_date(#[trigger] applied@[w]) == max_d
                    && applied_time(applied@[w]) == max_t,
            missing_pfx == declared@.subrange(0, j as int).filter(pred),
            names@ == missing_pfx.map_values(|m: MigrationFile| m.name),
        decreases declared@.len() - j,
    {
        let within = declared[j].date < max_d || (declared[j].date == max_d && declared[j].time
            <= max_t);
        let ghost d = declared@[j as int];
        let mut added = false;
        if within {
            if !contains_name(applied, &declared[j].name) {
                names.push(declared[j].name.clone());
                added = true;
            }
        }
        proof {
            if within {
                let w = choose|w: int|
                    0 <= w < applied@.len() && applied_date(#[trigger] applied@[w]) == max_d
                        && applied_time(applied@[w]) == max_t;
                assert(stamp_le(d.date as int, d.time as int, applied_date(applied@[w]),
                applied_time(applied@[w])));
            } else {
                assert forall|k: int| 0 <= k < applied@.len() implies !stamp_le(
                    d.date as int,
                    d.time as int,
                    applied_date(#[trigger] applied@[k]),
                    applied_time(applied@[k]),
                ) by {
                    assert(stamp_le(
                        applied_date(applied@[k]),
                        applied_time(applied@[k]),
                        max_d as int,
                        max_t as int,
                    ));
                }
            }
            assert(added == pred(d));
            let before = declared@.subrange(0, j as int);
            let after = declared@.subrange(0, j + 1);
            assert(after =~= before + seq![d]);
            Seq::<MigrationFile>::filter_distributes_over_add(before, seq![d], pred);
            reveal_with_fuel(Seq::filter, 2);
            assert(seq![d].drop_last() =~= Seq::<MigrationFile>::empty());
            if pred(d) {
                assert(seq![d].filter(pred) =~= seq![d]);
                assert(after.filter(pred) =~= before.filter(pred).push(d));
                assert(after.filter(pred).map_values(|m: MigrationFile| m.name) =~= before.filter(
                    pred,
                ).map_values(|m: MigrationFile| m.name).push(d.name));
            } else {
                assert(seq![d].filter(pred) =~= Seq::<MigrationFile>::empty());
                assert(after.filter(pred) =~= before.filter(pred));
            }
        }
        proof {
            missing_pfx = declared@.subrange(0, j + 1).filter(pred);
        }
        j = j + 1;
    }
    proof {
        assert(declared@.subrange(0, declared@.len() as int) =~= declared@);
    }
    if names.len() == 0 {
        proof {
            assert(missing_migrations(declared@, applied@).len() == 0);
        }
        Ok(())
    } else {
        Err(MigrationError::MissingMigrations { names })
    }
}

} // verus!
