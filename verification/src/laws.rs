use vstd::prelude::*;

use crate::apply::pending_migrations;
use crate::apply::pending_pred;
use crate::models::MigrationFile;
use crate::models::ScriptMigration;
use crate::ordering::key_le;
use crate::scan::wf_migration;
use crate::validate::all_applied_valid;
use crate::validate::applied_names;
use crate::validate::gap_free;
use crate::validate::is_missing;
use crate::validate::lemma_filter_all_false;
use crate::validate::lemma_gap_free_iff;

verus! {

/// Indexing a concatenation reads the left part below its length and the
/// right part above it.
proof fn lemma_add_index<A>(a: Seq<A>, b: Seq<A>, i: int)
    requires
        0 <= i < a.len() + b.len(),
    ensures
        i < a.len() ==> (a + b)[i] == a[i],
        i >= a.len() ==> (a + b)[i] == b[i - a.len()],
{
}

/// Applying is idempotent: once every migration of one run's plan has been
/// recorded, a second run over the same declared sequence has nothing left
/// to apply.  (Its plan still re-executes every schema and event definition:
/// a plan always lists them all.)
pub proof fn lemma_apply_twice_nothing_pending(
    declared: Seq<MigrationFile>,
    applied: Seq<ScriptMigration>,
    applied2: Seq<ScriptMigration>,
)
    requires
        applied_names(applied2) == applied_names(applied) + pending_migrations(
            declared,
            applied,
            None,
        ).map_values(|m: MigrationFile| m.name@),
    ensures
        pending_migrations(declared, applied2, None).len() == 0,
{
    let pred1 = |d: MigrationFile| pending_pred(d, applied, None);
    let pred2 = |d: MigrationFile| pending_pred(d, applied2, None);
    let pending1 = pending_migrations(declared, applied, None);
    let base = applied_names(applied);
    let pmap = pending1.map_values(|m: MigrationFile| m.name@);
    assert forall|k: int| 0 <= k < declared.len() implies !pred2(#[trigger] declared[k]) by {
        let d = declared[k];
        if base.contains(d.name@) {
            let w = choose|w: int| 0 <= w < base.len() && base[w] == d.name@;
            lemma_add_index(base, pmap, w);
            assert(applied_names(applied2)[w] == d.name@);
            assert(applied_names(applied2).contains(d.name@));
        } else {
            assert(pred1(d));
            declared.lemma_filter_contains(pred1, k);
            assert(pending1.contains(d));
            let w = choose|w: int| 0 <= w < pending1.len() && pending1[w] == d;
            lemma_add_index(base, pmap, base.len() + w);
            assert(applied_names(applied2)[base.len() + w] == pmap[w]);
            assert(applied_names(applied2).contains(d.name@));
        }
    }
    lemma_filter_all_false(declared, pred2);
}

/// The recorded name of `a` parses as a migration name.
spec fn valid_name_of(a: ScriptMigration) -> bool {
    crate::scan::valid_migration_name(a.script_name@)
}

/// After one full `up` run, every declared migration carries an execution
/// record, so the version order validates — whatever history the run
/// started from, as long as that history's names were well formed.
pub proof fn lemma_validate_after_full_apply(
    declared: Seq<MigrationFile>,
    applied: Seq<ScriptMigration>,
    applied2: Seq<ScriptMigration>,
)
    requires
        forall|k: int| 0 <= k < declared.len() ==> wf_migration(#[trigger] declared[k]),
        all_applied_valid(applied),
        applied_names(applied2) == applied_names(applied) + pending_migrations(
            declared,
            applied,
            None,
        ).map_values(|m: MigrationFile| m.name@),
    ensures
        all_applied_valid(applied2),
        forall|k: int| 0 <= k < declared.len() ==> !is_missing(#[trigger] declared[k], applied2),
        gap_free(declared, applied2),
{
    let pred1 = |d: MigrationFile| pending_pred(d, applied, None);
    let pending1 = pending_migrations(declared, applied, None);
    let base = applied_names(applied);
    let names2 = applied_names(applied2);
    let pmap = pending1.map_values(|m: MigrationFile| m.name@);
    assert(names2.len() == base.len() + pmap.len());
    assert(pmap.len() == pending1.len());
    assert forall|i: int| 0 <= i < applied2.len() implies valid_name_of(
        #[trigger] applied2[i],
    ) by {
        assert(names2[i] == applied2[i].script_name@);
        lemma_add_index(base, pmap, i);
        if i < base.len() {
            assert(names2[i] == base[i]);
            assert(base[i] == applied[i].script_name@);
        } else {
            let w = i - base.len();
            assert(names2[i] == pmap[w]);
            assert(pmap[w] == pending1[w].name@);
            assert(pending1.contains(pending1[w]));
            declared.lemma_filter_contains_rev(pred1, pending1[w]);
            let h = choose|h: int| 0 <= h < declared.len() && declared[h] == pending1[w];
            assert(wf_migration(declared[h]));
        }
    }
    assert forall|k: int| 0 <= k < declared.len() implies !is_missing(
        #[trigger] declared[k],
        applied2,
    ) by {
        let d = declared[k];
        if base.contains(d.name@) {
            let w = choose|w: int| 0 <= w < base.len() && base[w] == d.name@;
            lemma_add_index(base, pmap, w);
            assert(names2[w] == d.name@);
            assert(names2.contains(d.name@));
        } else {
            assert(pred1(d));
            declared.lemma_filter_contains(pred1, k);
            let w = choose|w: int| 0 <= w < pending1.len() && pending1[w] == d;
            lemma_add_index(base, pmap, base.len() + w);
            assert(names2[base.len() + w] == pmap[w]);
            assert(names2.contains(d.name@));
        }
    }
    lemma_gap_free_iff(declared, applied2);
}

/// `a` sorts strictly before `b` in character order, position by position.
pub open spec fn lex_lt(a: Seq<char>, b: Seq<char>) -> bool
    decreases a.len(),
{
    if b.len() == 0 {
        false
    } else if a.len() == 0 {
        true
    } else if (a[0] as u32) < (b[0] as u32) {
        true
    } else if (a[0] as u32) > (b[0] as u32) {
        false
    } else {
        lex_lt(a.drop_first(), b.drop_first())
    }
}

pub proof fn lemma_lex_asymmetric(a: Seq<char>, b: Seq<char>)
    requires
        lex_lt(a, b),
    ensures
        !lex_lt(b, a),
    decreases a.len(),
{
    if b.len() == 0 {
        assert(false);
    } else if a.len() == 0 {
    } else if (a[0] as u32) < (b[0] as u32) {
    } else if (a[0] as u32) > (b[0] as u32) {
        assert(false);
    } else {
        lemma_lex_asymmetric(a.drop_first(), b.drop_first());
    }
}

/// The records' execution dates strictly increase along the sequence.
pub open spec fn strictly_stamped(records: Seq<ScriptMigration>) -> bool {
    forall|i: int, j: int|
        0 <= i < j < records.len() ==> lex_lt(
            (#[trigger] records[i]).executed_at@,
            (#[trigger] records[j]).executed_at@,
        )
}

/// Records stamped in strictly increasing order admit exactly one
/// arrangement ordered by execution date: the order they were written in.
/// A listing ordered by execution date therefore reproduces the order the
/// migrations actually ran in, whatever their declared stamps say.
pub proof fn lemma_execution_order_unique(x: Seq<ScriptMigration>, y: Seq<ScriptMigration>)
    requires
        x.to_multiset() == y.to_multiset(),
        strictly_stamped(x),
        strictly_stamped(y),
    ensures
        x == y,
    decreases x.len(),
{
    broadcast use vstd::seq_lib::group_to_multiset_ensures;
    broadcast use vstd::multiset::group_multiset_axioms;

    x.to_multiset_ensures();
    y.to_multiset_ensures();
    if x.len() == 0 {
        assert(y.to_multiset().len() == 0);
        assert(x =~= y);
    } else {
        assert(x.to_multiset().contains(x[0]));
        assert(y.to_multiset().contains(x[0]));
        assert(x.to_multiset().contains(y[0]));
        let i = choose|i: int| 0 <= i < x.len() && #[trigger] x[i] == y[0];
        let j = choose|j: int| 0 <= j < y.len() && #[trigger] y[j] == x[0];
        if i > 0 && j > 0 {
            assert(lex_lt(x[0].executed_at@, x[i].executed_at@));
            assert(lex_lt(y[0].executed_at@, y[j].executed_at@));
            lemma_lex_asymmetric(x[0].executed_at@, y[0].executed_at@);
            assert(false);
        }
        assert(x[0] == y[0]);
        let xt = x.drop_first();
        let yt = y.drop_first();
        assert(xt =~= x.remove(0));
        assert(yt =~= y.remove(0));
        assert(xt.to_multiset() =~= x.to_multiset().remove(x[0]));
        assert(yt.to_multiset() =~= y.to_multiset().remove(y[0]));
        assert(strictly_stamped(xt)) by {
            assert forall|a: int, b2: int| 0 <= a < b2 < xt.len() implies lex_lt(
                (#[trigger] xt[a]).executed_at@,
                (#[trigger] xt[b2]).executed_at@,
            ) by {
                assert(xt[a] == x[a + 1]);
                assert(xt[b2] == x[b2 + 1]);
            }
        }
        assert(strictly_stamped(yt)) by {
            assert forall|a: int, b2: int| 0 <= a < b2 < yt.len() implies lex_lt(
                (#[trigger] yt[a]).executed_at@,
                (#[trigger] yt[b2]).executed_at@,
            ) by {
                assert(yt[a] == y[a + 1]);
                assert(yt[b2] == y[b2 + 1]);
            }
        }
        lemma_execution_order_unique(xt, yt);
        assert(x =~= seq![x[0]] + xt);
        assert(y =~= seq![y[0]] + yt);
        assert(x =~= y);
    }
}

/// Applying up to a target from an empty history leaves a history that
/// validates: the records form exactly the declared prefix bounded by the
/// target, so nothing before the latest record is missing, even though the
/// migrations after the target have not run.
pub proof fn lemma_validate_after_apply_up_to(
    declared: Seq<MigrationFile>,
    b: MigrationFile,
    applied2: Seq<ScriptMigration>,
)
    requires
        forall|k: int| 0 <= k < declared.len() ==> wf_migration(#[trigger] declared[k]),
        applied_names(applied2) == pending_migrations(
            declared,
            Seq::<ScriptMigration>::empty(),
            Some(b),
        ).map_values(|m: MigrationFile| m.name@),
    ensures
        all_applied_valid(applied2),
        forall|k: int| 0 <= k < declared.len() ==> !is_missing(#[trigger] declared[k], applied2),
        gap_free(declared, applied2),
{
    let nobody = Seq::<ScriptMigration>::empty();
    let pred1 = |d: MigrationFile| pending_pred(d, nobody, Some(b));
    let pending1 = pending_migrations(declared, nobody, Some(b));
    let names2 = applied_names(applied2);
    let pmap = pending1.map_values(|m: MigrationFile| m.name@);
    assert(names2.len() == pmap.len());
    assert(pmap.len() == pending1.len());
    assert forall|i: int| 0 <= i < applied2.len() implies valid_name_of(
        #[trigger] applied2[i],
    ) by {
        assert(names2[i] == applied2[i].script_name@);
        assert(names2[i] == pmap[i]);
        assert(pmap[i] == pending1[i].name@);
        assert(pending1.contains(pending1[i]));
        declared.lemma_filter_contains_rev(pred1, pending1[i]);
        let h = choose|h: int| 0 <= h < declared.len() && declared[h] == pending1[i];
        assert(wf_migration(declared[h]));
    }
    assert forall|k: int| 0 <= k < declared.len() implies !is_missing(
        #[trigger] declared[k],
        applied2,
    ) by {
        let d = declared[k];
        if key_le(d, b) {
            assert(pred1(d));
            declared.lemma_filter_contains(pred1, k);
            let w = choose|w: int| 0 <= w < pending1.len() && pending1[w] == d;
            assert(names2[w] == pmap[w]);
            assert(pmap[w] == pending1[w].name@);
            assert(names2.contains(d.name@));
        } else {
            assert forall|i: int|
                0 <= i < applied2.len() implies !crate::validate::stamp_le(
                d.date as int,
                d.time as int,
                crate::validate::applied_date(#[trigger] applied2[i]),
                crate::validate::applied_time(applied2[i]),
            ) by {
                assert(names2[i] == applied2[i].script_name@);
                assert(names2[i] == pmap[i]);
                assert(pmap[i] == pending1[i].name@);
                assert(pending1.contains(pending1[i]));
                declared.lemma_filter_contains_rev(pred1, pending1[i]);
                declared.lemma_filter_pred(pred1, i);
                let h = choose|h: int| 0 <= h < declared.len() && declared[h] == pending1[i];
                assert(wf_migration(declared[h]));
                assert(key_le(declared[h], b));
                assert(applied2[i].script_name@ == declared[h].name@);
                assert(crate::validate::applied_date(applied2[i]) == declared[h].date);
                assert(crate::validate::applied_time(applied2[i]) == declared[h].time);
            }
        }
    }
    lemma_gap_free_iff(declared, applied2);
}

} // verus!
