use vstd::multiset::Multiset;
use vstd::prelude::*;

use crate::models::MigrationFile;

verus! {

/// `a` sorts at or before `b`: the `<date>_<time>` stamp decides, date group
/// first.  Two files with the same stamp compare equal either way; the
/// scanner rejects such a pair, so within a declared sequence the order is
/// total and strict.
pub open spec fn key_le(a: MigrationFile, b: MigrationFile) -> bool {
    a.date < b.date || (a.date == b.date && a.time <= b.time)
}

/// `a` sorts strictly before `b`.
pub open spec fn key_lt(a: MigrationFile, b: MigrationFile) -> bool {
    a.date < b.date || (a.date == b.date && a.time < b.time)
}

/// `a` and `b` carry the same `<date>_<time>` stamp.
pub open spec fn same_key(a: MigrationFile, b: MigrationFile) -> bool {
    a.date == b.date && a.time == b.time
}

/// The sequence is ordered by `key_le`.
pub open spec fn sorted_migrations(s: Seq<MigrationFile>) -> bool {
    forall|i: int, j: int| 0 <= i < j < s.len() ==> key_le(#[trigger] s[i], #[trigger] s[j])
}

/// No two elements share a `<date>_<time>` stamp.
pub open spec fn unique_keys(s: Seq<MigrationFile>) -> bool {
    forall|i: int, j: int| 0 <= i < j < s.len() ==> !same_key(#[trigger] s[i], #[trigger] s[j])
}

/// The order is reflexive and total: of any two files, one sorts at or
/// before the other.
pub proof fn lemma_order_total(a: MigrationFile, b: MigrationFile)
    ensures
        key_le(a, a),
        key_le(a, b) || key_le(b, a),
{
}

/// The order is transitive.
pub proof fn lemma_order_transitive(a: MigrationFile, b: MigrationFile, c: MigrationFile)
    requires
        key_le(a, b),
        key_le(b, c),
    ensures
        key_le(a, c),
{
}

/// The order is antisymmetric on stamps: two files that each sort at or
/// before the other carry the same stamp, so with unique stamps the order
/// over a declared sequence is a total order.
pub proof fn lemma_order_antisymmetric(a: MigrationFile, b: MigrationFile)
    requires
        key_le(a, b),
        key_le(b, a),
    ensures
        same_key(a, b),
{
}

/// A sorted sequence with unique stamps is the only sorted arrangement of
/// its elements: any two sorted sequences holding the same elements are
/// equal.  Sorting is therefore deterministic and a second pass over its own
/// output returns that output unchanged.
pub proof fn lemma_sorted_permutation_equal(x: Seq<MigrationFile>, y: Seq<MigrationFile>)
    requires
        sorted_migrations(x),
        sorted_migrations(y),
        unique_keys(x),
        x.to_multiset() == y.to_multiset(),
    ensures
        x == y,
    decreases x.len(),
{
    broadcast use vstd::seq_lib::group_to_multiset_ensures;
    broadcast use vstd::multiset::group_multiset_axioms;

    x.to_multiset_ensures();
    y.to_multiset_ensures();
    if x.len() == 0 {
        assert(y.to_multiset().len() == 0);
        assert(x =~= y);
    } else {
        assert(x.to_multiset().contains(x[0]));
        assert(y.to_multiset().contains(x[0]));
        assert(x.to_multiset().contains(y[0]));
        let i = choose|i: int| 0 <= i < x.len() && #[trigger] x[i] == y[0];
        let j = choose|j: int| 0 <= j < y.len() && #[trigger] y[j] == x[0];
        assert(key_le(x[0], x[i]));
        assert(key_le(y[0], y[j]));
        assert(same_key(x[0], y[0])) by {
            lemma_order_antisymmetric(x[0], y[0]);
        }
        assert(x[0] == y[0]) by {
            if i != 0 {
                assert(!same_key(x[0], x[i]));
            }
        }
        let xt = x.drop_first();
        let yt = y.drop_first();
        assert(xt =~= x.remove(0));
        assert(yt =~= y.remove(0));
        assert(xt.to_multiset() =~= x.to_multiset().remove(x[0]));
        assert(yt.to_multiset() =~= y.to_multiset().remove(y[0]));
        assert(sorted_migrations(xt)) by {
            assert forall|i: int, j: int| 0 <= i < j < xt.len() implies key_le(
                #[trigger] xt[i],
                #[trigger] xt[j],
            ) by {
                assert(xt[i] == x[i + 1]);
                assert(xt[j] == x[j + 1]);
            }
        }
        assert(sorted_migrations(yt));
        assert(unique_keys(xt));
        lemma_sorted_permutation_equal(xt, yt);
        assert(x =~= seq![x[0]] + xt);
        assert(y =~= seq![y[0]] + yt);
        assert(x =~= y);
    }
}

/// Insert `x` into the sorted vector `r`, keeping it sorted.
fn insert_sorted(r: &mut Vec<MigrationFile>, x: MigrationFile)
    requires
        sorted_migrations(old(r)@),
    ensures
        sorted_migrations(final(r)@),
        final(r)@.to_multiset() == old(r)@.to_multiset().insert(x),
{
    broadcast use vstd::seq_lib::group_to_multiset_ensures;
    broadcast use vstd::multiset::group_multiset_axioms;

    let mut pos: usize = 0;
    while pos < r.len() && (r[pos].date < x.date || (r[pos].date == x.date && r[pos].time
        <= x.time))
        invariant
            pos <= r@.len(),
            sorted_migrations(r@),
            forall|k: int| 0 <= k < pos ==> key_le(#[trigger] r@[k], x),
        decreases r@.len() - pos,
    {
        pos = pos + 1;
    }
    let ghost before = r@;
    r.insert(pos, x);
    proof {
        assert(r@ == before.insert(pos as int, x));
        assert(forall|k: int| pos <= k < before.len() ==> key_le(x, #[trigger] before[k])) by {
            assert forall|k: int| pos <= k < before.len() implies key_le(
                x,
                #[trigger] before[k],
            ) by {
                if (pos as int) < before.len() {
                    assert(!key_le(before[pos as int], x));
                    lemma_order_transitive(x, before[pos as int], before[k]);
                } else {
                }
            }
        }
        assert(sorted_migrations(r@)) by {
            assert forall|i: int, j: int| 0 <= i < j < r@.len() implies key_le(
                #[trigger] r@[i],
                #[trigger] r@[j],
            ) by {
                lemma_order_total(x, x);
            }
        }
        let left = before.subrange(0, pos as int);
        let right = before.subrange(pos as int, before.len() as int);
        assert(before =~= left + right);
        assert(r@ =~= left + seq![x] + right);
        vstd::seq_lib::lemma_multiset_commutative(left, right);
        vstd::seq_lib::lemma_multiset_commutative(left + seq![x], right);
        vstd::seq_lib::lemma_multiset_commutative(left, seq![x]);
        assert(seq![x].to_multiset() =~= Multiset::empty().insert(x)) by {
            seq![x].to_multiset_ensures();
            assert(seq![x] =~= Seq::empty().push(x));
        }
        assert(r@.to_multiset() =~= before.to_multiset().insert(x));
    }
}

/// Arrange migration files by the total order of their stamps.  The result
/// holds exactly the elements of `units`.
pub fn sequence_sorted(units: Vec<MigrationFile>) -> (r: Vec<MigrationFile>)
    ensures
        sorted_migrations(r@),
        r@.to_multiset() == units@.to_multiset(),
{
    broadcast use vstd::seq_lib::group_to_multiset_ensures;
    broadcast use vstd::multiset::group_multiset_axioms;

    let ghost all = units@;
    let mut rest = units;
    let mut r: Vec<MigrationFile> = Vec::new();
    proof {
        assert(r@.to_multiset().add(rest@.to_multiset()) =~= all.to_multiset()) by {
            r@.to_multiset_ensures();
        }
    }
    while rest.len() > 0
        invariant
            sorted_migrations(r@),
            r@.to_multiset().add(rest@.to_multiset()) == all.to_multiset(),
        decreases rest@.len(),
    {
        let ghost rest_before = rest@;
        let x = rest.pop().unwrap();
        insert_sorted(&mut r, x);
        proof {
            rest_before.to_multiset_ensures();
            assert(rest@ == rest_before.drop_last());
            assert(rest_before.drop_last() =~= rest_before.remove(rest_before.len() - 1));
            assert(rest_before.drop_last().to_multiset() =~= rest_before.to_multiset().remove(
                rest_before.last(),
            ));
            assert(r@.to_multiset().add(rest@.to_multiset()) =~= all.to_multiset());
        }
    }
    proof {
        assert(rest@.to_multiset().len() == 0) by {
            rest@.to_multiset_ensures();
        }
        assert(rest@.to_multiset() =~= Multiset::empty());
        assert(r@.to_multiset() =~= all.to_multiset());
    }
    r
}

} // verus!
