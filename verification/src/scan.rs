use vstd::prelude::*;

use crate::errors::MigrationError;
use crate::models::MigrationFile;
use crate::models::SourceFile;
use crate::ordering::key_le;
use crate::ordering::key_lt;
use crate::ordering::same_key;
use crate::ordering::sequence_sorted;
use crate::ordering::sorted_migrations;
use crate::ordering::unique_keys;

verus! {

/// `c` is an ASCII decimal digit.
pub open spec fn is_digit(c: char) -> bool {
    48 <= c as u32 && c as u32 <= 57
}

/// The numeric value of the digit `c`.
pub open spec fn digit_val(c: char) -> int {
    c as u32 - 48
}

/// Every character of `s` is a digit.
pub open spec fn all_digits(s: Seq<char>) -> bool {
    forall|i: int| 0 <= i < s.len() ==> is_digit(#[trigger] s[i])
}

/// The number the digit string `s` denotes, most significant digit first.
pub open spec fn digits_val(s: Seq<char>) -> int
    decreases s.len(),
{
    if s.len() == 0 {
        0
    } else {
        digits_val(s.drop_last()) * 10 + digit_val(s.last())
    }
}

pub proof fn lemma_digits_val_nonneg(s: Seq<char>)
    requires
        all_digits(s),
    ensures
        digits_val(s) >= 0,
    decreases s.len(),
{
    if s.len() > 0 {
        assert(all_digits(s.drop_last()));
        lemma_digits_val_nonneg(s.drop_last());
    }
}

/// A longer all-digit string never denotes a smaller number: the value of a
/// prefix bounds the value of the whole string from below.
pub proof fn lemma_digits_val_prefix(s: Seq<char>, m: int)
    requires
        all_digits(s),
        0 <= m <= s.len(),
    ensures
        digits_val(s.subrange(0, m)) <= digits_val(s),
    decreases s.len() - m,
{
    if m < s.len() {
        let t = s.subrange(0, m + 1);
        assert(t.drop_last() =~= s.subrange(0, m));
        assert(all_digits(t.drop_last()));
        lemma_digits_val_nonneg(t.drop_last());
        assert(digits_val(t) == digits_val(s.subrange(0, m)) * 10 + digit_val(t.last()));
        lemma_digits_val_prefix(s, m + 1);
    } else {
        assert(s.subrange(0, m) =~= s);
    }
}

/// Splits `<date>_<time>_<label>` at the first two underscores, or nothing
/// where fewer than two occur.
pub open spec fn migration_name_parts(s: Seq<char>) -> Option<(Seq<char>, Seq<char>, Seq<char>)> {
    match s.index_of_first('_') {
        Some(i) => {
            let rest = s.subrange(i + 1, s.len() as int);
            match rest.index_of_first('_') {
                Some(j) => Some(
                    (s.subrange(0, i), rest.subrange(0, j), rest.subrange(j + 1, rest.len() as int)),
                ),
                None => None,
            }
        },
        None => None,
    }
}

/// The file name follows the migration convention: a non-empty digit group,
/// an underscore, a second non-empty digit group, an underscore, and a
/// non-empty label; both groups small enough for a 64-bit number.
pub open spec fn valid_migration_name(s: Seq<char>) -> bool {
    match migration_name_parts(s) {
        Some(p) => p.0.len() > 0 && all_digits(p.0) && digits_val(p.0) <= u64::MAX && p.1.len() > 0
            && all_digits(p.1) && digits_val(p.1) <= u64::MAX && p.2.len() > 0,
        None => false,
    }
}

/// The value of the first digit group of a well-formed migration file name.
pub open spec fn date_of(s: Seq<char>) -> int
    recommends
        valid_migration_name(s),
{
    match migration_name_parts(s) {
        Some(p) => digits_val(p.0),
        None => 0,
    }
}

/// The value of the second digit group of a well-formed migration file name.
pub open spec fn time_of(s: Seq<char>) -> int
    recommends
        valid_migration_name(s),
{
    match migration_name_parts(s) {
        Some(p) => digits_val(p.1),
        None => 0,
    }
}

/// The tail of `s` from `start` opens with a well-formed digit group closed
/// by an underscore.
pub open spec fn group_ok(s: Seq<char>, start: int) -> bool {
    let tail = s.subrange(start, s.len() as int);
    match tail.index_of_first('_') {
        Some(i) => i > 0 && all_digits(tail.subrange(0, i)) && digits_val(tail.subrange(0, i))
            <= u64::MAX,
        None => false,
    }
}

proof fn lemma_first_underscore(s: Seq<char>, i: int)
    requires
        0 <= i < s.len(),
        s[i] == '_',
        forall|k: int| 0 <= k < i ==> #[trigger] s[k] != '_',
    ensures
        s.index_of_first('_') == Some(i),
{
    s.index_of_first_ensures('_');
    assert(s.contains('_'));
    match s.index_of_first('_') {
        Some(r) => {
            if r < i {
                assert(s[r] != '_');
            } else if r > i {
                assert(s[i] != '_');
            }
        },
        None => {
            assert(false);
        },
    }
}

proof fn lemma_no_underscore(s: Seq<char>)
    requires
        forall|k: int| 0 <= k < s.len() ==> #[trigger] s[k] != '_',
    ensures
        s.index_of_first('_') is None,
{
    s.index_of_first_ensures('_');
    match s.index_of_first('_') {
        Some(r) => {
            assert(s[r] != '_');
            assert(false);
        },
        None => {},
    }
}

/// Scan one digit group of `name` from position `start` up to the next
/// underscore.  On success the result carries the group's value and the
/// underscore's position; failure means no well-formed group opens there.
fn scan_digit_group(name: &str, len: usize, start: usize) -> (r: Option<(u64, usize)>)
    requires
        len as nat == name@.len(),
        start <= len,
    ensures
        match r {
            Some(p) => {
                &&& start < p.1 < len
                &&& name@[p.1 as int] == '_'
                &&& (forall|k: int| start <= k < p.1 ==> #[trigger] name@[k] != '_')
                &&& all_digits(name@.subrange(start as int, p.1 as int))
                &&& digits_val(name@.subrange(start as int, p.1 as int)) == p.0
            },
            None => !group_ok(name@, start as int),
        },
{
    let ghost s = name@;
    let ghost tail = s.subrange(start as int, s.len() as int);
    let mut i: usize = start;
    let mut acc: u64 = 0;
    while i < len
        invariant
            len as nat == s.len(),
            s == name@,
            tail == s.subrange(start as int, s.len() as int),
            start <= i <= len,
            forall|k: int| start <= k < i ==> #[trigger] s[k] != '_' && is_digit(s[k]),
            acc == digits_val(s.subrange(start as int, i as int)),
        decreases len - i,
    {
        let c = name.get_char(i);
        if c == '_' {
            if i == start {
                proof {
                    assert(tail[0] == '_');
                    lemma_first_underscore(tail, 0);
                }
                return None;
            }
            return Some((acc, i));
        }
        let v = c as u32;
        if v < 48 || v > 57 {
            proof {
                let p = i as int - start;
                assert(tail[p] == c);
                assert(!is_digit(c) && c != '_');
                tail.index_of_first_ensures('_');
                match tail.index_of_first('_') {
                    Some(u) => {
                        if u <= p {
                            assert(forall|k: int|
                                0 <= k < tail.len() ==> tail[k] == #[trigger] s[start + k]);
                            assert(tail[u] == '_');
                            assert(false);
                        } else {
                            assert(!all_digits(tail.subrange(0, u))) by {
                                assert(tail.subrange(0, u)[p] == c);
                            }
                        }
                    },
                    None => {},
                }
            }
            return None;
        }
        let d = (v - 48) as u64;
        if acc > (u64::MAX - d) / 10 {
            proof {
                let p = i as int - start;
                let pre = s.subrange(start as int, i as int + 1);
                assert(pre.drop_last() =~= s.subrange(start as int, i as int));
                assert(pre.last() == c);
                assert(digits_val(pre) == acc * 10 + d);
                assert(acc * 10 + d > u64::MAX) by (nonlinear_arith)
                    requires
                        acc > (u64::MAX - d) / 10,
                        0 <= d <= 9,
                {}
                tail.index_of_first_ensures('_');
                match tail.index_of_first('_') {
                    Some(u) => {
                        if u <= p {
                            assert(tail[u] == s[start + u]);
                            assert(false);
                        } else if all_digits(tail.subrange(0, u)) {
                            let g = tail.subrange(0, u);
                            assert(g.subrange(0, p + 1) =~= pre) by {
                                assert(forall|k: int|
                                    0 <= k < u ==> #[trigger] g[k] == s[start + k]);
                            }
                            lemma_digits_val_prefix(g, p + 1);
                        }
                    },
                    None => {},
                }
            }
            return None;
        }
        acc = acc * 10 + d;
        proof {
            let pre = s.subrange(start as int, i as int + 1);
            assert(pre.drop_last() =~= s.subrange(start as int, i as int));
            assert(pre.last() == c);
            assert(is_digit(c));
        }
        i = i + 1;
    }
    proof {
        assert(forall|k: int| 0 <= k < tail.len() ==> #[trigger] tail[k] == s[start + k]);
        lemma_no_underscore(tail);
    }
    None
}

/// Parse a migration file name into its two numeric groups.  Returns the
/// date and time values exactly when the name is well formed.
pub fn parse_migration_filename(name: &str) -> (r: Option<(u64, u64)>)
    ensures
        r is Some <==> valid_migration_name(name@),
        r matches Some(p) ==> p.0 == date_of(name@) && p.1 == time_of(name@),
{
    let ghost s = name@;
    let len = name.unicode_len();
    let first = scan_digit_group(name, len, 0);
    match first {
        None => {
            proof {
                assert(s.subrange(0, s.len() as int) =~= s);
                s.index_of_first_ensures('_');
            }
            None
        },
        Some((date, i)) => {
            proof {
                lemma_first_underscore(s, i as int);
                assert(s.subrange(0, s.len() as int) =~= s);
            }
            let second = scan_digit_group(name, len, i + 1);
            match second {
                None => {
                    proof {
                        let rest = s.subrange(i + 1, s.len() as int);
                        assert(rest =~= s.subrange(i + 1 as int, s.len() as int));
                        rest.index_of_first_ensures('_');
                    }
                    None
                },
                Some((time, j)) => {
                    proof {
                        let rest = s.subrange(i + 1, s.len() as int);
                        assert(forall|k: int|
                            0 <= k < rest.len() ==> #[trigger] rest[k] == s[i + 1 + k]);
                        assert(rest[j - i - 1] == '_');
                        lemma_first_underscore(rest, j - i - 1);
                        assert(rest.subrange(0, j - i - 1) =~= s.subrange(i + 1, j as int));
                        assert(rest.subrange(j - i - 1 + 1, rest.len() as int) =~= s.subrange(
                            j + 1,
                            s.len() as int,
                        ));
                    }
                    if j + 1 < len {
                        Some((date, time))
                    } else {
                        None
                    }
                },
            }
        },
    }
}

/// The migration file a well-formed source file denotes.
pub open spec fn migration_of(f: SourceFile) -> MigrationFile {
    MigrationFile {
        date: date_of(f.name@) as u64,
        time: time_of(f.name@) as u64,
        name: f.name,
        content: f.content,
    }
}

/// Every file name in `files` is a well-formed migration name.
pub open spec fn all_names_valid(files: Seq<SourceFile>) -> bool {
    forall|i: int| 0 <= i < files.len() ==> valid_migration_name(#[trigger] files[i].name@)
}

/// The migration files that `files` declares, in discovery order.
pub open spec fn parsed_migrations(files: Seq<SourceFile>) -> Seq<MigrationFile> {
    files.map_values(|f: SourceFile| migration_of(f))
}

/// A migration file agrees with its own name: the name is well formed and
/// the stamp fields hold its two numeric groups.
pub open spec fn wf_migration(m: MigrationFile) -> bool {
    &&& valid_migration_name(m.name@)
    &&& m.date == date_of(m.name@)
    &&& m.time == time_of(m.name@)
}

pub proof fn lemma_count_two(x: Seq<MigrationFile>, i: int, j: int)
    requires
        0 <= i < j < x.len(),
        x[i] == x[j],
    ensures
        x.to_multiset().count(x[i]) >= 2,
{
    broadcast use vstd::seq_lib::group_to_multiset_ensures;
    broadcast use vstd::multiset::group_multiset_axioms;

    x.to_multiset_ensures();
    let xr = x.remove(j);
    xr.to_multiset_ensures();
    assert(xr.to_multiset() =~= x.to_multiset().remove(x[j]));
    assert(xr[i] == x[i]);
    assert(xr.contains(x[i]));
    assert(xr.to_multiset().count(x[i]) > 0);
}

pub proof fn lemma_two_positions(x: Seq<MigrationFile>, a: MigrationFile, b: MigrationFile)
    requires
        a != b || x.to_multiset().count(a) >= 2,
        x.to_multiset().count(a) >= 1,
        x.to_multiset().count(b) >= 1,
    ensures
        exists|i: int, j: int|
            #![trigger x[i], x[j]]
            0 <= i < x.len() && 0 <= j < x.len() && i != j && x[i] == a && x[j] == b,
{
    broadcast use vstd::seq_lib::group_to_multiset_ensures;
    broadcast use vstd::multiset::group_multiset_axioms;

    x.to_multiset_ensures();
    assert(x.contains(a));
    let i = choose|i: int| 0 <= i < x.len() && x[i] == a;
    if a != b {
        assert(x.contains(b));
        let j = choose|j: int| 0 <= j < x.len() && x[j] == b;
        assert(i != j);
        assert(x[i] == a && x[j] == b);
    } else {
        let xr = x.remove(i);
        xr.to_multiset_ensures();
        assert(xr.to_multiset() =~= x.to_multiset().remove(x[i]));
        assert(xr.to_multiset().count(a) >= 1);
        assert(xr.contains(a));
        let k = choose|k: int| 0 <= k < xr.len() && xr[k] == a;
        x.remove_ensures(i);
        let j = if k < i {
            k
        } else {
            k + 1
        };
        assert(x[j] == a) by {
            assert(xr =~= x.subrange(0, i) + x.subrange(i + 1, x.len() as int));
        }
        assert(i != j && x[i] == a && x[j] == b);
    }
}

/// Stamp uniqueness does not depend on the arrangement: any sequence holding
/// the same elements as one with unique stamps has unique stamps itself.
pub proof fn lemma_unique_keys_permutation(x: Seq<MigrationFile>, y: Seq<MigrationFile>)
    requires
        unique_keys(x),
        x.to_multiset() == y.to_multiset(),
    ensures
        unique_keys(y),
{
    broadcast use vstd::seq_lib::group_to_multiset_ensures;
    broadcast use vstd::multiset::group_multiset_axioms;

    x.to_multiset_ensures();
    y.to_multiset_ensures();
    assert forall|i: int, j: int| 0 <= i < j < y.len() implies !same_key(
        #[trigger] y[i],
        #[trigger] y[j],
    ) by {
        if same_key(y[i], y[j]) {
            if y[i] == y[j] {
                lemma_count_two(y, i, j);
            }
            assert(y.contains(y[i]) && y.contains(y[j]));
            assert(x.to_multiset().count(y[i]) >= 1 && x.to_multiset().count(y[j]) >= 1);
            lemma_two_positions(x, y[i], y[j]);
            let (i1, j1) = choose|i1: int, j1: int|
                #![trigger x[i1], x[j1]]
                {
                    &&& 0 <= i1 < x.len()
                    &&& 0 <= j1 < x.len()
                    &&& i1 != j1
                    &&& x[i1] == y[i]
                    &&& x[j1] == y[j]
                };
            if i1 < j1 {
                assert(!same_key(x[i1], x[j1]));
            } else {
                assert(!same_key(x[j1], x[i1]));
            }
            assert(false);
        }
    }
}

/// Build the declared sequence from the raw files of the migrations folder:
/// parse every file name, order the files by their stamps, and reject
/// malformed names and duplicate stamps.
pub fn build_declared_sequence(files: &Vec<SourceFile>) -> (r: Result<
    Vec<MigrationFile>,
    MigrationError,
>)
    ensures
        r is Ok <==> all_names_valid(files@) && unique_keys(parsed_migrations(files@)),
        r matches Ok(ms) ==> {
            &&& sorted_migrations(ms@)
            &&& unique_keys(ms@)
            &&& ms@.to_multiset() == parsed_migrations(files@).to_multiset()
            &&& forall|k: int| 0 <= k < ms@.len() ==> wf_migration(#[trigger] ms@[k])
        },
        r matches Err(e) ==> (e matches MigrationError::MalformedFilename { filename } ==> exists|
            i: int,
        |
            0 <= i < files@.len() && #[trigger] files@[i].name == filename
                && !valid_migration_name(filename@)),
        r matches Err(e) ==> (e matches MigrationError::DuplicateTimestamp { first, second }
            ==> exists|i: int, j: int|
            #![trigger parsed_migrations(files@)[i], parsed_migrations(files@)[j]]
            {
                let p = parsed_migrations(files@);
                &&& 0 <= i < p.len()
                &&& 0 <= j < p.len()
                &&& i != j
                &&& same_key(p[i], p[j])
                &&& p[i].name == first
                &&& p[j].name == second
            }),
        r matches Err(e) ==> !(e is MissingMigrations) && !(e is TargetNotFound),
{
    broadcast use vstd::seq_lib::group_to_multiset_ensures;
    broadcast use vstd::multiset::group_multiset_axioms;

    let mut ms: Vec<MigrationFile> = Vec::new();
    let mut i: usize = 0;
    while i < files.len()
        invariant
            i <= files@.len(),
            ms@ == files@.subrange(0, i as int).map_values(|f: SourceFile| migration_of(f)),
            forall|k: int| 0 <= k < i ==> valid_migration_name(#[trigger] files@[k].name@),
        decreases files@.len() - i,
    {
        match parse_migration_filename(files[i].name.as_str()) {
            None => {
                return Err(
                    MigrationError::MalformedFilename { filename: files[i].name.clone() },
                );
            },
            Some((date, time)) => {
                let m = MigrationFile {
                    date,
                    time,
                    name: files[i].name.clone(),
                    content: files[i].content.clone(),
                };
                proof {
                    lemma_digits_val_nonneg(
                        match migration_name_parts(files@[i as int].name@) {
                            Some(p) => p.0,
                            None => Seq::empty(),
                        },
                    );
                    lemma_digits_val_nonneg(
                        match migration_name_parts(files@[i as int].name@) {
                            Some(p) => p.1,
                            None => Seq::empty(),
                        },
                    );
                    assert(m == migration_of(files@[i as int]));
                    assert(files@.subrange(0, i + 1).map_values(|f: SourceFile| migration_of(f))
                        =~= files@.subrange(0, i as int).map_values(
                        |f: SourceFile| migration_of(f),
                    ).push(migration_of(files@[i as int])));
                }
                ms.push(m);
            },
        }
        i = i + 1;
    }
    proof {
        assert(files@.subrange(0, files@.len() as int) =~= files@);
        assert(ms@ == parsed_migrations(files@));
    }
    let ghost parsed = parsed_migrations(files@);
    let sorted = sequence_sorted(ms);
    let mut k: usize = 1;
    while k < sorted.len()
        invariant
            1 <= k,
            parsed == parsed_migrations(files@),
            sorted_migrations(sorted@),
            sorted@.to_multiset() == parsed.to_multiset(),
            forall|t: int|
                1 <= t < k && t < sorted@.len() ==> key_lt(#[trigger] sorted@[t - 1], sorted@[t]),
        decreases sorted@.len() - k,
    {
        if sorted[k].date == sorted[k - 1].date && sorted[k].time == sorted[k - 1].time {
            proof {
                assert(same_key(sorted@[k - 1], sorted@[k as int]));
                sorted@.to_multiset_ensures();
                parsed.to_multiset_ensures();
                if sorted@[k - 1] == sorted@[k as int] {
                    lemma_count_two(sorted@, k - 1, k as int);
                }
                assert(sorted@.contains(sorted@[k - 1]) && sorted@.contains(sorted@[k as int]));
                lemma_two_positions(parsed, sorted@[k - 1], sorted@[k as int]);
                let (i1, j1) = choose|i1: int, j1: int|
                    #![trigger parsed[i1], parsed[j1]]
                    {
                        &&& 0 <= i1 < parsed.len()
                        &&& 0 <= j1 < parsed.len()
                        &&& i1 != j1
                        &&& parsed[i1] == sorted@[k - 1]
                        &&& parsed[j1] == sorted@[k as int]
                    };
                assert(same_key(parsed[i1], parsed[j1]));
                assert(!unique_keys(parsed)) by {
                    if i1 < j1 {
                        assert(same_key(parsed[i1], parsed[j1]));
                    } else {
                        assert(same_key(parsed[j1], parsed[i1]));
                    }
                }
            }
            return Err(
                MigrationError::DuplicateTimestamp {
                    first: sorted[k - 1].name.clone(),
                    second: sorted[k].name.clone(),
                },
            );
        }
        proof {
            assert(key_le(sorted@[k - 1], sorted@[k as int]));
        }
        k = k + 1;
    }
    proof {
        assert(unique_keys(sorted@)) by {
            assert forall|i0: int, j0: int| 0 <= i0 < j0 < sorted@.len() implies !same_key(
                #[trigger] sorted@[i0],
                #[trigger] sorted@[j0],
            ) by {
                assert(key_lt(sorted@[i0 + 1 - 1], sorted@[i0 + 1]));
                if i0 + 1 < j0 {
                    assert(key_le(sorted@[i0 + 1], sorted@[j0]));
                }
            }
        }
        lemma_unique_keys_permutation(sorted@, parsed);
        assert forall|t: int| 0 <= t < sorted@.len() implies wf_migration(
            #[trigger] sorted@[t],
        ) by {
            assert(sorted@.contains(sorted@[t]));
            assert(parsed.to_multiset().count(sorted@[t]) >= 1);
            assert(parsed.contains(sorted@[t]));
            let w = choose|w: int| 0 <= w < parsed.len() && parsed[w] == sorted@[t];
            assert(parsed[w] == migration_of(files@[w]));
            lemma_digits_val_nonneg(
                match migration_name_parts(files@[w].name@) {
                    Some(p) => p.0,
                    None => Seq::empty(),
                },
            );
            lemma_digits_val_nonneg(
                match migration_name_parts(files@[w].name@) {
                    Some(p) => p.1,
                    None => Seq::empty(),
                },
            );
        }
    }
    Ok(sorted)
}

} // verus!
