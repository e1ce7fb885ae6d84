use crate::record::{sat_add, Record};
use vstd::prelude::*;

verus! {

/// The three counters of one user: quests, raids, spawns.
pub type Counters = (u64, u64, u64);

/// One input row: user, quests, raids, spawns.
pub type Row = (Seq<char>, u64, u64, u64);

/// The row that a record stands for.
pub open spec fn row_of(r: Record) -> Row {
    (r.user@, r.quests, r.raids, r.spawns)
}

/// The rows that a sequence of records stands for.
pub open spec fn rows_of(s: Seq<Record>) -> Seq<Row> {
    s.map_values(|r: Record| row_of(r))
}

/// The counters of a record, as a triple.
pub open spec fn counters(r: Record) -> Counters {
    (r.quests, r.raids, r.spawns)
}

/// Counter number `k` of a row (0: quests, 1: raids, 2: spawns).
pub open spec fn counter(r: Row, k: int) -> nat {
    if k == 0 {
        r.1 as nat
    } else if k == 1 {
        r.2 as nat
    } else {
        r.3 as nat
    }
}

/// `n`, or `u64::MAX` where `n` is larger.
pub open spec fn capped(n: int) -> u64 {
    if n > u64::MAX {
        u64::MAX
    } else {
        n as u64
    }
}

/// Some row of `rows` belongs to user `u`.
pub open spec fn has_user(rows: Seq<Row>, u: Seq<char>) -> bool {
    exists|i: int| 0 <= i < rows.len() && (#[trigger] rows[i]).0 == u
}

/// The exact sum of counter `k` over the rows of user `u`.
pub open spec fn user_sum(rows: Seq<Row>, u: Seq<char>, k: int) -> nat
    decreases rows.len(),
{
    if rows.len() == 0 {
        0
    } else {
        user_sum(rows.drop_last(), u, k) + if rows.last().0 == u {
            counter(rows.last(), k)
        } else {
            0
        }
    }
}

/// The totals held for `u` after the rows are merged into `m`: each counter
/// is the earlier total (zero for a new user) plus the rows' sum, capped at
/// `u64::MAX`.
pub open spec fn merged_totals(m: Map<Seq<char>, Counters>, rows: Seq<Row>, u: Seq<char>) -> Counters {
    let base = if m.contains_key(u) {
        m[u]
    } else {
        (0u64, 0u64, 0u64)
    };
    (
        capped(base.0 + user_sum(rows, u, 0)),
        capped(base.1 + user_sum(rows, u, 1)),
        capped(base.2 + user_sum(rows, u, 2)),
    )
}

/// The aggregation map after merging `rows` into `m`: one entry per user of
/// `m` or of `rows`.
pub open spec fn tally_into(m: Map<Seq<char>, Counters>, rows: Seq<Row>) -> Map<Seq<char>, Counters> {
    Map::new(
        |u: Seq<char>| m.contains_key(u) || has_user(rows, u),
        |u: Seq<char>| merged_totals(m, rows, u),
    )
}

/// The aggregation map built from `rows` alone.
pub open spec fn tally(rows: Seq<Row>) -> Map<Seq<char>, Counters> {
    tally_into(Map::empty(), rows)
}

/// The map after one record is merged into `m`.
pub open spec fn ingest_one(m: Map<Seq<char>, Counters>, r: Row) -> Map<Seq<char>, Counters> {
    let base = if m.contains_key(r.0) {
        m[r.0]
    } else {
        (0u64, 0u64, 0u64)
    };
    m.insert(r.0, (sat_add(base.0, r.1), sat_add(base.1, r.2), sat_add(base.2, r.3)))
}

proof fn lemma_user_sum_push(s: Seq<Row>, r: Row, u: Seq<char>, k: int)
    ensures
        user_sum(s.push(r), u, k) == user_sum(s, u, k) + if r.0 == u {
            counter(r, k)
        } else {
            0
        },
{
    assert(s.push(r).drop_last() =~= s);
}

proof fn lemma_has_user_push(s: Seq<Row>, r: Row, u: Seq<char>)
    ensures
        has_user(s.push(r), u) == (has_user(s, u) || r.0 == u),
{
    let t = s.push(r);
    if has_user(s, u) {
        let j = choose|j: int| 0 <= j < s.len() && (#[trigger] s[j]).0 == u;
        assert(t[j].0 == u);
    }
    if r.0 == u {
        assert(t[s.len() as int].0 == u);
    }
    if has_user(t, u) {
        let j = choose|j: int| 0 <= j < t.len() && (#[trigger] t[j]).0 == u;
        if j < s.len() {
            assert(s[j].0 == u);
        }
    }
}

proof fn lemma_user_sum_absent(s: Seq<Row>, u: Seq<char>, k: int)
    requires
        !has_user(s, u),
    ensures
        user_sum(s, u, k) == 0,
    decreases s.len(),
{
    if s.len() > 0 {
        let t = s.drop_last();
        assert(t.push(s.last()) =~= s);
        lemma_has_user_push(t, s.last(), u);
        lemma_user_sum_absent(t, u, k);
    }
}

/// Merging no rows leaves the map as it is.
pub proof fn lemma_tally_into_empty(m: Map<Seq<char>, Counters>)
    ensures
        tally_into(m, Seq::empty()) == m,
{
    assert(tally_into(m, Seq::empty()) =~= m);
}

/// Merging rows one at a time: the map for `s` followed by `r` is the map for
/// `s` with `r` merged in.
pub proof fn lemma_tally_into_push(m: Map<Seq<char>, Counters>, s: Seq<Row>, r: Row)
    ensures
        tally_into(m, s.push(r)) == ingest_one(tally_into(m, s), r),
{
    let t = s.push(r);
    assert forall|u: Seq<char>| #![auto] has_user(t, u) == (has_user(s, u) || r.0 == u) by {
        lemma_has_user_push(s, r, u);
    }
    assert forall|u: Seq<char>| #![auto] tally_into(m, t).contains_key(u) implies tally_into(m, t)[u]
        == ingest_one(tally_into(m, s), r)[u] by {
        lemma_user_sum_push(s, r, u, 0);
        lemma_user_sum_push(s, r, u, 1);
        lemma_user_sum_push(s, r, u, 2);
        if !tally_into(m, s).contains_key(u) {
            lemma_user_sum_absent(s, u, 0);
            lemma_user_sum_absent(s, u, 1);
            lemma_user_sum_absent(s, u, 2);
        }
    }
    assert(tally_into(m, t) =~= ingest_one(tally_into(m, s), r));
}

proof fn lemma_user_sum_concat(a: Seq<Row>, b: Seq<Row>, u: Seq<char>, k: int)
    ensures
        user_sum(a + b, u, k) == user_sum(a, u, k) + user_sum(b, u, k),
    decreases b.len(),
{
    if b.len() == 0 {
        assert(a + b =~= a);
    } else {
        assert((a + b).drop_last() =~= a + b.drop_last());
        assert((a + b).last() == b.last());
        lemma_user_sum_concat(a, b.drop_last(), u, k);
    }
}

proof fn lemma_has_user_concat(a: Seq<Row>, b: Seq<Row>, u: Seq<char>)
    ensures
        has_user(a + b, u) == (has_user(a, u) || has_user(b, u)),
{
    let t = a + b;
    if has_user(a, u) {
        let j = choose|j: int| 0 <= j < a.len() && (#[trigger] a[j]).0 == u;
        assert(t[j].0 == u);
    }
    if has_user(b, u) {
        let j = choose|j: int| 0 <= j < b.len() && (#[trigger] b[j]).0 == u;
        assert(t[a.len() + j].0 == u);
    }
    if has_user(t, u) {
        let j = choose|j: int| 0 <= j < t.len() && (#[trigger] t[j]).0 == u;
        if j < a.len() {
            assert(a[j].0 == u);
        } else {
            assert(b[j - a.len()].0 == u);
        }
    }
}

/// Reading one batch of rows after another gives the same map as reading
/// them together: files may be merged into the map one at a time.
pub proof fn lemma_tally_into_concat(m: Map<Seq<char>, Counters>, a: Seq<Row>, b: Seq<Row>)
    ensures
        tally_into(tally_into(m, a), b) == tally_into(m, a + b),
{
    assert forall|u: Seq<char>| #![auto] has_user(a + b, u) == (has_user(a, u) || has_user(b, u)) by {
        lemma_has_user_concat(a, b, u);
    }
    assert forall|u: Seq<char>| #![auto] tally_into(m, a + b).contains_key(u) implies tally_into(tally_into(m, a), b)[u]
        == tally_into(m, a + b)[u] by {
        lemma_user_sum_concat(a, b, u, 0);
        lemma_user_sum_concat(a, b, u, 1);
        lemma_user_sum_concat(a, b, u, 2);
        if !tally_into(m, a).contains_key(u) {
            lemma_user_sum_absent(a, u, 0);
            lemma_user_sum_absent(a, u, 1);
            lemma_user_sum_absent(a, u, 2);
        }
    }
    assert(tally_into(tally_into(m, a), b) =~= tally_into(m, a + b));
}

proof fn lemma_user_sum_remove(s: Seq<Row>, j: int, u: Seq<char>, k: int)
    requires
        0 <= j < s.len(),
    ensures
        user_sum(s, u, k) == user_sum(s.remove(j), u, k) + if s[j].0 == u {
            counter(s[j], k)
        } else {
            0
        },
    decreases s.len(),
{
    if j == s.len() - 1 {
        assert(s.remove(j) =~= s.drop_last());
    } else {
        assert(s.remove(j).drop_last() =~= s.drop_last().remove(j));
        assert(s.remove(j).last() == s.last());
        lemma_user_sum_remove(s.drop_last(), j, u, k);
    }
}

proof fn lemma_has_user_multiset(a: Seq<Row>, b: Seq<Row>, u: Seq<char>)
    requires
        a.to_multiset() == b.to_multiset(),
        has_user(a, u),
    ensures
        has_user(b, u),
{
    broadcast use vstd::seq_lib::group_to_multiset_ensures;

    let j = choose|j: int| 0 <= j < a.len() && (#[trigger] a[j]).0 == u;
    assert(a.contains(a[j]));
    assert(a.to_multiset().count(a[j]) > 0);
    assert(b.to_multiset().count(a[j]) > 0);
    assert(b.contains(a[j]));
    let i = choose|i: int| 0 <= i < b.len() && b[i] == a[j];
    assert(b[i].0 == u);
}

proof fn lemma_user_sum_multiset(a: Seq<Row>, b: Seq<Row>, u: Seq<char>, k: int)
    requires
        a.to_multiset() == b.to_multiset(),
    ensures
        user_sum(a, u, k) == user_sum(b, u, k),
    decreases a.len(),
{
    broadcast use vstd::seq_lib::group_to_multiset_ensures;

    if a.len() == 0 {
        vstd::seq_lib::to_multiset_len(a);
        vstd::seq_lib::to_multiset_len(b);
        assert(b.len() == 0);
        assert(b =~= Seq::<Row>::empty());
    } else {
        let x = a.last();
        let a1 = a.drop_last();
        assert(a1.push(x) =~= a);
        assert(a.to_multiset() == a1.to_multiset().insert(x));
        assert(b.contains(x)) by {
            assert(a.to_multiset().count(x) > 0);
        }
        let j = choose|j: int| 0 <= j < b.len() && b[j] == x;
        let b1 = b.remove(j);
        assert(b1.to_multiset() == b.to_multiset().remove(x));
        assert(a1.to_multiset() =~= b1.to_multiset());
        lemma_user_sum_multiset(a1, b1, u, k);
        lemma_user_sum_remove(b, j, u, k);
    }
}

/// The map does not depend on the order of the rows: any reordering of the
/// same rows, within or across files, yields the same per-user totals.
pub proof fn lemma_tally_into_reorder(m: Map<Seq<char>, Counters>, a: Seq<Row>, b: Seq<Row>)
    requires
        a.to_multiset() == b.to_multiset(),
    ensures
        tally_into(m, a) == tally_into(m, b),
{
    assert forall|u: Seq<char>| #![auto] has_user(a, u) == has_user(b, u) by {
        if has_user(a, u) {
            lemma_has_user_multiset(a, b, u);
        }
        if has_user(b, u) {
            lemma_has_user_multiset(b, a, u);
        }
    }
    assert forall|u: Seq<char>| #![auto] tally_into(m, a).contains_key(u) implies tally_into(m, a)[u]
        == tally_into(m, b)[u] by {
        lemma_user_sum_multiset(a, b, u, 0);
        lemma_user_sum_multiset(a, b, u, 1);
        lemma_user_sum_multiset(a, b, u, 2);
    }
    assert(tally_into(m, a) =~= tally_into(m, b));
}

/// After aggregation each user of the rows holds exactly one entry, whose
/// counters are the sums of that user's counters over all rows (capped at
/// `u64::MAX`, so exact wherever the sum fits); no other user has an entry.
pub proof fn lemma_tally_sums(rows: Seq<Row>, u: Seq<char>)
    ensures
        tally(rows).contains_key(u) == has_user(rows, u),
        has_user(rows, u) ==> tally(rows)[u] == (
            capped(user_sum(rows, u, 0) as int),
            capped(user_sum(rows, u, 1) as int),
            capped(user_sum(rows, u, 2) as int),
        ),
        has_user(rows, u) && user_sum(rows, u, 0) <= u64::MAX ==> tally(rows)[u].0 == user_sum(rows, u, 0),
        has_user(rows, u) && user_sum(rows, u, 1) <= u64::MAX ==> tally(rows)[u].1 == user_sum(rows, u, 1),
        has_user(rows, u) && user_sum(rows, u, 2) <= u64::MAX ==> tally(rows)[u].2 == user_sum(rows, u, 2),
{
}

} // verus!
