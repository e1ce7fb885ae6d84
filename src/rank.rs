use crate::aggregate::{distinct_users, entries_map, holds_user, Aggregator};
use crate::record::{lemma_rank_total_preorder, rank_cmp, score, Record};
use std::cmp::Ordering;
use vstd::prelude::*;

verus! {

/// Every record of `s` ranks before or ties with every later one.
pub open spec fn ranked_order(s: Seq<Record>) -> bool {
    forall|i: int, j: int| 0 <= i < j < s.len() ==> rank_cmp(s[i], s[j]) != Ordering::Greater
}

proof fn lemma_insert_ranked(s: Seq<Record>, pos: int, x: Record)
    requires
        ranked_order(s),
        0 <= pos <= s.len(),
        forall|k: int| 0 <= k < pos ==> rank_cmp(x, #[trigger] s[k]) != Ordering::Less,
        pos < s.len() ==> rank_cmp(x, s[pos]) == Ordering::Less,
    ensures
        ranked_order(s.insert(pos, x)),
{
    let t = s.insert(pos, x);
    assert forall|i: int, j: int| 0 <= i < j < t.len() implies rank_cmp(t[i], t[j]) != Ordering::Greater by {
        if i == pos {
            lemma_rank_total_preorder(x, s[pos], s[j - 1]);
        } else if j == pos {
            lemma_rank_total_preorder(s[i], x, x);
        }
    }
}

proof fn lemma_entries_map_insert(s: Seq<Record>, pos: int, x: Record)
    requires
        distinct_users(s),
        !holds_user(s, x.user@),
        0 <= pos <= s.len(),
    ensures
        distinct_users(s.insert(pos, x)),
        entries_map(s.insert(pos, x)) == entries_map(s).insert(x.user@, (x.quests, x.raids, x.spawns)),
{
    let t = s.insert(pos, x);
    assert forall|k: int| 0 <= k < s.len() implies (#[trigger] s[k]).user@ != x.user@ by {
        if s[k].user@ == x.user@ {
            assert(holds_user(s, x.user@));
        }
    }
    assert(distinct_users(t));
    let m = entries_map(s).insert(x.user@, (x.quests, x.raids, x.spawns));
    assert forall|u: Seq<char>| #![auto] holds_user(t, u) == (holds_user(s, u) || u == x.user@) by {
        if holds_user(s, u) {
            let j = choose|j: int| 0 <= j < s.len() && (#[trigger] s[j]).user@ == u;
            if j < pos {
                assert(t[j].user@ == u);
            } else {
                assert(t[j + 1].user@ == u);
            }
        }
        if u == x.user@ {
            assert(t[pos].user@ == u);
        }
        if holds_user(t, u) {
            let j = choose|j: int| 0 <= j < t.len() && (#[trigger] t[j]).user@ == u;
            if j < pos {
                assert(s[j].user@ == u);
            } else if j > pos {
                assert(s[j - 1].user@ == u);
            }
        }
    }
    assert forall|u: Seq<char>| holds_user(t, u) implies entries_map(t)[u] == m[u] by {
        let j = choose|j: int| 0 <= j < t.len() && (#[trigger] t[j]).user@ == u;
        let i = choose|i: int| 0 <= i < t.len() && (#[trigger] t[i]).user@ == u;
        assert(i == j);
        if j < pos {
            let i2 = choose|i: int| 0 <= i < s.len() && (#[trigger] s[i]).user@ == u;
            assert(i2 == j);
        } else if j > pos {
            let i2 = choose|i: int| 0 <= i < s.len() && (#[trigger] s[i]).user@ == u;
            assert(i2 == j - 1);
        }
    }
    assert(entries_map(t) =~= m);
}

impl Aggregator {
    /// Every aggregated record, in ranking order: higher `quests + raids`
    /// first, and among equal totals fewer spawns first. The map is not
    /// changed.
    pub fn ranked(&self) -> (out: Vec<Record>)
        requires
            self.wf(),
        ensures
            ranked_order(out@),
            distinct_users(out@),
            entries_map(out@) == self@,
    {
        let entries = self.entries();
        let n = entries.len();
        let mut out: Vec<Record> = Vec::new();
        let mut i: usize = 0;
        proof {
            assert(entries@.take(0) =~= Seq::<Record>::empty());
            assert(entries_map(out@) =~= entries_map(entries@.take(0)));
        }
        while i < n
            invariant
                n == entries.len(),
                i <= n,
                distinct_users(entries@),
                ranked_order(out@),
                distinct_users(out@),
                entries_map(out@) == entries_map(entries@.take(i as int)),
            decreases n - i,
        {
            let rec = entries[i].duplicate();
            let ghost before = entries@.take(i as int);
            proof {
                assert(!holds_user(before, rec.user@)) by {
                    if holds_user(before, rec.user@) {
                        let j = choose|j: int| 0 <= j < before.len() && (#[trigger] before[j]).user@ == rec.user@;
                        assert(entries@[j].user@ == entries@[i as int].user@);
                    }
                }
                assert(entries_map(before).dom().contains(rec.user@) == holds_user(before, rec.user@));
                assert(entries_map(out@).dom().contains(rec.user@) == holds_user(out@, rec.user@));
                assert(entries@.take(i + 1) =~= before.insert(i as int, rec));
                assert(before.insert(i as int, rec) =~= before.push(rec));
            }
            let mut pos: usize = 0;
            loop
                invariant
                    pos <= out.len(),
                    forall|k: int| 0 <= k < pos ==> rank_cmp(rec, #[trigger] out@[k]) != Ordering::Less,
                ensures
                    pos <= out.len(),
                    forall|k: int| 0 <= k < pos ==> rank_cmp(rec, #[trigger] out@[k]) != Ordering::Less,
                    pos < out.len() ==> rank_cmp(rec, out@[pos as int]) == Ordering::Less,
                decreases out.len() - pos,
            {
                if pos == out.len() {
                    break;
                }
                match rec.compare(&out[pos]) {
                    Ordering::Less => break,
                    _ => {},
                }
                pos += 1;
            }
            proof {
                lemma_insert_ranked(out@, pos as int, rec);
                lemma_entries_map_insert(out@, pos as int, rec);
                lemma_entries_map_insert(before, i as int, rec);
            }
            out.insert(pos, rec);
            i += 1;
        }
        assert(entries@.take(n as int) =~= entries@);
        out
    }
}

/// In ranked output, a record with a higher `quests + raids` total comes
/// before one with a lower total, and among equal totals the one with fewer
/// spawns comes first.
pub proof fn lemma_ranked_positions(s: Seq<Record>, i: int, j: int)
    requires
        ranked_order(s),
        0 <= i < s.len(),
        0 <= j < s.len(),
        score(s[i]) > score(s[j]) || (score(s[i]) == score(s[j]) && s[i].spawns < s[j].spawns),
    ensures
        i < j,
{
    if j < i {
        assert(rank_cmp(s[j], s[i]) != Ordering::Greater);
    }
}

} // verus!
