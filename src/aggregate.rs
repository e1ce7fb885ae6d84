use crate::record::Record;
use crate::tally::{counters, ingest_one, lemma_tally_into_empty, lemma_tally_into_push, row_of, rows_of, tally_into, Counters, Row};
use vstd::prelude::*;

verus! {

/// Some record of `s` belongs to user `u`.
pub open spec fn holds_user(s: Seq<Record>, u: Seq<char>) -> bool {
    exists|i: int| 0 <= i < s.len() && (#[trigger] s[i]).user@ == u
}

/// The users of `s` are pairwise distinct.
pub open spec fn distinct_users(s: Seq<Record>) -> bool {
    forall|i: int, j: int| 0 <= i < s.len() && 0 <= j < s.len() && i != j ==> s[i].user@ != s[j].user@
}

/// The map from each user of `s` to the counters of its record.
pub open spec fn entries_map(s: Seq<Record>) -> Map<Seq<char>, Counters> {
    Map::new(
        |u: Seq<char>| holds_user(s, u),
        |u: Seq<char>| counters(s[choose|i: int| 0 <= i < s.len() && (#[trigger] s[i]).user@ == u]),
    )
}

/// The aggregation map: user identifier to merged record, one record per user.
pub struct Aggregator {
    entries: Vec<Record>,
}

impl View for Aggregator {
    type V = Map<Seq<char>, Counters>;

    closed spec fn view(&self) -> Map<Seq<char>, Counters> {
        entries_map(self.entries@)
    }
}

proof fn lemma_entries_map_at(s: Seq<Record>, i: int)
    requires
        distinct_users(s),
        0 <= i < s.len(),
    ensures
        entries_map(s).contains_key(s[i].user@),
        entries_map(s)[s[i].user@] == counters(s[i]),
{
    let u = s[i].user@;
    assert(holds_user(s, u));
    let j = choose|j: int| 0 <= j < s.len() && (#[trigger] s[j]).user@ == u;
    assert(i == j);
}

impl Aggregator {
    /// Well-formedness: one record per user.
    pub closed spec fn wf(&self) -> bool {
        distinct_users(self.entries@)
    }

    /// An empty aggregation map.
    pub fn new() -> (a: Aggregator)
        ensures
            a.wf(),
            a@ == Map::<Seq<char>, Counters>::empty(),
    {
        let a = Aggregator { entries: Vec::new() };
        assert(a@ =~= Map::<Seq<char>, Counters>::empty());
        a
    }

    /// The stored records, one per user, in no particular order.
    pub fn entries(&self) -> (e: &Vec<Record>)
        requires
            self.wf(),
        ensures
            distinct_users(e@),
            entries_map(e@) == self@,
    {
        &self.entries
    }

    /// Merges one record into the map: a user seen for the first time gets a
    /// zeroed record first; then the record's counters are added to it.
    pub fn ingest(&mut self, rec: &Record)
        requires
            old(self).wf(),
        ensures
            final(self).wf(),
            final(self)@ == ingest_one(old(self)@, row_of(*rec)),
    {
        let n = self.entries.len();
        let mut i: usize = 0;
        while i < n
            invariant
                n == self.entries.len(),
                self.entries@ == old(self).entries@,
                distinct_users(self.entries@),
                i <= n,
                forall|j: int| 0 <= j < i ==> (#[trigger] self.entries@[j]).user@ != rec.user@,
            decreases n - i,
        {
            if self.entries[i].user == rec.user {
                let mut e = self.entries[i].duplicate();
                e.merge_into(rec);
                let ghost old_s = self.entries@;
                self.entries.set(i, e);
                proof {
                    let s = self.entries@;
                    assert(distinct_users(s));
                    lemma_entries_map_at(old_s, i as int);
                    assert forall|u: Seq<char>| #![auto] holds_user(s, u) == holds_user(old_s, u) by {
                        if holds_user(old_s, u) {
                            let j = choose|j: int| 0 <= j < old_s.len() && (#[trigger] old_s[j]).user@ == u;
                            assert(s[j].user@ == u);
                        }
                        if holds_user(s, u) {
                            let j = choose|j: int| 0 <= j < s.len() && (#[trigger] s[j]).user@ == u;
                            assert(old_s[j].user@ == u);
                        }
                    }
                    assert forall|u: Seq<char>| holds_user(s, u) implies entries_map(s)[u]
                        == ingest_one(entries_map(old_s), row_of(*rec))[u] by {
                        let j = choose|j: int| 0 <= j < s.len() && (#[trigger] s[j]).user@ == u;
                        lemma_entries_map_at(s, j);
                        lemma_entries_map_at(old_s, j);
                    }
                    assert(entries_map(s) =~= ingest_one(entries_map(old_s), row_of(*rec)));
                }
                return;
            }
            i += 1;
        }
        let mut e = Record::new(rec.get_key());
        e.merge_into(rec);
        let ghost old_s = self.entries@;
        self.entries.push(e);
        proof {
            let s = self.entries@;
            assert(s[n as int].user@ == rec.user@);
            assert(!holds_user(old_s, rec.user@));
            assert forall|u: Seq<char>| #![auto] holds_user(s, u) == (holds_user(old_s, u) || u == rec.user@) by {
                if holds_user(old_s, u) {
                    let j = choose|j: int| 0 <= j < old_s.len() && (#[trigger] old_s[j]).user@ == u;
                    assert(s[j].user@ == u);
                }
                if holds_user(s, u) {
                    let j = choose|j: int| 0 <= j < s.len() && (#[trigger] s[j]).user@ == u;
                    if j < n {
                        assert(old_s[j].user@ == u);
                    }
                }
            }
            assert(distinct_users(s));
            assert forall|u: Seq<char>| holds_user(s, u) implies entries_map(s)[u]
                == ingest_one(entries_map(old_s), row_of(*rec))[u] by {
                let j = choose|j: int| 0 <= j < s.len() && (#[trigger] s[j]).user@ == u;
                lemma_entries_map_at(s, j);
                if j < n {
                    lemma_entries_map_at(old_s, j);
                }
            }
            assert(entries_map(s) =~= ingest_one(entries_map(old_s), row_of(*rec)));
        }
    }

    /// Merges every record of `rows` into the map, in order.
    pub fn ingest_all(&mut self, rows: &Vec<Record>)
        requires
            old(self).wf(),
        ensures
            final(self).wf(),
            final(self)@ == tally_into(old(self)@, rows_of(rows@)),
    {
        let ghost all = rows_of(rows@);
        proof {
            lemma_tally_into_empty(self@);
            assert(all.take(0) =~= Seq::<Row>::empty());
        }
        let mut i: usize = 0;
        while i < rows.len()
            invariant
                self.wf(),
                i <= rows.len(),
                all == rows_of(rows@),
                self@ == tally_into(old(self)@, all.take(i as int)),
            decreases rows.len() - i,
        {
            self.ingest(&rows[i]);
            proof {
                lemma_tally_into_push(old(self)@, all.take(i as int), row_of(rows@[i as int]));
                assert(all.take(i + 1) =~= all.take(i as int).push(row_of(rows@[i as int])));
            }
            i += 1;
        }
        assert(all.take(rows.len() as int) =~= all);
    }
}

} // verus!
