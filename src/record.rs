use std::cmp::Ordering;
use vstd::prelude::*;

verus! {

/// The per-user aggregate of three gameplay counters.
///
/// Two records are equal when their counters are equal; the user identifier
/// takes no part in equality, only in keying the aggregation.
#[derive(Debug, Eq)]
pub struct Record {
    pub user: String,
    pub quests: u64,
    pub raids: u64,
    pub spawns: u64,
}

/// Addition of counters that stops at `u64::MAX` instead of overflowing.
pub open spec fn sat_add(a: u64, b: u64) -> u64 {
    if a + b > u64::MAX {
        u64::MAX
    } else {
        (a + b) as u64
    }
}

/// The primary ranking key: quests plus raids, as an unbounded integer.
pub open spec fn score(r: Record) -> int {
    r.quests + r.raids
}

/// The ranking order: higher score first; among equal scores, fewer spawns first.
pub open spec fn rank_cmp(a: Record, b: Record) -> Ordering {
    if score(a) > score(b) {
        Ordering::Less
    } else if score(a) < score(b) {
        Ordering::Greater
    } else if a.spawns < b.spawns {
        Ordering::Less
    } else if a.spawns > b.spawns {
        Ordering::Greater
    } else {
        Ordering::Equal
    }
}

/// Equality of records: the three counters agree.
pub open spec fn same_counters(a: Record, b: Record) -> bool {
    a.quests == b.quests && a.raids == b.raids && a.spawns == b.spawns
}

impl Record {
    /// A record for `user` with every counter at zero.
    pub fn new(user: String) -> (r: Record)
        ensures
            r.user == user,
            r.quests == 0,
            r.raids == 0,
            r.spawns == 0,
    {
        Record { user, quests: 0, raids: 0, spawns: 0 }
    }

    /// The aggregation key: a copy of the user identifier.
    pub fn get_key(&self) -> (k: String)
        ensures
            k == self.user,
    {
        self.user.clone()
    }

    /// A copy of the whole record.
    pub fn duplicate(&self) -> (r: Record)
        ensures
            r == *self,
    {
        Record { user: self.user.clone(), quests: self.quests, raids: self.raids, spawns: self.spawns }
    }

    /// Adds `other`'s counters into `self`, component-wise; the user is kept.
    /// A sum that would pass `u64::MAX` stays at `u64::MAX`.
    pub fn merge_into(&mut self, other: &Record)
        ensures
            final(self).user == old(self).user,
            final(self).quests == sat_add(old(self).quests, other.quests),
            final(self).raids == sat_add(old(self).raids, other.raids),
            final(self).spawns == sat_add(old(self).spawns, other.spawns),
    {
        self.quests = saturating(self.quests, other.quests);
        self.raids = saturating(self.raids, other.raids);
        self.spawns = saturating(self.spawns, other.spawns);
    }

    /// Compares two records in ranking order (see `rank_cmp`): `Less` means
    /// that `self` ranks before `other`.
    pub fn compare(&self, other: &Record) -> (o: Ordering)
        ensures
            o == rank_cmp(*self, *other),
    {
        let a: u128 = self.quests as u128 + self.raids as u128;
        let b: u128 = other.quests as u128 + other.raids as u128;
        if a > b {
            Ordering::Less
        } else if a < b {
            Ordering::Greater
        } else if self.spawns < other.spawns {
            Ordering::Less
        } else if self.spawns > other.spawns {
            Ordering::Greater
        } else {
            Ordering::Equal
        }
    }
}

fn saturating(a: u64, b: u64) -> (r: u64)
    ensures
        r == sat_add(a, b),
{
    if a > u64::MAX - b {
        u64::MAX
    } else {
        a + b
    }
}

impl PartialEq for Record {
    fn eq(&self, other: &Record) -> (r: bool) {
        self.quests == other.quests && self.raids == other.raids && self.spawns == other.spawns
    }
}

impl vstd::std_specs::cmp::PartialEqSpecImpl for Record {
    open spec fn obeys_eq_spec() -> bool {
        true
    }

    open spec fn eq_spec(&self, other: &Record) -> bool {
        same_counters(*self, *other)
    }
}

impl PartialOrd for Record {
    fn partial_cmp(&self, other: &Record) -> (r: Option<Ordering>) {
        Some(self.compare(other))
    }
}

impl vstd::std_specs::cmp::PartialOrdSpecImpl for Record {
    open spec fn obeys_partial_cmp_spec() -> bool {
        true
    }

    open spec fn partial_cmp_spec(&self, other: &Record) -> Option<Ordering> {
        Some(rank_cmp(*self, *other))
    }
}

/// The ranking order is a total preorder: every pair is comparable, the
/// comparison is antisymmetric, and `Less`-or-`Equal` is transitive.
pub proof fn lemma_rank_total_preorder(a: Record, b: Record, c: Record)
    ensures
        rank_cmp(a, a) == Ordering::Equal,
        rank_cmp(a, b) == Ordering::Less <==> rank_cmp(b, a) == Ordering::Greater,
        rank_cmp(a, b) == Ordering::Equal <==> rank_cmp(b, a) == Ordering::Equal,
        rank_cmp(a, b) != Ordering::Greater && rank_cmp(b, c) != Ordering::Greater
            ==> rank_cmp(a, c) != Ordering::Greater,
        rank_cmp(a, b) == Ordering::Less && rank_cmp(b, c) != Ordering::Greater
            ==> rank_cmp(a, c) == Ordering::Less,
{
}

} // verus!
