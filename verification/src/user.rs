//! One service session: it arrives, is served for a random time within the
//! configured bounds, and departs.

use vstd::prelude::*;
use vstd::multiset::Multiset;

use crate::config::Config;
use crate::pool::PoolEntry;
use crate::sampling::sample_uniform_inclusive;

verus! {

broadcast use vstd::multiset::group_multiset_axioms;

/// The pool entries a sequence of users stands for, as a multiset.
pub open spec fn entries_multiset(s: Seq<User>) -> Multiset<PoolEntry>
    decreases s.len(),
{
    if s.len() == 0 {
        Multiset::<PoolEntry>::empty()
    } else {
        entries_multiset(s.drop_last()).insert(s.last().entry())
    }
}

/// The same users with every departure pushed back by `d` microseconds,
/// saturating at the top of the clock.
pub open spec fn shift_users(s: Seq<User>, d: u64) -> Seq<User> {
    s.map_values(
        |u: User| User { id: u.id, start: u.start, end: u.end.saturating_add(d) },
    )
}

/// A sequence's entries split at any point into the entries of the two parts.
pub proof fn lemma_entries_multiset_split(s: Seq<User>, n: int)
    requires
        0 <= n <= s.len(),
    ensures
        entries_multiset(s) == entries_multiset(s.take(n)).add(entries_multiset(s.skip(n))),
    decreases s.len(),
{
    if n == s.len() {
        assert(s.take(n) =~= s);
        assert(s.skip(n) =~= Seq::<User>::empty());
        assert(entries_multiset(s).add(entries_multiset(Seq::<User>::empty())) =~= entries_multiset(
            s,
        ));
    } else {
        lemma_entries_multiset_split(s.drop_last(), n);
        assert(s.drop_last().take(n) =~= s.take(n));
        assert(s.skip(n).drop_last() =~= s.drop_last().skip(n));
        assert(s.skip(n).last() == s.last());
        assert(entries_multiset(s.skip(n)) == entries_multiset(s.drop_last().skip(n)).insert(
            s.last().entry(),
        ));
        assert(entries_multiset(s) =~= entries_multiset(s.take(n)).add(
            entries_multiset(s.skip(n)),
        ));
    }
}

/// Every entry of a sequence's multiset comes from some element of it.
pub proof fn lemma_entries_contains_index(s: Seq<User>, x: PoolEntry)
    requires
        entries_multiset(s).contains(x),
    ensures
        exists|i: int| 0 <= i < s.len() && (#[trigger] s[i]).entry() == x,
    decreases s.len(),
{
    assert(s.len() > 0);
    if s.last().entry() == x {
        assert(s[s.len() - 1].entry() == x);
    } else {
        assert(entries_multiset(s.drop_last()).contains(x));
        lemma_entries_contains_index(s.drop_last(), x);
        let i = choose|i: int| 0 <= i < s.drop_last().len() && (#[trigger] s.drop_last()[i]).entry()
            == x;
        assert(s[i].entry() == x);
    }
}

/// Each element's entry is in the sequence's multiset.
pub proof fn lemma_index_in_entries(s: Seq<User>, i: int)
    requires
        0 <= i < s.len(),
    ensures
        entries_multiset(s).contains(s[i].entry()),
    decreases s.len(),
{
    if i == s.len() - 1 {
    } else {
        lemma_index_in_entries(s.drop_last(), i);
        assert(s.drop_last()[i] == s[i]);
    }
}

/// `entries_multiset` can be peeled from the front as well as from the back.
pub proof fn lemma_entries_multiset_cons(s: Seq<User>)
    requires
        s.len() > 0,
    ensures
        entries_multiset(s) == entries_multiset(s.drop_first()).insert(s.first().entry()),
        entries_multiset(s).len() == s.len(),
    decreases s.len(),
{
    if s.len() == 1 {
        assert(s.drop_last() =~= Seq::<User>::empty());
        assert(s.drop_first() =~= Seq::<User>::empty());
        assert(s.last() == s.first());
    } else {
        lemma_entries_multiset_cons(s.drop_last());
        assert(s.drop_last().drop_first() =~= s.drop_first().drop_last());
        assert(s.drop_last().first() == s.first());
        assert(s.drop_first().last() == s.last());
        assert(entries_multiset(s.drop_first()) == entries_multiset(
            s.drop_first().drop_last(),
        ).insert(s.drop_first().last().entry()));
        assert(entries_multiset(s) =~= entries_multiset(s.drop_first()).insert(
            s.first().entry(),
        ));
    }
}

/// An immutable service session. `end` is the scheduled departure time.
#[derive(Clone, Copy, PartialEq, Eq, Structural, Debug)]
pub struct User {
    pub id: u64,
    /// Arrival time, microseconds.
    pub start: u64,
    /// Scheduled departure time, microseconds.
    pub end: u64,
}

impl User {
    /// The pool-entry key of this user: departure first, so a station's heap
    /// releases the earliest departure, ties to the lower id.
    pub open spec fn entry(self) -> PoolEntry {
        (self.end, self.id, self.start)
    }

    /// Builds a user arriving now whose service time is drawn uniformly from
    /// the configured bounds (milliseconds, scaled here to microseconds).
    pub fn new(id: u64, curr_time: u64, rng: &mut rand::rngs::StdRng, cfg: &Config) -> (u: User)
        requires
            cfg.process_time_min <= cfg.process_time_max,
            cfg.process_time_max <= u64::MAX / 1000,
            curr_time + cfg.process_time_max * 1000 <= u64::MAX,
        ensures
            u.id == id,
            u.start == curr_time,
            curr_time + cfg.process_time_min * 1000 <= u.end <= curr_time + cfg.process_time_max
                * 1000,
    {
        let delay: u64 = sample_uniform_inclusive(
            rng,
            cfg.process_time_min * 1000,
            cfg.process_time_max * 1000,
        );
        User { id, start: curr_time, end: curr_time + delay }
    }

    /// The executable form of `entry`.
    pub fn to_entry(&self) -> (t: PoolEntry)
        ensures
            t == self.entry(),
    {
        (self.end, self.id, self.start)
    }

    /// Rebuilds the user a pool entry stands for.
    pub fn from_entry(t: PoolEntry) -> (u: User)
        ensures
            u.entry() == t,
            u.id == t.1 && u.start == t.2 && u.end == t.0,
    {
        User { id: t.1, start: t.2, end: t.0 }
    }
}

} // verus!
