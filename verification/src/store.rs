//! The persistence model: one configuration singleton and two keyed maps,
//! polls by poll id and ballots by (voter, poll id). Keys are kept in strict
//! ascending lexicographic order, so a range scan is deterministic and does
//! not depend on insertion order.

use vstd::prelude::*;

use crate::error::ContractError;
use crate::state::{Ballot, BallotV, Config, ConfigV, Poll, PollV};
use crate::strings::{lemma_lex_lt_trans, lemma_lex_lt_trichotomy, lex_lt, str_lt};

verus! {

/// Strict ascending key order over a poll association sequence; it also
/// makes every key unique.
pub open spec fn polls_sorted(s: Seq<(Seq<char>, PollV)>) -> bool {
    forall|i: int, j: int| 0 <= i < j < s.len() ==> lex_lt(s[i].0, s[j].0)
}

/// Point lookup in a poll association sequence: the value at the first pair
/// whose key equals `k`, if any.
pub open spec fn poll_lookup(s: Seq<(Seq<char>, PollV)>, k: Seq<char>) -> Option<PollV>
    decreases s.len(),
{
    if s.len() == 0 {
        None
    } else if s[0].0 == k {
        Some(s[0].1)
    } else {
        poll_lookup(s.skip(1), k)
    }
}

/// Insertion into a sorted poll association sequence: an existing pair with
/// key `k` is overwritten in place, otherwise the new pair lands at the
/// position the order assigns it.
pub open spec fn poll_insert(s: Seq<(Seq<char>, PollV)>, k: Seq<char>, v: PollV) -> Seq<
    (Seq<char>, PollV),
>
    decreases s.len(),
{
    if s.len() == 0 {
        seq![(k, v)]
    } else if lex_lt(k, s[0].0) {
        seq![(k, v)] + s
    } else if k == s[0].0 {
        seq![(k, v)] + s.skip(1)
    } else {
        seq![s[0]] + poll_insert(s.skip(1), k, v)
    }
}

/// Where `poll_insert` puts the new pair: at the index `i` of the first key
/// not below `k` — replacing the pair there when its key equals `k`.
pub proof fn lemma_poll_insert_at(s: Seq<(Seq<char>, PollV)>, k: Seq<char>, v: PollV, i: int)
    requires
        polls_sorted(s),
        0 <= i <= s.len(),
        forall|j: int| 0 <= j < i ==> lex_lt(#[trigger] s[j].0, k),
        i < s.len() ==> !lex_lt(s[i].0, k),
    ensures
        i < s.len() && s[i].0 == k ==> poll_insert(s, k, v) =~= s.update(i, (k, v)),
        !(i < s.len() && s[i].0 == k) ==> poll_insert(s, k, v) =~= s.subrange(0, i).push((k, v))
            + s.skip(i),
    decreases s.len(),
{
    if i == 0 {
        if s.len() > 0 && s[0].0 == k {
            assert(!lex_lt(k, s[0].0)) by {
                lemma_lex_lt_trichotomy(k, s[0].0);
            }
            assert(poll_insert(s, k, v) =~= s.update(0, (k, v)));
        } else if s.len() == 0 {
            assert(poll_insert(s, k, v) =~= s.subrange(0, 0).push((k, v)) + s.skip(0));
        } else {
            lemma_lex_lt_trichotomy(k, s[0].0);
            assert(lex_lt(k, s[0].0));
            assert(poll_insert(s, k, v) =~= s.subrange(0, 0).push((k, v)) + s.skip(0));
        }
    } else {
        lemma_lex_lt_trichotomy(k, s[0].0);
        assert(lex_lt(s[0].0, k));
        let tail = s.skip(1);
        assert(polls_sorted(tail)) by {
            assert forall|m: int, n: int| 0 <= m < n < tail.len() implies lex_lt(
                tail[m].0,
                tail[n].0,
            ) by {
                assert(tail[m] == s[m + 1]);
                assert(tail[n] == s[n + 1]);
            }
        }
        assert forall|j: int| 0 <= j < i - 1 implies lex_lt(#[trigger] tail[j].0, k) by {
            assert(tail[j] == s[j + 1]);
        }
        assert(i - 1 < tail.len() ==> !lex_lt(tail[i - 1].0, k));
        lemma_poll_insert_at(tail, k, v, i - 1);
        assert(poll_insert(s, k, v) == seq![s[0]] + poll_insert(tail, k, v));
        if i < s.len() && s[i].0 == k {
            assert(poll_insert(tail, k, v) =~= tail.update(i - 1, (k, v)));
            assert(poll_insert(s, k, v) =~= s.update(i, (k, v)));
        } else {
            assert(poll_insert(tail, k, v) =~= tail.subrange(0, i - 1).push((k, v)) + tail.skip(
                i - 1,
            ));
            assert(poll_insert(s, k, v) =~= s.subrange(0, i).push((k, v)) + s.skip(i));
        }
    }
}

/// Inserting at the position of `lemma_poll_insert_at` keeps the sequence
/// sorted.
pub proof fn lemma_poll_insert_sorted(s: Seq<(Seq<char>, PollV)>, k: Seq<char>, v: PollV, i: int)
    requires
        polls_sorted(s),
        0 <= i <= s.len(),
        forall|j: int| 0 <= j < i ==> lex_lt(#[trigger] s[j].0, k),
        i < s.len() ==> !lex_lt(s[i].0, k),
    ensures
        polls_sorted(poll_insert(s, k, v)),
{
    lemma_poll_insert_at(s, k, v, i);
    if i < s.len() && s[i].0 == k {
        let r = s.update(i, (k, v));
        assert forall|m: int, n: int| 0 <= m < n < r.len() implies lex_lt(r[m].0, r[n].0) by {
            assert(r[m].0 == s[m].0);
            assert(r[n].0 == s[n].0);
        }
    } else {
        let r = s.subrange(0, i).push((k, v)) + s.skip(i);
        assert forall|j: int| i <= j < s.len() implies lex_lt(k, #[trigger] s[j].0) by {
            lemma_lex_lt_trichotomy(k, s[i].0);
            if j > i {
                lemma_lex_lt_trans(k, s[i].0, s[j].0);
            }
        }
        assert forall|m: int, n: int| 0 <= m < n < r.len() implies lex_lt(r[m].0, r[n].0) by {
            if m < i {
                assert(r[m] == s[m]);
            } else if m == i {
                assert(r[m] == (k, v));
            } else {
                assert(r[m] == s[m - 1]);
            }
            if n < i {
                assert(r[n] == s[n]);
            } else if n == i {
                assert(r[n] == (k, v));
            } else {
                assert(r[n] == s[n - 1]);
            }
        }
        assert(polls_sorted(r));
    }
}

/// How `poll_insert` answers lookups: the inserted key maps to the new
/// value, every other key to what it mapped to before.
pub proof fn lemma_poll_lookup_insert(
    s: Seq<(Seq<char>, PollV)>,
    k: Seq<char>,
    v: PollV,
    q: Seq<char>,
)
    ensures
        q == k ==> poll_lookup(poll_insert(s, k, v), q) == Some(v),
        q != k ==> poll_lookup(poll_insert(s, k, v), q) == poll_lookup(s, q),
    decreases s.len(),
{
    if s.len() == 0 {
        let r = seq![(k, v)];
        assert(poll_insert(s, k, v) == r);
        assert(r[0] == (k, v));
        assert(r.skip(1) =~= Seq::<(Seq<char>, PollV)>::empty());
        if q != k {
            assert(r[0].0 != q);
            assert(poll_lookup(r, q) == poll_lookup(r.skip(1), q));
            assert(poll_lookup(r.skip(1), q) == None::<PollV>);
        }
        assert(q != k ==> poll_lookup(poll_insert(s, k, v), q) == poll_lookup(s, q));
    } else if lex_lt(k, s[0].0) {
        let r = seq![(k, v)] + s;
        assert(poll_insert(s, k, v) == r);
        assert(r[0] == (k, v));
        assert(r.skip(1) =~= s);
        assert(q != k ==> poll_lookup(poll_insert(s, k, v), q) == poll_lookup(s, q));
    } else if k == s[0].0 {
        let r = seq![(k, v)] + s.skip(1);
        assert(poll_insert(s, k, v) == r);
        assert(r[0] == (k, v));
        assert(r.skip(1) =~= s.skip(1));
        if q != k {
            assert(poll_lookup(r, q) == poll_lookup(s.skip(1), q));
            assert(poll_lookup(s, q) == poll_lookup(s.skip(1), q));
        }
        assert(q != k ==> poll_lookup(poll_insert(s, k, v), q) == poll_lookup(s, q));
    } else {
        let r = seq![s[0]] + poll_insert(s.skip(1), k, v);
        assert(poll_insert(s, k, v) == r);
        assert(r[0] == s[0]);
        assert(r.len() > 0);
        assert(r.skip(1) =~= poll_insert(s.skip(1), k, v));
        lemma_poll_lookup_insert(s.skip(1), k, v, q);
        assert(q != k ==> poll_lookup(poll_insert(s, k, v), q) == poll_lookup(s, q));
    }
}

/// The explicit store handle every operation is given: the configuration
/// singleton and the two keyed maps, with their keys held in strict
/// ascending order.
pub struct Store {
    config: Option<Config>,
    polls: Vec<(String, Poll)>,
    ballots: Vec<((String, String), Ballot)>,
}

impl Store {
    /// The configuration singleton, if initialization has written it.
    pub closed spec fn config_view(self) -> Option<ConfigV> {
        match self.config {
            Some(c) => Some(c@),
            None => None,
        }
    }

    /// The poll map in stored (ascending key) order.
    pub closed spec fn polls_view(self) -> Seq<(Seq<char>, PollV)> {
        self.polls@.map_values(|p: (String, Poll)| (p.0@, p.1@))
    }

    /// The ballot map in stored order, keyed by (voter, poll id).
    pub closed spec fn ballots_view(self) -> Seq<((Seq<char>, Seq<char>), BallotV)> {
        self.ballots@.map_values(|p: ((String, String), Ballot)| ((p.0.0@, p.0.1@), p.1@))
    }

    /// Well-formedness: both maps are sorted strictly ascending, so every
    /// key occurs at most once and scans are deterministic.
    pub open spec fn wf(self) -> bool {
        &&& polls_sorted(self.polls_view())
        &&& ballots_sorted(self.ballots_view())
    }

    /// An empty store: nothing initialized, no polls, no ballots.
    pub fn new() -> (s: Store)
        ensures
            s.wf(),
            s.config_view() == None::<ConfigV>,
            s.polls_view() == Seq::<(Seq<char>, PollV)>::empty(),
            s.ballots_view() == Seq::<((Seq<char>, Seq<char>), BallotV)>::empty(),
    {
        let s = Store { config: None, polls: Vec::new(), ballots: Vec::new() };
        proof {
            assert(s.polls_view() =~= Seq::<(Seq<char>, PollV)>::empty());
            assert(s.ballots_view() =~= Seq::<((Seq<char>, Seq<char>), BallotV)>::empty());
        }
        s
    }

    /// Writes the configuration singleton, overwriting any prior value.
    pub fn config_save(&mut self, config: Config)
        ensures
            final(self).config_view() == Some(config@),
            final(self).polls_view() == old(self).polls_view(),
            final(self).ballots_view() == old(self).ballots_view(),
            old(self).wf() ==> final(self).wf(),
    {
        self.config = Some(config);
    }

    /// Reads the configuration singleton; `NotFound` before initialization.
    pub fn config_load(&self) -> (r: Result<Config, ContractError>)
        ensures
            match r {
                Ok(c) => self.config_view() == Some(c@),
                Err(e) => e == ContractError::NotFound && self.config_view() == None::<ConfigV>,
            },
    {
        match &self.config {
            Some(c) => Ok(c.clone()),
            None => Err(ContractError::NotFound),
        }
    }

    /// Writes `poll` under `id`, overwriting any prior poll with that id.
    pub fn polls_save(&mut self, id: String, poll: Poll)
        requires
            old(self).wf(),
        ensures
            final(self).wf(),
            final(self).polls_view() == poll_insert(old(self).polls_view(), id@, poll@),
            final(self).config_view() == old(self).config_view(),
            final(self).ballots_view() == old(self).ballots_view(),
    {
        let ghost s0 = self.polls_view();
        let mut i: usize = 0;
        while i < self.polls.len() && str_lt(self.polls[i].0.as_str(), id.as_str())
            invariant
                i <= self.polls.len(),
                s0 == self.polls_view(),
                forall|j: int| 0 <= j < i ==> lex_lt(#[trigger] s0[j].0, id@),
            decreases self.polls.len() - i,
        {
            i = i + 1;
        }
        proof {
            assert(i < s0.len() ==> !lex_lt(s0[i as int].0, id@));
        }
        if i < self.polls.len() && self.polls[i].0 == id {
            self.polls[i] = (id, poll);
            proof {
                lemma_poll_insert_at(s0, id@, poll@, i as int);
                lemma_poll_insert_sorted(s0, id@, poll@, i as int);
                assert(self.polls_view() =~= s0.update(i as int, (id@, poll@)));
            }
        } else {
            self.polls.insert(i, (id, poll));
            proof {
                lemma_poll_insert_at(s0, id@, poll@, i as int);
                lemma_poll_insert_sorted(s0, id@, poll@, i as int);
                assert(self.polls_view() =~= s0.subrange(0, i as int).push((id@, poll@)) + s0.skip(
                    i as int,
                ));
            }
        }
    }

    /// Point lookup of a poll by id; absence is a normal result.
    pub fn polls_may_load(&self, id: &String) -> (r: Option<Poll>)
        ensures
            match r {
                Some(p) => poll_lookup(self.polls_view(), id@) == Some(p@),
                None => poll_lookup(self.polls_view(), id@) == None::<PollV>,
            },
    {
        let ghost s = self.polls_view();
        proof {
            assert(s.skip(0) =~= s);
        }
        let mut i: usize = 0;
        while i < self.polls.len()
            invariant
                i <= self.polls.len(),
                s == self.polls_view(),
                poll_lookup(s, id@) == poll_lookup(s.skip(i as int), id@),
            decreases self.polls.len() - i,
        {
            if self.polls[i].0 == *id {
                return Some(self.polls[i].1.clone());
            }
            proof {
                assert(s.skip(i as int).skip(1) =~= s.skip(i + 1));
            }
            i = i + 1;
        }
        None
    }

    /// Full ascending range scan over the poll map: every (id, poll) pair,
    /// in ascending order of the id.
    pub fn polls_range(&self) -> (r: Vec<(String, Poll)>)
        ensures
            r@.map_values(|p: (String, Poll)| (p.0@, p.1@)) == self.polls_view(),
    {
        let mut r: Vec<(String, Poll)> = Vec::new();
        let mut i: usize = 0;
        while i < self.polls.len()
            invariant
                i <= self.polls.len(),
                r@.len() == i as int,
                forall|j: int|
                    0 <= j < i ==> (#[trigger] r@[j]).0@ == self.polls_view()[j].0 && r@[j].1@
                        == self.polls_view()[j].1,
            decreases self.polls.len() - i,
        {
            r.push((self.polls[i].0.clone(), self.polls[i].1.clone()));
            i = i + 1;
        }
        proof {
            assert(r@.map_values(|p: (String, Poll)| (p.0@, p.1@)) =~= self.polls_view());
        }
        r
    }

    /// Full ascending range scan over the ballot map: every ((voter, id),
    /// ballot) pair, in ascending order of the composite key.
    pub fn ballots_range(&self) -> (r: Vec<((String, String), Ballot)>)
        ensures
            r@.map_values(|p: ((String, String), Ballot)| ((p.0.0@, p.0.1@), p.1@))
                == self.ballots_view(),
    {
        let mut r: Vec<((String, String), Ballot)> = Vec::new();
        let mut i: usize = 0;
        while i < self.ballots.len()
            invariant
                i <= self.ballots.len(),
                r@.len() == i as int,
                forall|j: int|
                    0 <= j < i ==> (#[trigger] r@[j]).0.0@ == self.ballots_view()[j].0.0
                        && r@[j].0.1@ == self.ballots_view()[j].0.1 && r@[j].1@
                        == self.ballots_view()[j].1,
            decreases self.ballots.len() - i,
        {
            r.push(
                (
                    (self.ballots[i].0.0.clone(), self.ballots[i].0.1.clone()),
                    self.ballots[i].1.clone(),
                ),
            );
            i = i + 1;
        }
        proof {
            assert(r@.map_values(|p: ((String, String), Ballot)| ((p.0.0@, p.0.1@), p.1@))
                =~= self.ballots_view());
        }
        r
    }
}

/// Strict ascending order over a ballot association sequence, voter first
/// and poll id second; it also makes every composite key unique.
pub open spec fn ballots_sorted(s: Seq<((Seq<char>, Seq<char>), BallotV)>) -> bool {
    forall|i: int, j: int| 0 <= i < j < s.len() ==> key2_lt(s[i].0, s[j].0)
}

/// Strict order on composite (voter, poll id) keys: voter first, poll id
/// second, so that all of one voter's ballots sit in one contiguous run.
pub open spec fn key2_lt(a: (Seq<char>, Seq<char>), b: (Seq<char>, Seq<char>)) -> bool {
    lex_lt(a.0, b.0) || (a.0 == b.0 && lex_lt(a.1, b.1))
}

/// Exactly one of `key2_lt(a, b)`, `a == b`, `key2_lt(b, a)` holds.
pub proof fn lemma_key2_trichotomy(a: (Seq<char>, Seq<char>), b: (Seq<char>, Seq<char>))
    ensures
        key2_lt(a, b) || key2_lt(b, a) || a == b,
        key2_lt(a, b) ==> !key2_lt(b, a) && a != b,
        key2_lt(b, a) ==> !key2_lt(a, b) && a != b,
{
    lemma_lex_lt_trichotomy(a.0, b.0);
    lemma_lex_lt_trichotomy(a.1, b.1);
    if a.0 == b.0 && a.1 == b.1 {
        assert(a =~= b);
    }
}

pub proof fn lemma_key2_trans(
    a: (Seq<char>, Seq<char>),
    b: (Seq<char>, Seq<char>),
    c: (Seq<char>, Seq<char>),
)
    requires
        key2_lt(a, b),
        key2_lt(b, c),
    ensures
        key2_lt(a, c),
{
    if lex_lt(a.0, b.0) && lex_lt(b.0, c.0) {
        lemma_lex_lt_trans(a.0, b.0, c.0);
    } else if a.0 == b.0 && a.1 != b.1 && b.0 == c.0 {
        lemma_lex_lt_trans(a.1, b.1, c.1);
    }
}

/// Point lookup in a ballot association sequence.
pub open spec fn ballot_lookup(
    s: Seq<((Seq<char>, Seq<char>), BallotV)>,
    k: (Seq<char>, Seq<char>),
) -> Option<BallotV>
    decreases s.len(),
{
    if s.len() == 0 {
        None
    } else if s[0].0 == k {
        Some(s[0].1)
    } else {
        ballot_lookup(s.skip(1), k)
    }
}

/// Insertion into a sorted ballot association sequence; an existing pair
/// with key `k` is overwritten in place.
pub open spec fn ballot_insert(
    s: Seq<((Seq<char>, Seq<char>), BallotV)>,
    k: (Seq<char>, Seq<char>),
    v: BallotV,
) -> Seq<((Seq<char>, Seq<char>), BallotV)>
    decreases s.len(),
{
    if s.len() == 0 {
        seq![(k, v)]
    } else if key2_lt(k, s[0].0) {
        seq![(k, v)] + s
    } else if k == s[0].0 {
        seq![(k, v)] + s.skip(1)
    } else {
        seq![s[0]] + ballot_insert(s.skip(1), k, v)
    }
}

/// Where `ballot_insert` puts the new pair, as `lemma_poll_insert_at` does
/// for polls.
pub proof fn lemma_ballot_insert_at(
    s: Seq<((Seq<char>, Seq<char>), BallotV)>,
    k: (Seq<char>, Seq<char>),
    v: BallotV,
    i: int,
)
    requires
        ballots_sorted(s),
        0 <= i <= s.len(),
        forall|j: int| 0 <= j < i ==> key2_lt(#[trigger] s[j].0, k),
        i < s.len() ==> !key2_lt(s[i].0, k),
    ensures
        i < s.len() && s[i].0 == k ==> ballot_insert(s, k, v) =~= s.update(i, (k, v)),
        !(i < s.len() && s[i].0 == k) ==> ballot_insert(s, k, v) =~= s.subrange(0, i).push((k, v))
            + s.skip(i),
    decreases s.len(),
{
    if i == 0 {
        if s.len() > 0 && s[0].0 == k {
            assert(!key2_lt(k, s[0].0)) by {
                lemma_key2_trichotomy(k, s[0].0);
            }
            assert(ballot_insert(s, k, v) =~= s.update(0, (k, v)));
        } else if s.len() == 0 {
            assert(ballot_insert(s, k, v) =~= s.subrange(0, 0).push((k, v)) + s.skip(0));
        } else {
            lemma_key2_trichotomy(k, s[0].0);
            assert(key2_lt(k, s[0].0));
            assert(ballot_insert(s, k, v) =~= s.subrange(0, 0).push((k, v)) + s.skip(0));
        }
    } else {
        lemma_key2_trichotomy(k, s[0].0);
        assert(key2_lt(s[0].0, k));
        let tail = s.skip(1);
        assert(ballots_sorted(tail)) by {
            assert forall|m: int, n: int| 0 <= m < n < tail.len() implies key2_lt(
                tail[m].0,
                tail[n].0,
            ) by {
                assert(tail[m] == s[m + 1]);
                assert(tail[n] == s[n + 1]);
            }
        }
        assert forall|j: int| 0 <= j < i - 1 implies key2_lt(#[trigger] tail[j].0, k) by {
            assert(tail[j] == s[j + 1]);
        }
        assert(i - 1 < tail.len() ==> !key2_lt(tail[i - 1].0, k));
        lemma_ballot_insert_at(tail, k, v, i - 1);
        assert(ballot_insert(s, k, v) == seq![s[0]] + ballot_insert(tail, k, v));
        if i < s.len() && s[i].0 == k {
            assert(ballot_insert(tail, k, v) =~= tail.update(i - 1, (k, v)));
            assert(ballot_insert(s, k, v) =~= s.update(i, (k, v)));
        } else {
            assert(ballot_insert(tail, k, v) =~= tail.subrange(0, i - 1).push((k, v)) + tail.skip(
                i - 1,
            ));
            assert(ballot_insert(s, k, v) =~= s.subrange(0, i).push((k, v)) + s.skip(i));
        }
    }
}

/// Inserting at that position keeps the ballot sequence sorted.
pub proof fn lemma_ballot_insert_sorted(
    s: Seq<((Seq<char>, Seq<char>), BallotV)>,
    k: (Seq<char>, Seq<char>),
    v: BallotV,
    i: int,
)
    requires
        ballots_sorted(s),
        0 <= i <= s.len(),
        forall|j: int| 0 <= j < i ==> key2_lt(#[trigger] s[j].0, k),
        i < s.len() ==> !key2_lt(s[i].0, k),
    ensures
        ballots_sorted(ballot_insert(s, k, v)),
{
    lemma_ballot_insert_at(s, k, v, i);
    if i < s.len() && s[i].0 == k {
        let r = s.update(i, (k, v));
        assert forall|m: int, n: int| 0 <= m < n < r.len() implies key2_lt(r[m].0, r[n].0) by {
            assert(r[m].0 == s[m].0);
            assert(r[n].0 == s[n].0);
        }
    } else {
        let r = s.subrange(0, i).push((k, v)) + s.skip(i);
        assert forall|j: int| i <= j < s.len() implies key2_lt(k, #[trigger] s[j].0) by {
            lemma_key2_trichotomy(k, s[i].0);
            if j > i {
                lemma_key2_trans(k, s[i].0, s[j].0);
            }
        }
        assert forall|m: int, n: int| 0 <= m < n < r.len() implies key2_lt(r[m].0, r[n].0) by {
            if m < i {
                assert(r[m] == s[m]);
            } else if m == i {
                assert(r[m] == (k, v));
            } else {
                assert(r[m] == s[m - 1]);
            }
            if n < i {
                assert(r[n] == s[n]);
            } else if n == i {
                assert(r[n] == (k, v));
            } else {
                assert(r[n] == s[n - 1]);
            }
        }
        assert(ballots_sorted(r));
    }
}

/// How `ballot_insert` answers lookups.
pub proof fn lemma_ballot_lookup_insert(
    s: Seq<((Seq<char>, Seq<char>), BallotV)>,
    k: (Seq<char>, Seq<char>),
    v: BallotV,
    q: (Seq<char>, Seq<char>),
)
    ensures
        q == k ==> ballot_lookup(ballot_insert(s, k, v), q) == Some(v),
        q != k ==> ballot_lookup(ballot_insert(s, k, v), q) == ballot_lookup(s, q),
    decreases s.len(),
{
    if s.len() == 0 {
        let r = seq![(k, v)];
        assert(ballot_insert(s, k, v) == r);
        assert(r[0] == (k, v));
        assert(r.skip(1) =~= Seq::<((Seq<char>, Seq<char>), BallotV)>::empty());
        if q != k {
            assert(r[0].0 != q);
            assert(ballot_lookup(r, q) == ballot_lookup(r.skip(1), q));
            assert(ballot_lookup(r.skip(1), q) == None::<BallotV>);
        }
        assert(q != k ==> ballot_lookup(ballot_insert(s, k, v), q) == ballot_lookup(s, q));
    } else if key2_lt(k, s[0].0) {
        let r = seq![(k, v)] + s;
        assert(ballot_insert(s, k, v) == r);
        assert(r[0] == (k, v));
        assert(r.skip(1) =~= s);
        assert(q != k ==> ballot_lookup(ballot_insert(s, k, v), q) == ballot_lookup(s, q));
    } else if k == s[0].0 {
        let r = seq![(k, v)] + s.skip(1);
        assert(ballot_insert(s, k, v) == r);
        assert(r[0] == (k, v));
        assert(r.skip(1) =~= s.skip(1));
        if q != k {
            assert(ballot_lookup(r, q) == ballot_lookup(s.skip(1), q));
            assert(ballot_lookup(s, q) == ballot_lookup(s.skip(1), q));
        }
        assert(q != k ==> ballot_lookup(ballot_insert(s, k, v), q) == ballot_lookup(s, q));
    } else {
        let r = seq![s[0]] + ballot_insert(s.skip(1), k, v);
        assert(ballot_insert(s, k, v) == r);
        assert(r[0] == s[0]);
        assert(r.len() > 0);
        assert(r.skip(1) =~= ballot_insert(s.skip(1), k, v));
        lemma_ballot_lookup_insert(s.skip(1), k, v, q);
        assert(q != k ==> ballot_lookup(ballot_insert(s, k, v), q) == ballot_lookup(s, q));
    }
}

impl Store {
    /// Writes `ballot` under the composite key (voter, poll id),
    /// overwriting that voter's prior ballot for the poll, if any.
    pub fn ballots_save(&mut self, voter: String, id: String, ballot: Ballot)
        requires
            old(self).wf(),
        ensures
            final(self).wf(),
            final(self).ballots_view() == ballot_insert(
                old(self).ballots_view(),
                (voter@, id@),
                ballot@,
            ),
            final(self).config_view() == old(self).config_view(),
            final(self).polls_view() == old(self).polls_view(),
    {
        let ghost s0 = self.ballots_view();
        let mut i: usize = 0;
        while i < self.ballots.len() && key2_lt_exec(
            &self.ballots[i].0.0,
            &self.ballots[i].0.1,
            &voter,
            &id,
        )
            invariant
                i <= self.ballots.len(),
                s0 == self.ballots_view(),
                forall|j: int| 0 <= j < i ==> key2_lt(#[trigger] s0[j].0, (voter@, id@)),
            decreases self.ballots.len() - i,
        {
            i = i + 1;
        }
        proof {
            assert(i < s0.len() ==> !key2_lt(s0[i as int].0, (voter@, id@)));
        }
        if i < self.ballots.len() && self.ballots[i].0.0 == voter && self.ballots[i].0.1 == id {
            proof {
                assert(s0[i as int].0 =~= (voter@, id@));
            }
            self.ballots[i] = ((voter, id), ballot);
            proof {
                lemma_ballot_insert_at(s0, (voter@, id@), ballot@, i as int);
                lemma_ballot_insert_sorted(s0, (voter@, id@), ballot@, i as int);
                assert(self.ballots_view() =~= s0.update(i as int, ((voter@, id@), ballot@)));
            }
        } else {
            proof {
                if i < s0.len() {
                    assert(s0[i as int].0 != (voter@, id@));
                }
            }
            self.ballots.insert(i, ((voter, id), ballot));
            proof {
                lemma_ballot_insert_at(s0, (voter@, id@), ballot@, i as int);
                lemma_ballot_insert_sorted(s0, (voter@, id@), ballot@, i as int);
                assert(self.ballots_view() =~= s0.subrange(0, i as int).push(
                    ((voter@, id@), ballot@),
                ) + s0.skip(i as int));
            }
        }
    }

    /// Point lookup of a ballot by (voter, poll id); absence is a normal
    /// result.
    pub fn ballots_may_load(&self, voter: &String, id: &String) -> (r: Option<Ballot>)
        ensures
            match r {
                Some(b) => ballot_lookup(self.ballots_view(), (voter@, id@)) == Some(b@),
                None => ballot_lookup(self.ballots_view(), (voter@, id@)) == None::<BallotV>,
            },
    {
        let ghost s = self.ballots_view();
        proof {
            assert(s.skip(0) =~= s);
        }
        let mut i: usize = 0;
        while i < self.ballots.len()
            invariant
                i <= self.ballots.len(),
                s == self.ballots_view(),
                ballot_lookup(s, (voter@, id@)) == ballot_lookup(s.skip(i as int), (voter@, id@)),
            decreases self.ballots.len() - i,
        {
            if self.ballots[i].0.0 == *voter && self.ballots[i].0.1 == *id {
                proof {
                    assert(s[i as int].0 =~= (voter@, id@));
                }
                return Some(self.ballots[i].1.clone());
            }
            proof {
                assert(s[i as int].0 != (voter@, id@));
                assert(s.skip(i as int).skip(1) =~= s.skip(i + 1));
            }
            i = i + 1;
        }
        None
    }
}

/// Compares two composite (voter, poll id) keys in the order of `key2_lt`.
fn key2_lt_exec(a0: &String, a1: &String, b0: &String, b1: &String) -> (r: bool)
    ensures
        r == key2_lt((a0@, a1@), (b0@, b1@)),
{
    if str_lt(a0.as_str(), b0.as_str()) {
        true
    } else if *a0 == *b0 {
        str_lt(a1.as_str(), b1.as_str())
    } else {
        false
    }
}

} // verus!
