//! The counting invariant that ties the two maps together: every vote
//! count in a poll equals the number of ballots currently naming that
//! option, and a count sits only on the first entry carrying its label.
//! One vote step preserves it; so does creating a poll under an id that
//! carries no prior poll and no stale ballots. (A destructive overwrite of
//! an existing id resets counts without touching ballots, and is exactly
//! the input on which the invariant is lost.)

use vstd::prelude::*;

use crate::contract::{add_vote, lemma_option_index_some, option_index, revoke_prior, vote_step};
use crate::error::ContractError;
use crate::laws::lemma_option_index_update;
use crate::state::{BallotV, PollV};
use crate::store::{
    ballot_insert, ballot_lookup, ballots_sorted, key2_lt, lemma_key2_trichotomy,
    lemma_poll_insert_at, poll_insert, poll_lookup, polls_sorted,
};
use crate::strings::{lemma_lex_lt_trichotomy, lex_lt};

verus! {

/// How many ballots of `ballots` choose `label` in the poll `pid`.
pub open spec fn ballots_for(
    ballots: Seq<((Seq<char>, Seq<char>), BallotV)>,
    pid: Seq<char>,
    label: Seq<char>,
) -> int
    decreases ballots.len(),
{
    if ballots.len() == 0 {
        0
    } else {
        (if ballots[0].0.1 == pid && ballots[0].1.option == label {
            1int
        } else {
            0int
        }) + ballots_for(ballots.skip(1), pid, label)
    }
}

/// A found composite key names an index holding exactly that pair; a
/// missing key occurs nowhere.
pub proof fn lemma_ballot_lookup_index(s: Seq<((Seq<char>, Seq<char>), BallotV)>, k: (
    Seq<char>,
    Seq<char>,
))
    ensures
        match ballot_lookup(s, k) {
            Some(v) => exists|i: int| 0 <= i < s.len() && #[trigger] s[i] == (k, v),
            None => forall|i: int| 0 <= i < s.len() ==> (#[trigger] s[i]).0 != k,
        },
    decreases s.len(),
{
    if s.len() == 0 {
    } else if s[0].0 == k {
        assert(s[0] =~= (k, s[0].1));
        assert(0 <= 0 < s.len() && s[0] == (k, s[0].1));
    } else {
        lemma_ballot_lookup_index(s.skip(1), k);
        match ballot_lookup(s, k) {
            Some(v) => {
                let j = choose|j: int| 0 <= j < s.skip(1).len() && #[trigger] s.skip(1)[j] == (
                    k,
                    v,
                );
                assert(s[j + 1] == s.skip(1)[j]);
                assert(0 <= j + 1 < s.len() && s[j + 1] == (k, v));
            },
            None => {
                assert forall|i: int| 0 <= i < s.len() implies (#[trigger] s[i]).0 != k by {
                    if i >= 1 {
                        assert(s[i] == s.skip(1)[i - 1]);
                    }
                }
            },
        }
    }
}

/// How `ballot_insert` moves the counts: one up for what the new ballot
/// names, one down for what the replaced ballot named, if one is replaced.
pub proof fn lemma_ballots_for_insert(
    ballots: Seq<((Seq<char>, Seq<char>), BallotV)>,
    k: (Seq<char>, Seq<char>),
    v: BallotV,
    pid: Seq<char>,
    label: Seq<char>,
)
    requires
        ballots_sorted(ballots),
    ensures
        ballots_for(ballot_insert(ballots, k, v), pid, label) == ballots_for(ballots, pid, label)
            + (if k.1 == pid && v.option == label {
            1int
        } else {
            0int
        }) - (match ballot_lookup(ballots, k) {
            Some(b0) => if k.1 == pid && b0.option == label {
                1int
            } else {
                0int
            },
            None => 0int,
        }),
    decreases ballots.len(),
{
    if ballots.len() == 0 {
        let r = seq![(k, v)];
        assert(ballot_insert(ballots, k, v) == r);
        assert(r[0] == (k, v));
        assert(r.skip(1) =~= ballots);
    } else if key2_lt(k, ballots[0].0) {
        let r = seq![(k, v)] + ballots;
        assert(ballot_insert(ballots, k, v) == r);
        assert(r[0] == (k, v));
        assert(r.skip(1) =~= ballots);
        lemma_ballot_lookup_index(ballots, k);
        if ballot_lookup(ballots, k) is Some {
            let i = choose|i: int|
                0 <= i < ballots.len() && #[trigger] ballots[i] == (
                    k,
                    ballot_lookup(ballots, k)->Some_0,
                );
            lemma_key2_trichotomy(k, ballots[0].0);
            if i > 0 {
                assert(key2_lt(ballots[0].0, ballots[i].0));
                lemma_key2_trichotomy(ballots[0].0, ballots[i].0);
            }
            assert(false);
        }
    } else if k == ballots[0].0 {
        let r = seq![(k, v)] + ballots.skip(1);
        assert(ballot_insert(ballots, k, v) == r);
        assert(r[0] == (k, v));
        assert(r.skip(1) =~= ballots.skip(1));
        assert(ballot_lookup(ballots, k) == Some(ballots[0].1));
        assert(ballots[0].0.1 == pid <==> k.1 == pid);
    } else {
        let r = seq![ballots[0]] + ballot_insert(ballots.skip(1), k, v);
        assert(ballot_insert(ballots, k, v) == r);
        assert(r[0] == ballots[0]);
        assert(r.skip(1) =~= ballot_insert(ballots.skip(1), k, v));
        assert(ballots_sorted(ballots.skip(1))) by {
            assert forall|m: int, n: int|
                0 <= m < n < ballots.skip(1).len() implies key2_lt(
                ballots.skip(1)[m].0,
                ballots.skip(1)[n].0,
            ) by {
                assert(ballots.skip(1)[m] == ballots[m + 1]);
                assert(ballots.skip(1)[n] == ballots[n + 1]);
            }
        }
        lemma_ballots_for_insert(ballots.skip(1), k, v, pid, label);
        assert(ballot_lookup(ballots, k) == ballot_lookup(ballots.skip(1), k));
    }
}

/// A found key names an index holding exactly that pair; a missing key
/// occurs nowhere.
pub proof fn lemma_poll_lookup_index(s: Seq<(Seq<char>, PollV)>, k: Seq<char>)
    ensures
        match poll_lookup(s, k) {
            Some(v) => exists|i: int| 0 <= i < s.len() && #[trigger] s[i] == (k, v),
            None => forall|i: int| 0 <= i < s.len() ==> (#[trigger] s[i]).0 != k,
        },
    decreases s.len(),
{
    if s.len() == 0 {
    } else if s[0].0 == k {
        assert(s[0] =~= (k, s[0].1));
        assert(0 <= 0 < s.len() && s[0] == (k, s[0].1));
    } else {
        lemma_poll_lookup_index(s.skip(1), k);
        match poll_lookup(s, k) {
            Some(v) => {
                let j = choose|j: int| 0 <= j < s.skip(1).len() && #[trigger] s.skip(1)[j] == (
                    k,
                    v,
                );
                assert(s[j + 1] == s.skip(1)[j]);
                assert(0 <= j + 1 < s.len() && s[j + 1] == (k, v));
            },
            None => {
                assert forall|i: int| 0 <= i < s.len() implies (#[trigger] s[i]).0 != k by {
                    if i >= 1 {
                        assert(s[i] == s.skip(1)[i - 1]);
                    }
                }
            },
        }
    }
}

/// One entry of a poll's option list is consistent with the ballots when
/// its count equals the number of ballots naming its label in that poll —
/// if the entry is the first carrier of its label — and is zero otherwise.
pub open spec fn entry_consistent(
    pid: Seq<char>,
    opts: Seq<(Seq<char>, u64)>,
    oi: int,
    ballots: Seq<((Seq<char>, Seq<char>), BallotV)>,
) -> bool {
    opts[oi].1 == if option_index(opts, opts[oi].0) == Some(oi) {
        ballots_for(ballots, pid, opts[oi].0)
    } else {
        0int
    }
}

/// A poll with no ballots naming it counts nothing for any label.
pub proof fn lemma_ballots_for_absent(
    ballots: Seq<((Seq<char>, Seq<char>), BallotV)>,
    pid: Seq<char>,
    label: Seq<char>,
)
    requires
        forall|i: int| 0 <= i < ballots.len() ==> (#[trigger] ballots[i]).0.1 != pid,
    ensures
        ballots_for(ballots, pid, label) == 0,
    decreases ballots.len(),
{
    if ballots.len() == 0 {
    } else {
        assert forall|i: int|
            0 <= i < ballots.skip(1).len() implies (#[trigger] ballots.skip(1)[i]).0.1 != pid by {
            assert(ballots.skip(1)[i] == ballots[i + 1]);
        }
        lemma_ballots_for_absent(ballots.skip(1), pid, label);
    }
}

/// Every pair of `poll_insert(s, k, v)` is the new pair or a pair of `s`.
pub proof fn lemma_poll_insert_elems(s: Seq<(Seq<char>, PollV)>, k: Seq<char>, v: PollV)
    ensures
        forall|i: int|
            0 <= i < poll_insert(s, k, v).len() ==> #[trigger] poll_insert(s, k, v)[i] == (k, v)
                || s.contains(poll_insert(s, k, v)[i]),
    decreases s.len(),
{
    let r = poll_insert(s, k, v);
    if s.len() == 0 {
        assert(r == seq![(k, v)]);
        assert(r[0] == (k, v));
    } else if lex_lt(k, s[0].0) {
        assert(r == seq![(k, v)] + s);
        assert forall|i: int| 0 <= i < r.len() implies #[trigger] r[i] == (k, v) || s.contains(
            r[i],
        ) by {
            if i > 0 {
                assert(r[i] == s[i - 1]);
                assert(s.contains(s[i - 1]));
            }
        }
    } else if k == s[0].0 {
        assert(r == seq![(k, v)] + s.skip(1));
        assert forall|i: int| 0 <= i < r.len() implies #[trigger] r[i] == (k, v) || s.contains(
            r[i],
        ) by {
            if i > 0 {
                assert(r[i] == s.skip(1)[i - 1]);
                assert(s.skip(1)[i - 1] == s[i]);
                assert(s.contains(s[i]));
            }
        }
    } else {
        let rt = poll_insert(s.skip(1), k, v);
        assert(r == seq![s[0]] + rt);
        lemma_poll_insert_elems(s.skip(1), k, v);
        assert forall|i: int| 0 <= i < r.len() implies #[trigger] r[i] == (k, v) || s.contains(
            r[i],
        ) by {
            if i == 0 {
                assert(r[0] == s[0]);
                assert(s.contains(s[0]));
            } else {
                assert(r[i] == rt[i - 1]);
                if rt[i - 1] == (k, v) {
                } else {
                    assert(s.skip(1).contains(rt[i - 1]));
                    let j = choose|j: int|
                        0 <= j < s.skip(1).len() && s.skip(1)[j] == rt[i - 1];
                    assert(s[j + 1] == s.skip(1)[j]);
                    assert(s.contains(s[j + 1]));
                }
            }
        }
    }
}

/// The invariant: every entry of every stored poll is consistent with the
/// ballot map.
pub open spec fn counts_consistent(
    polls: Seq<(Seq<char>, PollV)>,
    ballots: Seq<((Seq<char>, Seq<char>), BallotV)>,
) -> bool {
    forall|pi: int, oi: int|
        0 <= pi < polls.len() && 0 <= oi < polls[pi].1.options.len() ==> #[trigger] entry_consistent(
            polls[pi].0,
            polls[pi].1.options,
            oi,
            ballots,
        )
}


/// Law: creating a poll under an id that holds no prior poll and no
/// ballots preserves the counting invariant — every new entry counts zero
/// and no ballot names the fresh id. (Recreating an existing id is exactly
/// where the invariant is lost: the counts reset while the ballots stay.)
pub proof fn lemma_create_preserves_consistency(
    polls: Seq<(Seq<char>, PollV)>,
    ballots: Seq<((Seq<char>, Seq<char>), BallotV)>,
    pid: Seq<char>,
    poll: PollV,
)
    requires
        polls_sorted(polls),
        counts_consistent(polls, ballots),
        poll_lookup(polls, pid) == None::<PollV>,
        forall|i: int| 0 <= i < ballots.len() ==> (#[trigger] ballots[i]).0.1 != pid,
        forall|oi: int| 0 <= oi < poll.options.len() ==> (#[trigger] poll.options[oi]).1 == 0,
    ensures
        counts_consistent(poll_insert(polls, pid, poll), ballots),
{
    let np = poll_insert(polls, pid, poll);
    lemma_poll_insert_elems(polls, pid, poll);
    assert forall|pi: int, oi: int|
        0 <= pi < np.len() && 0 <= oi < np[pi].1.options.len() implies entry_consistent(
        np[pi].0,
        np[pi].1.options,
        oi,
        ballots,
    ) by {
        if np[pi] == (pid, poll) {
            lemma_ballots_for_absent(ballots, pid, poll.options[oi].0);
            assert(poll.options[oi].1 == 0);
        } else {
            assert(polls.contains(np[pi]));
            let j = choose|j: int| 0 <= j < polls.len() && polls[j] == np[pi];
            assert(entry_consistent(polls[j].0, polls[j].1.options, oi, ballots));
        }
    }
}


/// The poll voted on stays consistent entry by entry: the proof of
/// `lemma_vote_preserves_consistency` for the replaced pair.
proof fn lemma_vote_entry_consistent(
    polls: Seq<(Seq<char>, PollV)>,
    ballots: Seq<((Seq<char>, Seq<char>), BallotV)>,
    voter: Seq<char>,
    pid: Seq<char>,
    vote: Seq<char>,
    poll: PollV,
    updated: PollV,
    ip: int,
    oi: int,
)
    requires
        polls_sorted(polls),
        ballots_sorted(ballots),
        counts_consistent(polls, ballots),
        0 <= ip < polls.len(),
        polls[ip] == (pid, poll),
        vote_step(poll, ballot_lookup(ballots, (voter, pid)), vote) == Ok::<PollV, ContractError>(
            updated,
        ),
        0 <= oi < updated.options.len(),
    ensures
        entry_consistent(
            pid,
            updated.options,
            oi,
            ballot_insert(ballots, (voter, pid), BallotV { option: vote }),
        ),
{
    let k = (voter, pid);
    let prior = ballot_lookup(ballots, k);
    let nb = ballot_insert(ballots, k, BallotV { option: vote });
    match prior {
        None => {
            assert(revoke_prior(poll, prior) == Ok::<PollV, ContractError>(poll));
            lemma_option_index_some(poll.options, vote);
            let j = option_index(poll.options, vote)->Some_0;
            assert(option_index(poll.options, vote) == Some(j));
            assert(poll.options[j].0 == vote);
            let cj = poll.options[j].1;
            assert(cj < u64::MAX);
            assert(updated == PollV {
                options: poll.options.update(j, (poll.options[j].0, (cj + 1) as u64)),
                ..poll
            });
            assert(updated.options.len() == poll.options.len());
            assert(polls[ip].0 == pid && polls[ip].1 == poll);
            assert(entry_consistent(polls[ip].0, polls[ip].1.options, oi, ballots));
            assert(entry_consistent(pid, poll.options, oi, ballots));
            let lbl = poll.options[oi].0;
            assert(updated.options[oi].0 == lbl);
            lemma_option_index_update(poll.options, j, (cj + 1) as u64, lbl);
            assert(option_index(updated.options, lbl) == option_index(poll.options, lbl));
            lemma_ballots_for_insert(ballots, k, BallotV { option: vote }, pid, lbl);
            assert(ballots_for(nb, pid, lbl) == ballots_for(ballots, pid, lbl) + (if vote == lbl {
                1int
            } else {
                0int
            }));
            if option_index(poll.options, lbl) == Some(oi) {
                if oi == j {
                    assert(lbl == vote);
                } else {
                    assert(vote != lbl) by {
                        if vote == lbl {
                            assert(option_index(poll.options, lbl) == Some(j));
                        }
                    }
                }
            } else {
                assert(oi != j) by {
                    if oi == j {
                        assert(option_index(poll.options, lbl) == Some(j));
                    }
                }
            }
        },
        Some(b0) => {
            lemma_option_index_some(poll.options, b0.option);
            let i0 = option_index(poll.options, b0.option)->Some_0;
            assert(option_index(poll.options, b0.option) == Some(i0));
            assert(poll.options[i0].0 == b0.option);
            let c0 = poll.options[i0].1;
            assert(c0 >= 1);
            let p1 = PollV {
                options: poll.options.update(i0, (poll.options[i0].0, (c0 - 1) as u64)),
                ..poll
            };
            assert(revoke_prior(poll, prior) == Ok::<PollV, ContractError>(p1));
            assert(add_vote(p1, vote) == Ok::<PollV, ContractError>(updated));
            lemma_option_index_some(p1.options, vote);
            let j = option_index(p1.options, vote)->Some_0;
            assert(option_index(p1.options, vote) == Some(j));
            assert(p1.options[j].0 == vote);
            let c1j = p1.options[j].1;
            assert(c1j < u64::MAX);
            assert(updated == PollV {
                options: p1.options.update(j, (p1.options[j].0, (c1j + 1) as u64)),
                ..p1
            });
            assert(updated.options.len() == poll.options.len());
            assert(polls[ip].0 == pid && polls[ip].1 == poll);
            assert(entry_consistent(polls[ip].0, polls[ip].1.options, oi, ballots));
            assert(entry_consistent(pid, poll.options, oi, ballots));
            let lbl = poll.options[oi].0;
            assert(p1.options[oi].0 == lbl);
            assert(updated.options[oi].0 == lbl);
            lemma_option_index_update(poll.options, i0, (c0 - 1) as u64, lbl);
            lemma_option_index_update(p1.options, j, (c1j + 1) as u64, lbl);
            assert(option_index(updated.options, lbl) == option_index(poll.options, lbl));
            lemma_option_index_update(poll.options, i0, (c0 - 1) as u64, vote);
            assert(option_index(poll.options, vote) == Some(j));
            assert(poll.options[j].0 == vote);
            lemma_ballots_for_insert(ballots, k, BallotV { option: vote }, pid, lbl);
            assert(ballots_for(nb, pid, lbl) == ballots_for(ballots, pid, lbl) + (if vote == lbl {
                1int
            } else {
                0int
            }) - (if b0.option == lbl {
                1int
            } else {
                0int
            }));
            if option_index(poll.options, lbl) == Some(oi) {
                assert((vote == lbl) <==> (oi == j)) by {
                    if vote == lbl {
                        assert(option_index(poll.options, vote) == Some(oi));
                    }
                    if oi == j {
                        assert(lbl == poll.options[j].0);
                    }
                }
                assert((b0.option == lbl) <==> (oi == i0)) by {
                    if b0.option == lbl {
                        assert(option_index(poll.options, b0.option) == Some(oi));
                    }
                    if oi == i0 {
                        assert(lbl == poll.options[i0].0);
                    }
                }
            } else {
                assert(oi != j) by {
                    if oi == j {
                        assert(lbl == vote);
                        assert(option_index(poll.options, lbl) == Some(j));
                    }
                }
                assert(oi != i0) by {
                    if oi == i0 {
                        assert(lbl == b0.option);
                        assert(option_index(poll.options, lbl) == Some(i0));
                    }
                }
            }
        },
    }
}

/// Law: one successful vote step keeps the counting invariant. The new
/// ballot supplies exactly the unit the chosen option's count gains, and
/// the replaced ballot, if any, supplies the unit its old option's count
/// loses; every other poll and entry is untouched.
pub proof fn lemma_vote_preserves_consistency(
    polls: Seq<(Seq<char>, PollV)>,
    ballots: Seq<((Seq<char>, Seq<char>), BallotV)>,
    voter: Seq<char>,
    pid: Seq<char>,
    vote: Seq<char>,
    poll: PollV,
    updated: PollV,
)
    requires
        polls_sorted(polls),
        ballots_sorted(ballots),
        counts_consistent(polls, ballots),
        poll_lookup(polls, pid) == Some(poll),
        vote_step(poll, ballot_lookup(ballots, (voter, pid)), vote) == Ok::<PollV, ContractError>(
            updated,
        ),
    ensures
        counts_consistent(
            poll_insert(polls, pid, updated),
            ballot_insert(ballots, (voter, pid), BallotV { option: vote }),
        ),
{
    let k = (voter, pid);
    let prior = ballot_lookup(ballots, k);
    let nb = ballot_insert(ballots, k, BallotV { option: vote });
    let np = poll_insert(polls, pid, updated);

    // The poll sits at one index, and the insertion replaces it there.
    lemma_poll_lookup_index(polls, pid);
    let ip = choose|i: int| 0 <= i < polls.len() && #[trigger] polls[i] == (pid, poll);
    assert(polls[ip].0 == pid);
    lemma_lex_lt_trichotomy(pid, pid);
    assert forall|j: int| 0 <= j < ip implies lex_lt((#[trigger] polls[j]).0, pid) by {
        assert(lex_lt(polls[j].0, polls[ip].0));
    }
    lemma_poll_insert_at(polls, pid, updated, ip);
    assert(np =~= polls.update(ip, (pid, updated)));
    assert forall|pi: int| 0 <= pi < polls.len() && pi != ip implies (#[trigger] polls[pi]).0
        != pid by {
        if pi < ip {
            assert(lex_lt(polls[pi].0, polls[ip].0));
            lemma_lex_lt_trichotomy(polls[pi].0, pid);
        } else {
            assert(lex_lt(polls[ip].0, polls[pi].0));
            lemma_lex_lt_trichotomy(pid, polls[pi].0);
        }
    }

    assert forall|pi: int, oi: int|
        0 <= pi < np.len() && 0 <= oi < np[pi].1.options.len() implies entry_consistent(
        np[pi].0,
        np[pi].1.options,
        oi,
        nb,
    ) by {
        if pi != ip {
            // An untouched poll: the ballot insertion moves no count of its
            // id, because the new and the replaced ballot both name `pid`.
            assert(np[pi] == polls[pi]);
            assert(entry_consistent(polls[pi].0, polls[pi].1.options, oi, ballots));
            lemma_ballots_for_insert(
                ballots,
                k,
                BallotV { option: vote },
                polls[pi].0,
                polls[pi].1.options[oi].0,
            );
        } else {
            assert(np[pi] == (pid, updated));
            lemma_vote_entry_consistent(polls, ballots, voter, pid, vote, poll, updated, ip, oi);
        }
    }
}

} // verus!
