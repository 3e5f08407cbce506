//! Properties of the engine's transition functions, proved once for every
//! input: what a fresh poll holds, how one vote step moves the counts, and
//! when a step is refused.

use vstd::prelude::*;

use crate::error::ContractError;
use crate::contract::{
    add_vote, created_poll, lemma_option_index_some, option_index, revoke_prior, vote_step,
};
use crate::state::{BallotV, PollV};

verus! {

/// Law: a freshly created poll records its creator and question and carries
/// the caller's labels in the caller's order, every count zero.
pub proof fn lemma_created_poll_counts(sender: Seq<char>, question: Seq<char>, labels: Seq<
    Seq<char>,
>)
    ensures
        created_poll(sender, question, labels).creator == sender,
        created_poll(sender, question, labels).question == question,
        created_poll(sender, question, labels).options.len() == labels.len(),
        forall|i: int| 0 <= i < labels.len() ==> created_poll(sender, question, labels).options[i]
            == (labels[i], 0u64),
{
}

/// The total number of votes a poll's option list carries.
pub open spec fn total_votes(opts: Seq<(Seq<char>, u64)>) -> int
    decreases opts.len(),
{
    if opts.len() == 0 {
        0
    } else {
        opts[0].1 + total_votes(opts.skip(1))
    }
}

/// Replacing one entry's count moves the total by exactly the difference.
pub proof fn lemma_total_votes_update(opts: Seq<(Seq<char>, u64)>, i: int, c: u64)
    requires
        0 <= i < opts.len(),
    ensures
        total_votes(opts.update(i, (opts[i].0, c))) == total_votes(opts) + c - opts[i].1,
    decreases opts.len(),
{
    let r = opts.update(i, (opts[i].0, c));
    if i == 0 {
        assert(r.skip(1) =~= opts.skip(1));
    } else {
        assert(r[0] == opts[0]);
        assert(r.skip(1) =~= opts.skip(1).update(i - 1, (opts.skip(1)[i - 1].0, c)));
        lemma_total_votes_update(opts.skip(1), i - 1, c);
    }
}

/// Replacing one entry's count moves no label, so every label keeps its
/// first position.
pub proof fn lemma_option_index_update(
    opts: Seq<(Seq<char>, u64)>,
    i: int,
    c: u64,
    label: Seq<char>,
)
    requires
        0 <= i < opts.len(),
    ensures
        option_index(opts.update(i, (opts[i].0, c)), label) == option_index(opts, label),
    decreases opts.len(),
{
    let r = opts.update(i, (opts[i].0, c));
    if i == 0 {
        assert(r[0].0 == opts[0].0);
        assert(r.skip(1) =~= opts.skip(1));
    } else {
        assert(r[0] == opts[0]);
        assert(r.skip(1) =~= opts.skip(1).update(i - 1, (opts.skip(1)[i - 1].0, c)));
        lemma_option_index_update(opts.skip(1), i - 1, c, label);
    }
}

/// Law: a first-time vote adds exactly one unit to the first entry carrying
/// the chosen option and leaves every other entry untouched; it is refused
/// as `Unauthorized` exactly when the poll does not carry the option.
pub proof fn lemma_vote_new_voter(poll: PollV, vote: Seq<char>)
    ensures
        match vote_step(poll, None::<BallotV>, vote) {
            Ok(updated) => {
                &&& updated.creator == poll.creator
                &&& updated.question == poll.question
                &&& updated.options.len() == poll.options.len()
                &&& option_index(poll.options, vote) matches Some(i) && {
                    &&& updated.options[i] == (poll.options[i].0, (poll.options[i].1 + 1) as u64)
                    &&& forall|j: int|
                        0 <= j < poll.options.len() && j != i ==> #[trigger] updated.options[j]
                            == poll.options[j]
                }
            },
            Err(e) => {
                &&& (e == ContractError::Unauthorized <==> option_index(poll.options, vote)
                    is None)
                &&& (option_index(poll.options, vote) matches Some(i) ==> poll.options[i].1
                    == u64::MAX && e == ContractError::Internal)
            },
        },
{
    lemma_option_index_some(poll.options, vote);
}

/// Law: changing a vote from option `a` to a different option `b`, both
/// carried by the poll, takes one unit off `a`'s entry, adds one to `b`'s,
/// touches no other entry, moves no label, and conserves the poll's total
/// vote count.
pub proof fn lemma_vote_change(poll: PollV, a: Seq<char>, b: Seq<char>, i: int, j: int)
    requires
        a != b,
        option_index(poll.options, a) == Some(i),
        option_index(poll.options, b) == Some(j),
        poll.options[i].1 >= 1,
        poll.options[j].1 < u64::MAX,
    ensures
        vote_step(poll, Some(BallotV { option: a }), b) matches Ok(updated) && {
            &&& updated.creator == poll.creator
            &&& updated.question == poll.question
            &&& updated.options.len() == poll.options.len()
            &&& updated.options[i] == (poll.options[i].0, (poll.options[i].1 - 1) as u64)
            &&& updated.options[j] == (poll.options[j].0, (poll.options[j].1 + 1) as u64)
            &&& forall|m: int|
                0 <= m < poll.options.len() && m != i && m != j ==> #[trigger] updated.options[m]
                    == poll.options[m]
            &&& total_votes(updated.options) == total_votes(poll.options)
        },
{
    lemma_option_index_some(poll.options, a);
    lemma_option_index_some(poll.options, b);
    assert(i != j);
    let c_a = poll.options[i].1;
    let c_b = poll.options[j].1;
    let p1 = PollV {
        options: poll.options.update(i, (poll.options[i].0, (c_a - 1) as u64)),
        ..poll
    };
    assert(revoke_prior(poll, Some(BallotV { option: a })) == Ok::<PollV, ContractError>(p1));
    lemma_option_index_update(poll.options, i, (c_a - 1) as u64, b);
    assert(option_index(p1.options, b) == Some(j));
    assert(p1.options[j] == poll.options[j]);
    let updated = PollV {
        options: p1.options.update(j, (p1.options[j].0, (c_b + 1) as u64)),
        ..p1
    };
    assert(add_vote(p1, b) == Ok::<PollV, ContractError>(updated));
    lemma_total_votes_update(poll.options, i, (c_a - 1) as u64);
    lemma_total_votes_update(p1.options, j, (c_b + 1) as u64);
}

/// Law: voting again for the already-chosen option rewrites the ballot but
/// leaves the poll exactly as it was — the one unit is revoked and re-added
/// on the same entry.
pub proof fn lemma_vote_same(poll: PollV, a: Seq<char>, i: int)
    requires
        option_index(poll.options, a) == Some(i),
        poll.options[i].1 >= 1,
    ensures
        vote_step(poll, Some(BallotV { option: a }), a) == Ok::<PollV, ContractError>(poll),
{
    lemma_option_index_some(poll.options, a);
    let c = poll.options[i].1;
    let p1 = PollV {
        options: poll.options.update(i, (poll.options[i].0, (c - 1) as u64)),
        ..poll
    };
    assert(revoke_prior(poll, Some(BallotV { option: a })) == Ok::<PollV, ContractError>(p1));
    lemma_option_index_update(poll.options, i, (c - 1) as u64, a);
    assert(option_index(p1.options, a) == Some(i));
    assert(p1.options[i] == (poll.options[i].0, (c - 1) as u64));
    let updated = PollV {
        options: p1.options.update(i, (p1.options[i].0, c)),
        ..p1
    };
    assert(add_vote(p1, a) == Ok::<PollV, ContractError>(updated));
    assert(updated.options =~= poll.options);
    assert(updated =~= poll);
}

/// Law: a vote for a label the poll does not carry is refused as
/// `Unauthorized` — with no write, as `execute_vote` separately ensures —
/// whenever the prior ballot, if any, is itself still accounted for in the
/// poll.
pub proof fn lemma_vote_unknown_option(poll: PollV, prior: Option<BallotV>, vote: Seq<char>)
    requires
        option_index(poll.options, vote) is None,
        match prior {
            None => true,
            Some(b) => option_index(poll.options, b.option) matches Some(i) && poll.options[i].1
                >= 1,
        },
    ensures
        vote_step(poll, prior, vote) == Err::<PollV, ContractError>(ContractError::Unauthorized),
{
    match prior {
        None => {
        },
        Some(b) => {
            lemma_option_index_some(poll.options, b.option);
            let i = choose|i: int| option_index(poll.options, b.option) == Some(i);
            assert(option_index(poll.options, b.option) == Some(i));
            lemma_option_index_update(
                poll.options,
                i,
                (poll.options[i].1 - 1) as u64,
                vote,
            );
        },
    }
}

} // verus!
