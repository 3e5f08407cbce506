//! The voting engine: creating a poll, casting or changing a vote, and the
//! point and range queries over the stored state. Every operation takes the
//! store handle explicitly and either fully applies its writes or returns
//! one error and writes nothing.

use vstd::prelude::*;

use crate::error::ContractError;
use crate::msg::{
    AllPollsResponse, ExecuteMsg, InstantiateMsg, MigrateMsg, PollResponse, QueryMsg,
    QueryResponse, VoteResponse,
};
use crate::state::{options_view, Ballot, BallotV, Config, ConfigV, Poll, PollV};
use crate::store::{ballot_insert, ballot_lookup, poll_insert, poll_lookup, Store};
use crate::strings::{valid_identity, validate_identity};

verus! {

/// The most options a poll may be created with.
pub const MAX_OPTIONS: usize = 10;

/// The admin an initialization records: the one named in the message, or
/// the caller when the message names none.
pub open spec fn chosen_admin(msg_admin: Option<Seq<char>>, sender: Seq<char>) -> Seq<char> {
    match msg_admin {
        Some(a) => a,
        None => sender,
    }
}

/// The option list a fresh poll starts with: the caller's labels in the
/// caller's order, every count zero.
pub open spec fn init_options(labels: Seq<Seq<char>>) -> Seq<(Seq<char>, u64)> {
    labels.map_values(|l: Seq<char>| (l, 0u64))
}

/// The poll a successful creation stores.
pub open spec fn created_poll(sender: Seq<char>, question: Seq<char>, labels: Seq<Seq<char>>) -> PollV {
    PollV { creator: sender, question: question, options: init_options(labels) }
}

/// The position of the first pair in an option list whose label equals
/// `label`, if any.
pub open spec fn option_index(opts: Seq<(Seq<char>, u64)>, label: Seq<char>) -> Option<int>
    decreases opts.len(),
{
    if opts.len() == 0 {
        None
    } else if opts[0].0 == label {
        Some(0int)
    } else {
        match option_index(opts.skip(1), label) {
            Some(i) => Some(i + 1),
            None => None::<int>,
        }
    }
}

/// `option_index` returns the first match: its index carries the label and
/// nothing before it does.
pub proof fn lemma_option_index_some(opts: Seq<(Seq<char>, u64)>, label: Seq<char>)
    ensures
        match option_index(opts, label) {
            Some(i) => 0 <= i < opts.len() && opts[i].0 == label && (forall|j: int|
                0 <= j < i ==> (#[trigger] opts[j]).0 != label),
            None => forall|j: int| 0 <= j < opts.len() ==> (#[trigger] opts[j]).0 != label,
        },
    decreases opts.len(),
{
    if opts.len() == 0 {
    } else if opts[0].0 == label {
    } else {
        lemma_option_index_some(opts.skip(1), label);
        assert forall|j: int| 1 <= j < opts.len() implies opts.skip(1)[j - 1] == opts[j] by {}
    }
}

/// The converse: a first match at `i` pins `option_index` to `Some(i)`.
pub proof fn lemma_option_index_first(opts: Seq<(Seq<char>, u64)>, label: Seq<char>, i: int)
    requires
        0 <= i < opts.len(),
        opts[i].0 == label,
        forall|j: int| 0 <= j < i ==> (#[trigger] opts[j]).0 != label,
    ensures
        option_index(opts, label) == Some(i),
    decreases i,
{
    if i == 0 {
    } else {
        assert(opts[0].0 != label);
        assert forall|j: int| 0 <= j < i - 1 implies (#[trigger] opts.skip(1)[j]).0 != label by {
            assert(opts.skip(1)[j] == opts[j + 1]);
        }
        assert(opts.skip(1)[i - 1] == opts[i]);
        lemma_option_index_first(opts.skip(1), label, i - 1);
    }
}

/// A label that occurs nowhere has no index.
pub proof fn lemma_option_index_none(opts: Seq<(Seq<char>, u64)>, label: Seq<char>)
    requires
        forall|j: int| 0 <= j < opts.len() ==> (#[trigger] opts[j]).0 != label,
    ensures
        option_index(opts, label) == None::<int>,
    decreases opts.len(),
{
    if opts.len() == 0 {
    } else {
        assert forall|j: int| 0 <= j < opts.skip(1).len() implies (#[trigger] opts.skip(1)[j]).0
            != label by {
            assert(opts.skip(1)[j] == opts[j + 1]);
        }
        lemma_option_index_none(opts.skip(1), label);
    }
}

/// Revoking a prior ballot's unit from a loaded poll: no prior ballot
/// changes nothing; a prior ballot takes one off the count of its option.
/// A prior option that is missing from the list, or whose count is already
/// zero — possible only after a destructive overwrite of the poll —
/// is an internal inconsistency.
pub open spec fn revoke_prior(poll: PollV, prior: Option<BallotV>) -> Result<PollV, ContractError> {
    match prior {
        None => Ok(poll),
        Some(b) => match option_index(poll.options, b.option) {
            None => Err(ContractError::Internal),
            Some(i) => if poll.options[i].1 == 0 {
                Err(ContractError::Internal)
            } else {
                Ok(
                    PollV {
                        options: poll.options.update(
                            i,
                            (poll.options[i].0, (poll.options[i].1 - 1) as u64),
                        ),
                        ..poll
                    },
                )
            },
        },
    }
}

/// Adding one unit to the chosen option of a loaded poll. A label the poll
/// does not carry is refused as `Unauthorized`; a count at the numeric
/// limit cannot take another unit.
pub open spec fn add_vote(poll: PollV, vote: Seq<char>) -> Result<PollV, ContractError> {
    match option_index(poll.options, vote) {
        None => Err(ContractError::Unauthorized),
        Some(i) => if poll.options[i].1 == u64::MAX {
            Err(ContractError::Internal)
        } else {
            Ok(
                PollV {
                    options: poll.options.update(
                        i,
                        (poll.options[i].0, (poll.options[i].1 + 1) as u64),
                    ),
                    ..poll
                },
            )
        },
    }
}

/// One whole vote step on a loaded poll: revoke the prior ballot's unit,
/// if any, then add one to the chosen option — both or neither.
pub open spec fn vote_step(poll: PollV, prior: Option<BallotV>, vote: Seq<char>) -> Result<
    PollV,
    ContractError,
> {
    match revoke_prior(poll, prior) {
        Err(e) => Err(e),
        Ok(p) => add_vote(p, vote),
    }
}

/// The position of the first pair in a poll's option list whose label
/// equals `label`, by linear scan in list order.
fn find_option(opts: &Vec<(String, u64)>, label: &String) -> (r: Option<usize>)
    ensures
        match r {
            Some(i) => i < opts@.len() && option_index(options_view(opts@), label@) == Some(
                i as int,
            ),
            None => option_index(options_view(opts@), label@) == None::<int>,
        },
{
    let mut i: usize = 0;
    while i < opts.len()
        invariant
            i <= opts@.len(),
            forall|j: int| 0 <= j < i ==> (#[trigger] options_view(opts@)[j]).0 != label@,
        decreases opts@.len() - i,
    {
        if opts[i].0 == *label {
            proof {
                lemma_option_index_first(options_view(opts@), label@, i as int);
            }
            return Some(i);
        }
        i = i + 1;
    }
    proof {
        lemma_option_index_none(options_view(opts@), label@);
    }
    None
}

/// Casts or changes the caller's vote in a poll. A missing poll, like a
/// label the poll does not carry, is refused as `Unauthorized`; otherwise
/// the prior ballot's unit is revoked and one unit is added to the chosen
/// option, both under one step, and the ballot records the new choice.
/// Voting again for the same option rewrites the ballot and leaves every
/// count as it was.
pub fn execute_vote(store: &mut Store, sender: String, poll_id: String, vote: String) -> (r:
    Result<(), ContractError>)
    requires
        old(store).wf(),
    ensures
        final(store).wf(),
        final(store).config_view() == old(store).config_view(),
        match poll_lookup(old(store).polls_view(), poll_id@) {
            None => {
                &&& r == Err::<(), ContractError>(ContractError::Unauthorized)
                &&& final(store).polls_view() == old(store).polls_view()
                &&& final(store).ballots_view() == old(store).ballots_view()
            },
            Some(poll) => {
                let prior = ballot_lookup(old(store).ballots_view(), (sender@, poll_id@));
                match vote_step(poll, prior, vote@) {
                    Err(e) => {
                        &&& r == Err::<(), ContractError>(e)
                        &&& final(store).polls_view() == old(store).polls_view()
                        &&& final(store).ballots_view() == old(store).ballots_view()
                    },
                    Ok(updated) => {
                        &&& r == Ok::<(), ContractError>(())
                        &&& final(store).polls_view() == poll_insert(
                            old(store).polls_view(),
                            poll_id@,
                            updated,
                        )
                        &&& final(store).ballots_view() == ballot_insert(
                            old(store).ballots_view(),
                            (sender@, poll_id@),
                            BallotV { option: vote@ },
                        )
                    },
                }
            },
        },
{
    let ghost sender0 = sender@;
    let ghost pid0 = poll_id@;
    let ghost vote0 = vote@;
    let ghost polls0 = store.polls_view();
    let ghost ballots0 = store.ballots_view();
    let poll_opt = store.polls_may_load(&poll_id);
    match poll_opt {
        None => Err(ContractError::Unauthorized),
        Some(mut poll) => {
            let ghost poll0 = poll@;
            let prior = store.ballots_may_load(&sender, &poll_id);
            let ghost priorv = match &prior {
                Some(b) => Some(b@),
                None => None::<BallotV>,
            };
            match &prior {
                Some(ballot) => {
                    match find_option(&poll.options, &ballot.option) {
                        None => {
                            return Err(ContractError::Internal);
                        },
                        Some(i) => {
                            let count = poll.options[i].1;
                            if count == 0 {
                                return Err(ContractError::Internal);
                            }
                            let label = poll.options[i].0.clone();
                            poll.options[i] = (label, count - 1);
                            proof {
                                assert(options_view(poll.options@) =~= poll0.options.update(
                                    i as int,
                                    (poll0.options[i as int].0, (poll0.options[i as int].1
                                        - 1) as u64),
                                ));
                                assert(revoke_prior(poll0, priorv) == Ok::<
                                    PollV,
                                    ContractError,
                                >(poll@)) by {
                                    assert(poll@ =~= (PollV {
                                        options: poll0.options.update(
                                            i as int,
                                            (poll0.options[i as int].0, (poll0.options[i as int].1
                                                - 1) as u64),
                                        ),
                                        ..poll0
                                    }));
                                }
                            }
                        },
                    }
                },
                None => {
                    proof {
                        assert(revoke_prior(poll0, priorv) == Ok::<PollV, ContractError>(poll@));
                    }
                },
            }
            let ghost poll1 = poll@;
            match find_option(&poll.options, &vote) {
                None => {
                    return Err(ContractError::Unauthorized);
                },
                Some(i) => {
                    let count = poll.options[i].1;
                    if count == u64::MAX {
                        return Err(ContractError::Internal);
                    }
                    let label = poll.options[i].0.clone();
                    poll.options[i] = (label, count + 1);
                    proof {
                        assert(options_view(poll.options@) =~= poll1.options.update(
                            i as int,
                            (poll1.options[i as int].0, (poll1.options[i as int].1 + 1) as u64),
                        ));
                        assert(add_vote(poll1, vote0) == Ok::<PollV, ContractError>(poll@)) by {
                            assert(poll@ =~= (PollV {
                                options: poll1.options.update(
                                    i as int,
                                    (poll1.options[i as int].0, (poll1.options[i as int].1
                                        + 1) as u64),
                                ),
                                ..poll1
                            }));
                        }
                        assert(vote_step(poll0, priorv, vote0) == Ok::<PollV, ContractError>(
                            poll@,
                        ));
                    }
                },
            }
            let ballot = Ballot { option: vote };
            proof {
                assert(ballot@ =~= BallotV { option: vote0 });
            }
            store.ballots_save(sender, poll_id.clone(), ballot);
            store.polls_save(poll_id, poll);
            Ok(())
        },
    }
}

/// Records the configuration: the named admin, or the caller when none is
/// named, and returns the identity recorded. A prior configuration is
/// silently overwritten; guarding against repeated initialization is the
/// host's concern.
pub fn instantiate(store: &mut Store, sender: String, msg: InstantiateMsg) -> (r: Result<
    String,
    ContractError,
>)
    requires
        old(store).wf(),
    ensures
        final(store).wf(),
        final(store).config_view() == Some(
            ConfigV { admin: chosen_admin(deep_admin(msg), sender@) },
        ),
        (r matches Ok(a) && a@ == chosen_admin(deep_admin(msg), sender@)),
        final(store).polls_view() == old(store).polls_view(),
        final(store).ballots_view() == old(store).ballots_view(),
{
    let ghost sender0 = sender@;
    let ghost admin0 = deep_admin(msg);
    let admin = match msg.admin {
        Some(a) => a,
        None => sender,
    };
    store.config_save(Config { admin: admin.clone() });
    proof {
        assert(ConfigV { admin: admin@ } =~= ConfigV { admin: chosen_admin(admin0, sender0) });
    }
    Ok(admin)
}

/// The admin field of an initialization message, by view.
pub open spec fn deep_admin(msg: InstantiateMsg) -> Option<Seq<char>> {
    match msg.admin {
        Some(a) => Some(a@),
        None => None,
    }
}

/// Creates a poll under a caller-chosen id: at most `MAX_OPTIONS` option
/// labels, each starting at count zero in the caller's order. An existing
/// poll under the same id is overwritten unconditionally, counts included.
pub fn execute_create_poll(
    store: &mut Store,
    sender: String,
    poll_id: String,
    question: String,
    options: Vec<String>,
) -> (r: Result<(), ContractError>)
    requires
        old(store).wf(),
    ensures
        final(store).wf(),
        final(store).config_view() == old(store).config_view(),
        final(store).ballots_view() == old(store).ballots_view(),
        options@.len() > MAX_OPTIONS ==> {
            &&& r == Err::<(), ContractError>(ContractError::TooManyOptions)
            &&& final(store).polls_view() == old(store).polls_view()
        },
        options@.len() <= MAX_OPTIONS ==> {
            &&& r == Ok::<(), ContractError>(())
            &&& final(store).polls_view() == poll_insert(
                old(store).polls_view(),
                poll_id@,
                created_poll(sender@, question@, options@.map_values(|l: String| l@)),
            )
        },
{
    if options.len() > MAX_OPTIONS {
        return Err(ContractError::TooManyOptions);
    }
    let ghost labels = options@.map_values(|l: String| l@);
    let mut opts: Vec<(String, u64)> = Vec::new();
    let mut i: usize = 0;
    while i < options.len()
        invariant
            i <= options.len(),
            labels == options@.map_values(|l: String| l@),
            opts@.len() == i as int,
            forall|j: int| 0 <= j < i ==> #[trigger] opts@[j].0@ == labels[j] && opts@[j].1 == 0u64,
        decreases options.len() - i,
    {
        opts.push((options[i].clone(), 0));
        i = i + 1;
    }
    let poll = Poll { creator: sender, question, options: opts };
    proof {
        assert(options_view(poll.options@) =~= init_options(labels));
        assert(poll@ =~= created_poll(poll.creator@, poll.question@, labels));
    }
    store.polls_save(poll_id, poll);
    Ok(())
}

/// Dispatches a state-changing request to the operation it names, with the
/// caller's identity supplied by the host.
pub fn execute(store: &mut Store, sender: String, msg: ExecuteMsg) -> (r: Result<
    (),
    ContractError,
>)
    requires
        old(store).wf(),
    ensures
        final(store).wf(),
        final(store).config_view() == old(store).config_view(),
        match msg {
            ExecuteMsg::CreatePoll { poll_id, question, options } => {
                &&& final(store).ballots_view() == old(store).ballots_view()
                &&& options@.len() > MAX_OPTIONS ==> {
                    &&& r == Err::<(), ContractError>(ContractError::TooManyOptions)
                    &&& final(store).polls_view() == old(store).polls_view()
                }
                &&& options@.len() <= MAX_OPTIONS ==> {
                    &&& r == Ok::<(), ContractError>(())
                    &&& final(store).polls_view() == poll_insert(
                        old(store).polls_view(),
                        poll_id@,
                        created_poll(sender@, question@, options@.map_values(|l: String| l@)),
                    )
                }
            },
            ExecuteMsg::Vote { poll_id, vote } => match poll_lookup(
                old(store).polls_view(),
                poll_id@,
            ) {
                None => {
                    &&& r == Err::<(), ContractError>(ContractError::Unauthorized)
                    &&& final(store).polls_view() == old(store).polls_view()
                    &&& final(store).ballots_view() == old(store).ballots_view()
                },
                Some(poll) => {
                    let prior = ballot_lookup(old(store).ballots_view(), (sender@, poll_id@));
                    match vote_step(poll, prior, vote@) {
                        Err(e) => {
                            &&& r == Err::<(), ContractError>(e)
                            &&& final(store).polls_view() == old(store).polls_view()
                            &&& final(store).ballots_view() == old(store).ballots_view()
                        },
                        Ok(updated) => {
                            &&& r == Ok::<(), ContractError>(())
                            &&& final(store).polls_view() == poll_insert(
                                old(store).polls_view(),
                                poll_id@,
                                updated,
                            )
                            &&& final(store).ballots_view() == ballot_insert(
                                old(store).ballots_view(),
                                (sender@, poll_id@),
                                BallotV { option: vote@ },
                            )
                        },
                    }
                },
            },
        },
{
    match msg {
        ExecuteMsg::CreatePoll { poll_id, question, options } => execute_create_poll(
            store,
            sender,
            poll_id,
            question,
            options,
        ),
        ExecuteMsg::Vote { poll_id, vote } => execute_vote(store, sender, poll_id, vote),
    }
}

/// Every stored poll, in ascending order of poll id.
pub fn query_all_polls(store: &Store) -> (r: AllPollsResponse)
    ensures
        r.polls@.map_values(|p: Poll| p@) == store.polls_view().map_values(
            |pr: (Seq<char>, PollV)| pr.1,
        ),
{
    let entries = store.polls_range();
    let mut polls: Vec<Poll> = Vec::new();
    let mut i: usize = 0;
    while i < entries.len()
        invariant
            i <= entries@.len(),
            entries@.map_values(|p: (String, Poll)| (p.0@, p.1@)) == store.polls_view(),
            polls@.len() == i as int,
            forall|j: int| 0 <= j < i ==> (#[trigger] polls@[j])@ == store.polls_view()[j].1,
        decreases entries@.len() - i,
    {
        proof {
            assert(store.polls_view()[i as int] == (entries@[i as int].0@, entries@[i as int].1@));
        }
        polls.push(entries[i].1.clone());
        i = i + 1;
    }
    proof {
        assert(polls@.map_values(|p: Poll| p@) =~= store.polls_view().map_values(
            |pr: (Seq<char>, PollV)| pr.1,
        ));
    }
    AllPollsResponse { polls }
}

/// The poll stored under `poll_id`; absence is a normal result, not an
/// error.
pub fn query_poll(store: &Store, poll_id: String) -> (r: PollResponse)
    ensures
        match r.poll {
            Some(p) => poll_lookup(store.polls_view(), poll_id@) == Some(p@),
            None => poll_lookup(store.polls_view(), poll_id@) == None::<PollV>,
        },
{
    PollResponse { poll: store.polls_may_load(&poll_id) }
}

/// The ballot stored under (voter, poll id), after checking that the voter
/// identifier is well formed; absence of the ballot is a normal result.
pub fn query_vote(store: &Store, address: String, poll_id: String) -> (r: Result<
    VoteResponse,
    ContractError,
>)
    ensures
        match r {
            Ok(resp) => valid_identity(address@) && (match resp.vote {
                Some(b) => ballot_lookup(store.ballots_view(), (address@, poll_id@)) == Some(b@),
                None => ballot_lookup(store.ballots_view(), (address@, poll_id@)) == None::<
                    BallotV,
                >,
            }),
            Err(e) => e == ContractError::InvalidAddress && !valid_identity(address@),
        },
{
    if !validate_identity(address.as_str()) {
        return Err(ContractError::InvalidAddress);
    }
    Ok(VoteResponse { vote: store.ballots_may_load(&address, &poll_id) })
}

/// Dispatches a read-only query to the operation it names. Only a vote
/// query can fail, and only on a malformed voter identifier.
pub fn query(store: &Store, msg: QueryMsg) -> (r: Result<QueryResponse, ContractError>)
    ensures
        match msg {
            QueryMsg::AllPoll {  } => (r matches Ok(QueryResponse::AllPolls(resp))
                && resp.polls@.map_values(|p: Poll| p@) == store.polls_view().map_values(
                |pr: (Seq<char>, PollV)| pr.1,
            )),
            QueryMsg::Poll { poll_id } => (r matches Ok(QueryResponse::Poll(resp)) && (
            match resp.poll {
                Some(p) => poll_lookup(store.polls_view(), poll_id@) == Some(p@),
                None => poll_lookup(store.polls_view(), poll_id@) == None::<PollV>,
            })),
            QueryMsg::Vote { poll_id, address } => {
                &&& valid_identity(address@) ==> (r matches Ok(QueryResponse::Vote(resp)) && (
                match resp.vote {
                    Some(b) => ballot_lookup(store.ballots_view(), (address@, poll_id@)) == Some(
                        b@,
                    ),
                    None => ballot_lookup(store.ballots_view(), (address@, poll_id@)) == None::<
                        BallotV,
                    >,
                }))
                &&& !valid_identity(address@) ==> r == Err::<QueryResponse, ContractError>(
                    ContractError::InvalidAddress,
                )
            },
        },
{
    match msg {
        QueryMsg::AllPoll {  } => Ok(QueryResponse::AllPolls(query_all_polls(store))),
        QueryMsg::Poll { poll_id } => Ok(QueryResponse::Poll(query_poll(store, poll_id))),
        QueryMsg::Vote { poll_id, address } => match query_vote(store, address, poll_id) {
            Ok(resp) => Ok(QueryResponse::Vote(resp)),
            Err(e) => Err(e),
        },
    }
}

/// Reserved: migration is not yet supported. Every call fails
/// deterministically and writes nothing.
pub fn migrate(store: &mut Store, _msg: MigrateMsg) -> (r: Result<(), ContractError>)
    ensures
        r == Err::<(), ContractError>(ContractError::Unimplemented),
        *final(store) == *old(store),
{
    Err(ContractError::Unimplemented)
}

} // verus!
