//! Further checks of the engine: exact counts after voting and revoting,
//! every error kind, the stored scan order, identifier validation bounds,
//! and the behaviour around destructive poll overwrites.

use cw_starter::contract::{
    execute, instantiate, migrate, query, query_all_polls, query_poll, query_vote,
};
use cw_starter::error::ContractError;
use cw_starter::msg::{ExecuteMsg, InstantiateMsg, MigrateMsg, QueryMsg, QueryResponse};
use cw_starter::state::Poll;
use cw_starter::store::Store;

const VOTER: &str = "cosmos1g84934fjawef9w4vl4um68mjhuhlx5xstt0whp";

fn create(store: &mut Store, id: &str, question: &str, options: &[&str]) {
    let msg = ExecuteMsg::CreatePoll {
        poll_id: id.to_string(),
        question: question.to_string(),
        options: options.iter().map(|o| o.to_string()).collect(),
    };
    execute(store, VOTER.to_string(), msg).unwrap();
}

fn vote(store: &mut Store, id: &str, option: &str) -> Result<(), ContractError> {
    let msg = ExecuteMsg::Vote {
        poll_id: id.to_string(),
        vote: option.to_string(),
    };
    execute(store, VOTER.to_string(), msg)
}

fn counts(store: &Store, id: &str) -> Vec<(String, u64)> {
    let poll: Poll = query_poll(store, id.to_string()).poll.unwrap();
    poll.options
}

#[test]
fn admin_defaults_to_caller_and_can_be_overridden() {
    let mut store = Store::new();
    let res = instantiate(&mut store, "creator1".to_string(), InstantiateMsg { admin: None });
    assert_eq!(res.unwrap(), "creator1".to_string());
    assert_eq!(store.config_load().unwrap().admin, "creator1".to_string());

    // A second initialization overwrites the configuration silently, and a
    // named admin is recorded unchecked.
    let res = instantiate(
        &mut store,
        "creator1".to_string(),
        InstantiateMsg { admin: Some("X".to_string()) },
    );
    assert_eq!(res.unwrap(), "X".to_string());
    assert_eq!(store.config_load().unwrap().admin, "X".to_string());
}

#[test]
fn config_read_before_initialization_is_not_found() {
    let store = Store::new();
    assert_eq!(store.config_load().unwrap_err(), ContractError::NotFound);
}

#[test]
fn fresh_poll_starts_with_zero_counts_in_input_order() {
    let mut store = Store::new();
    create(&mut store, "p1", "Q", &["A", "B", "C"]);
    assert_eq!(
        counts(&store, "p1"),
        vec![
            ("A".to_string(), 0),
            ("B".to_string(), 0),
            ("C".to_string(), 0)
        ]
    );
    let poll = query_poll(&store, "p1".to_string()).poll.unwrap();
    assert_eq!(poll.creator, VOTER.to_string());
    assert_eq!(poll.question, "Q".to_string());
}

#[test]
fn eleven_options_fail_and_write_nothing() {
    let mut store = Store::new();
    let labels: Vec<String> = (1..=11).map(|n| n.to_string()).collect();
    let msg = ExecuteMsg::CreatePoll {
        poll_id: "p1".to_string(),
        question: "Q".to_string(),
        options: labels,
    };
    let err = execute(&mut store, VOTER.to_string(), msg).unwrap_err();
    assert_eq!(err, ContractError::TooManyOptions);
    // The failed creation left no poll behind.
    assert!(query_poll(&store, "p1".to_string()).poll.is_none());
}

#[test]
fn ten_options_are_accepted() {
    let mut store = Store::new();
    let labels: Vec<&str> = vec!["1", "2", "3", "4", "5", "6", "7", "8", "9", "10"];
    create(&mut store, "p1", "Q", &labels);
    assert_eq!(counts(&store, "p1").len(), 10);
}

#[test]
fn first_vote_adds_one_to_the_chosen_option_only() {
    let mut store = Store::new();
    create(&mut store, "p1", "Q", &["A", "B", "C"]);
    vote(&mut store, "p1", "B").unwrap();
    assert_eq!(
        counts(&store, "p1"),
        vec![
            ("A".to_string(), 0),
            ("B".to_string(), 1),
            ("C".to_string(), 0)
        ]
    );
    // The response of the range query shows the same single poll.
    let all = query_all_polls(&store).polls;
    assert_eq!(all.len(), 1);
    assert_eq!(all[0].options[1], ("B".to_string(), 1));
}

#[test]
fn changing_the_vote_moves_one_unit_and_conserves_the_total() {
    let mut store = Store::new();
    create(&mut store, "p1", "Q", &["A", "B", "C"]);
    vote(&mut store, "p1", "B").unwrap();
    vote(&mut store, "p1", "C").unwrap();
    let c = counts(&store, "p1");
    assert_eq!(
        c,
        vec![
            ("A".to_string(), 0),
            ("B".to_string(), 0),
            ("C".to_string(), 1)
        ]
    );
    let total: u64 = c.iter().map(|p| p.1).sum();
    assert_eq!(total, 1);
}

#[test]
fn revoting_the_same_option_keeps_the_counts() {
    let mut store = Store::new();
    create(&mut store, "p1", "Q", &["A", "B"]);
    vote(&mut store, "p1", "A").unwrap();
    vote(&mut store, "p1", "A").unwrap();
    assert_eq!(
        counts(&store, "p1"),
        vec![("A".to_string(), 1), ("B".to_string(), 0)]
    );
    let ballot = query_vote(&store, VOTER.to_string(), "p1".to_string())
        .unwrap()
        .vote
        .unwrap();
    assert_eq!(ballot.option, "A".to_string());
}

#[test]
fn voting_on_a_missing_poll_is_unauthorized_and_writes_nothing() {
    let mut store = Store::new();
    let err = vote(&mut store, "nope", "A").unwrap_err();
    assert_eq!(err, ContractError::Unauthorized);
    assert!(query_vote(&store, VOTER.to_string(), "nope".to_string())
        .unwrap()
        .vote
        .is_none());
}

#[test]
fn voting_for_an_unknown_option_is_unauthorized_and_writes_nothing() {
    let mut store = Store::new();
    create(&mut store, "p1", "Q", &["A", "B"]);
    let err = vote(&mut store, "p1", "Z").unwrap_err();
    assert_eq!(err, ContractError::Unauthorized);
    assert_eq!(
        counts(&store, "p1"),
        vec![("A".to_string(), 0), ("B".to_string(), 0)]
    );
    assert!(query_vote(&store, VOTER.to_string(), "p1".to_string())
        .unwrap()
        .vote
        .is_none());
}

#[test]
fn absent_poll_and_absent_vote_are_normal_results() {
    let store = Store::new();
    assert!(query_poll(&store, "p1".to_string()).poll.is_none());
    let res = query_vote(&store, VOTER.to_string(), "p1".to_string()).unwrap();
    assert!(res.vote.is_none());
}

#[test]
fn malformed_voter_identifier_is_rejected_on_vote_query() {
    let store = Store::new();
    for bad in ["", "ab", "ABC", "has space", "has_underscore", &"a".repeat(91)] {
        let err = query_vote(&store, bad.to_string(), "p1".to_string()).unwrap_err();
        assert_eq!(err, ContractError::InvalidAddress);
    }
    for good in ["abc", "addr2", &"a".repeat(90)] {
        assert!(query_vote(&store, good.to_string(), "p1".to_string()).is_ok());
    }
    // The same malformed identifier through the query dispatcher.
    let msg = QueryMsg::Vote {
        poll_id: "p1".to_string(),
        address: "ABC".to_string(),
    };
    assert_eq!(query(&store, msg).unwrap_err(), ContractError::InvalidAddress);
}

#[test]
fn polls_come_back_in_ascending_id_order() {
    let mut store = Store::new();
    create(&mut store, "zeta", "Qz", &["A"]);
    create(&mut store, "alpha", "Qa", &["A"]);
    create(&mut store, "mid", "Qm", &["A"]);
    let msg = QueryMsg::AllPoll {};
    let polls = match query(&store, msg).unwrap() {
        QueryResponse::AllPolls(r) => r.polls,
        _ => panic!("unexpected response kind"),
    };
    let questions: Vec<String> = polls.into_iter().map(|p| p.question).collect();
    assert_eq!(
        questions,
        vec!["Qa".to_string(), "Qm".to_string(), "Qz".to_string()]
    );
}

#[test]
fn reusing_a_poll_id_overwrites_the_poll_and_its_counts() {
    let mut store = Store::new();
    create(&mut store, "p1", "Q old", &["A", "B"]);
    vote(&mut store, "p1", "A").unwrap();
    create(&mut store, "p1", "Q new", &["A", "B"]);
    // The recreate reset the counts; only one poll exists.
    assert_eq!(query_all_polls(&store).polls.len(), 1);
    assert_eq!(
        counts(&store, "p1"),
        vec![("A".to_string(), 0), ("B".to_string(), 0)]
    );
}

#[test]
fn stale_ballot_after_overwrite_with_new_labels_is_internal() {
    let mut store = Store::new();
    create(&mut store, "p1", "Q", &["A", "B"]);
    vote(&mut store, "p1", "A").unwrap();
    create(&mut store, "p1", "Q", &["X", "Y"]);
    // The prior ballot names an option the new poll does not carry.
    let err = vote(&mut store, "p1", "X").unwrap_err();
    assert_eq!(err, ContractError::Internal);
    assert_eq!(
        counts(&store, "p1"),
        vec![("X".to_string(), 0), ("Y".to_string(), 0)]
    );
}

#[test]
fn stale_ballot_after_overwrite_with_zero_count_is_internal() {
    let mut store = Store::new();
    create(&mut store, "p1", "Q", &["A", "B"]);
    vote(&mut store, "p1", "A").unwrap();
    create(&mut store, "p1", "Q", &["A", "B"]);
    // The prior ballot's option is present again, but its count was reset.
    let err = vote(&mut store, "p1", "B").unwrap_err();
    assert_eq!(err, ContractError::Internal);
}

#[test]
fn ballots_are_kept_per_voter_and_poll() {
    let mut store = Store::new();
    create(&mut store, "p1", "Q", &["A", "B"]);
    create(&mut store, "p2", "Q", &["A", "B"]);
    let msg = ExecuteMsg::Vote {
        poll_id: "p1".to_string(),
        vote: "A".to_string(),
    };
    execute(&mut store, "addr1".to_string(), msg).unwrap();
    let msg = ExecuteMsg::Vote {
        poll_id: "p2".to_string(),
        vote: "B".to_string(),
    };
    execute(&mut store, "addr1".to_string(), msg).unwrap();
    let msg = ExecuteMsg::Vote {
        poll_id: "p1".to_string(),
        vote: "B".to_string(),
    };
    execute(&mut store, "addr2".to_string(), msg).unwrap();

    let b = query_vote(&store, "addr1".to_string(), "p1".to_string()).unwrap();
    assert_eq!(b.vote.unwrap().option, "A".to_string());
    let b = query_vote(&store, "addr1".to_string(), "p2".to_string()).unwrap();
    assert_eq!(b.vote.unwrap().option, "B".to_string());
    let b = query_vote(&store, "addr2".to_string(), "p1".to_string()).unwrap();
    assert_eq!(b.vote.unwrap().option, "B".to_string());
    assert_eq!(
        counts(&store, "p1"),
        vec![("A".to_string(), 1), ("B".to_string(), 1)]
    );
}

#[test]
fn duplicate_labels_count_on_the_first_entry() {
    let mut store = Store::new();
    create(&mut store, "p1", "Q", &["A", "A"]);
    vote(&mut store, "p1", "A").unwrap();
    assert_eq!(
        counts(&store, "p1"),
        vec![("A".to_string(), 1), ("A".to_string(), 0)]
    );
}

#[test]
fn migrate_is_reserved_and_always_fails() {
    let mut store = Store::new();
    let err = migrate(&mut store, MigrateMsg::Reserved).unwrap_err();
    assert_eq!(err, ContractError::Unimplemented);
}
