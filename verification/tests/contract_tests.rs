//! The engine's original scenarios: initialization, poll creation, voting,
//! and the three queries, each run against a fresh in-memory store.

use cw_starter::contract::{execute, instantiate, query};
use cw_starter::msg::{ExecuteMsg, InstantiateMsg, QueryMsg, QueryResponse};
use cw_starter::store::Store;

pub const ADDR1: &str = "cosmos1g84934fjawef9w4vl4um68mjhuhlx5xstt0whp";
pub const ADDR2: &str = "addr2";

#[test]
fn test_query_all_polls() {
    let mut store = Store::new();
    let msg = InstantiateMsg { admin: None };
    let _res = instantiate(&mut store, ADDR1.to_string(), msg);

    let msg = ExecuteMsg::CreatePoll {
        poll_id: "some_id_1".to_string(),
        question: "jdksjkkdj".to_string(),
        options: vec![
            "Cosmos Hub".to_string(),
            "Juno".to_string(),
            "Osmosis".to_string(),
        ],
    };
    let _res = execute(&mut store, ADDR1.to_string(), msg).unwrap();

    let msg = ExecuteMsg::CreatePoll {
        poll_id: "some_id_2".to_string(),
        question: "What's your colour?".to_string(),
        options: vec!["Red".to_string(), "Green".to_string(), "Blue".to_string()],
    };
    let _res = execute(&mut store, ADDR1.to_string(), msg).unwrap();

    let msg = QueryMsg::AllPoll {};
    let res = query(&store, msg).unwrap();
    match res {
        QueryResponse::AllPolls(r) => assert_eq!(r.polls.len(), 2),
        _ => panic!("unexpected response kind"),
    }
}

#[test]
fn test_query_poll() {
    let mut store = Store::new();
    let msg = InstantiateMsg { admin: None };
    let _res = instantiate(&mut store, ADDR1.to_string(), msg).unwrap();

    let msg = ExecuteMsg::CreatePoll {
        poll_id: "some_id_1".to_string(),
        question: "What's your favourite Cosmos coin?".to_string(),
        options: vec![
            "Cosmos Hub".to_string(),
            "Juno".to_string(),
            "Osmosis".to_string(),
        ],
    };
    let _res = execute(&mut store, ADDR1.to_string(), msg).unwrap();

    // Query for the poll that exists
    let msg = QueryMsg::Poll {
        poll_id: "some_id_1".to_string(),
    };
    let res = query(&store, msg).unwrap();
    match res {
        QueryResponse::Poll(r) => assert!(r.poll.is_some()),
        _ => panic!("unexpected response kind"),
    }

    // Query for the poll that does not exist
    let msg = QueryMsg::Poll {
        poll_id: "some_id_not_exist".to_string(),
    };
    let res = query(&store, msg).unwrap();
    match res {
        QueryResponse::Poll(r) => assert!(r.poll.is_none()),
        _ => panic!("unexpected response kind"),
    }
}

#[test]
fn test_query_vote() {
    let mut store = Store::new();
    let msg = InstantiateMsg { admin: None };
    let _res = instantiate(&mut store, ADDR1.to_string(), msg).unwrap();

    let msg = ExecuteMsg::CreatePoll {
        poll_id: "some_id_1".to_string(),
        question: "What's your favourite Cosmos coin?".to_string(),
        options: vec![
            "Cosmos Hub".to_string(),
            "Juno".to_string(),
            "Osmosis".to_string(),
        ],
    };
    let _res = execute(&mut store, ADDR1.to_string(), msg).unwrap();

    let msg = ExecuteMsg::Vote {
        poll_id: "some_id_1".to_string(),
        vote: "Juno".to_string(),
    };
    let _res = execute(&mut store, ADDR1.to_string(), msg).unwrap();

    // Query for a vote that exists
    let msg = QueryMsg::Vote {
        poll_id: "some_id_1".to_string(),
        address: ADDR1.to_string(),
    };
    let res = query(&store, msg).unwrap();
    match res {
        QueryResponse::Vote(r) => assert!(r.vote.is_some()),
        _ => panic!("unexpected response kind"),
    }

    // Query for a vote that does not exist
    let msg = QueryMsg::Vote {
        poll_id: "some_id_2".to_string(),
        address: ADDR2.to_string(),
    };
    let res = query(&store, msg).unwrap();
    match res {
        QueryResponse::Vote(r) => assert!(r.vote.is_none()),
        _ => panic!("unexpected response kind"),
    }
}

#[test]
fn test_instantiate() {
    let mut store = Store::new();
    let msg = InstantiateMsg { admin: None };
    let res = instantiate(&mut store, ADDR1.to_string(), msg).unwrap();
    // With no admin named, the caller is recorded.
    assert_eq!(res, ADDR1.to_string());
}

#[test]
fn test_instantiate_with_admin() {
    let mut store = Store::new();
    let msg = InstantiateMsg {
        admin: Some(ADDR2.to_string()),
    };
    let res = instantiate(&mut store, ADDR1.to_string(), msg).unwrap();
    // The named admin is recorded, not the caller.
    assert_eq!(res, ADDR2.to_string());
}

#[test]
fn test_execute_create_poll_valid() {
    let mut store = Store::new();
    let msg = InstantiateMsg { admin: None };
    let _res = instantiate(&mut store, ADDR1.to_string(), msg).unwrap();

    let msg = ExecuteMsg::CreatePoll {
        poll_id: "some_id".to_string(),
        question: "What's your favourite cosmos coin?".to_string(),
        options: vec![
            "Cosmos hub".to_string(),
            "Juno".to_string(),
            "Osmosis".to_string(),
        ],
    };
    let _res = execute(&mut store, ADDR1.to_string(), msg).unwrap();
}

#[test]
fn test_execute_create_poll_invalid() {
    let mut store = Store::new();
    let msg = InstantiateMsg { admin: None };
    let _res = instantiate(&mut store, ADDR1.to_string(), msg).unwrap();

    let msg = ExecuteMsg::CreatePoll {
        poll_id: "some_id".to_string(),
        question: "What's your favourite number?".to_string(),
        options: vec![
            "1".to_string(),
            "2".to_string(),
            "3".to_string(),
            "4".to_string(),
            "5".to_string(),
            "6".to_string(),
            "7".to_string(),
            "8".to_string(),
            "9".to_string(),
            "10".to_string(),
            "11".to_string(),
        ],
    };
    let _err = execute(&mut store, ADDR1.to_string(), msg).unwrap_err();
}

#[test]
fn test_execute_vote_valid() {
    let mut store = Store::new();
    let msg = InstantiateMsg { admin: None };
    let _res = instantiate(&mut store, ADDR1.to_string(), msg).unwrap();

    let msg = ExecuteMsg::CreatePoll {
        poll_id: "some_id".to_string(),
        question: "What's your favourite Cosmos coin?".to_string(),
        options: vec![
            "Cosmos Hub".to_string(),
            "Juno".to_string(),
            "Osmosis".to_string(),
        ],
    };
    let _res = execute(&mut store, ADDR1.to_string(), msg).unwrap();

    // First vote
    let msg = ExecuteMsg::Vote {
        poll_id: "some_id".to_string(),
        vote: "Juno".to_string(),
    };
    let _res = execute(&mut store, ADDR1.to_string(), msg).unwrap();

    // Change the vote
    let msg = ExecuteMsg::Vote {
        poll_id: "some_id".to_string(),
        vote: "Osmosis".to_string(),
    };
    let _res = execute(&mut store, ADDR1.to_string(), msg).unwrap();
}

#[test]
fn test_execute_vote_invalid() {
    let mut store = Store::new();
    let msg = InstantiateMsg { admin: None };
    let _res = instantiate(&mut store, ADDR1.to_string(), msg).unwrap();

    // Vote on a poll that does not yet exist
    let msg = ExecuteMsg::Vote {
        poll_id: "some_id".to_string(),
        vote: "Juno".to_string(),
    };
    let _err = execute(&mut store, ADDR1.to_string(), msg).unwrap_err();

    let msg = ExecuteMsg::CreatePoll {
        poll_id: "some_id".to_string(),
        question: "What's your favourite Cosmos coin?".to_string(),
        options: vec![
            "Cosmos Hub".to_string(),
            "Juno".to_string(),
            "Osmosis".to_string(),
        ],
    };
    let _res = execute(&mut store, ADDR1.to_string(), msg).unwrap();

    // Vote for an option the poll does not carry
    let msg = ExecuteMsg::Vote {
        poll_id: "some_id".to_string(),
        vote: "DVPN".to_string(),
    };
    let _err = execute(&mut store, ADDR1.to_string(), msg).unwrap_err();
}
