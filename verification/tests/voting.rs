use std::collections::BTreeMap;

use chain_contracts::voting::contract::{
    execute, execute_create_poll, execute_vote, instantiate, instantiate_admin, vote_would_abort,
    Attribute, MAX_OPTIONS,
};
use chain_contracts::voting::error::ContractError;
use chain_contracts::voting::msg::{ExecuteMsg, InstantiateMsg};
use chain_contracts::voting::state::{Ballot, Config, Poll};

pub const ADDR1: &str = "addr1";
pub const ADDR2: &str = "addr2";

fn attr(key: &str, value: &str) -> Attribute {
    Attribute { key: key.to_string(), value: value.to_string() }
}

/// The contract's storage as the host keeps it, with the host's rule that a
/// refused call stores nothing.
#[derive(Default)]
struct Chain {
    config: Option<Config>,
    polls: BTreeMap<String, Poll>,
    ballots: BTreeMap<(String, String), Ballot>,
}

impl Chain {
    fn instantiate(&mut self, sender: &str, msg: InstantiateMsg) -> Vec<Attribute> {
        let admin = instantiate_admin(&msg, &sender.to_string());
        let (config, attrs) = instantiate(admin);
        self.config = Some(config);
        attrs
    }

    fn execute(&mut self, sender: &str, msg: ExecuteMsg) -> Result<Vec<Attribute>, ContractError> {
        let (poll, ballot) = match &msg {
            ExecuteMsg::Vote { poll_id, vote } => {
                let poll = self.polls.get(poll_id).cloned();
                let ballot = self.ballots.get(&(sender.to_string(), poll_id.clone())).cloned();
                if let Some(p) = &poll {
                    assert!(!vote_would_abort(p, &ballot, vote));
                }
                (poll, ballot)
            }
            _ => (None, None),
        };
        let effects = execute(sender.to_string(), msg, poll, ballot)?;
        if let Some(b) = effects.ballot {
            self.ballots.insert((sender.to_string(), effects.poll_id.clone()), b);
        }
        self.polls.insert(effects.poll_id, effects.poll);
        Ok(effects.attributes)
    }

    fn query_all_polls(&self) -> Vec<Poll> {
        self.polls.values().cloned().collect()
    }

    fn query_poll(&self, poll_id: &str) -> Option<Poll> {
        self.polls.get(poll_id).cloned()
    }

    fn counts(&self, poll_id: &str) -> Vec<u64> {
        self.polls[poll_id].options.iter().map(|o| o.1).collect()
    }
}

fn create_poll_msg(poll_id: &str, question: &str, options: &[&str]) -> ExecuteMsg {
    ExecuteMsg::CreatePoll {
        poll_id: poll_id.to_string(),
        question: question.to_string(),
        options: options.iter().map(|s| s.to_string()).collect(),
    }
}

fn vote_msg(poll_id: &str, vote: &str) -> ExecuteMsg {
    ExecuteMsg::Vote { poll_id: poll_id.to_string(), vote: vote.to_string() }
}

#[test]
fn test_instantiate() {
    let mut chain = Chain::default();
    let attrs = chain.instantiate(ADDR1, InstantiateMsg { admin: None });
    assert_eq!(attrs, vec![attr("action", "instantiate"), attr("admin", ADDR1)]);
    assert_eq!(chain.config, Some(Config { admin: ADDR1.to_string() }));
}

#[test]
fn test_instantiate_with_admin() {
    let mut chain = Chain::default();
    let attrs = chain.instantiate(ADDR1, InstantiateMsg { admin: Some(ADDR2.to_string()) });
    assert_eq!(attrs, vec![attr("action", "instantiate"), attr("admin", ADDR2)]);
    assert_eq!(chain.config, Some(Config { admin: ADDR2.to_string() }));
}

#[test]
fn test_execute_create_poll_valid() {
    let mut chain = Chain::default();
    chain.instantiate(ADDR1, InstantiateMsg { admin: None });
    let res = chain
        .execute(ADDR1, create_poll_msg("p1", "favorite chain", &["ATOM", "LUNA"]))
        .unwrap();
    assert_eq!(res, vec![attr("action", "execute_create_poll"), attr("poll_id", "p1")]);
}

#[test]
fn test_execute_create_poll_invalid() {
    let mut chain = Chain::default();
    chain.instantiate(ADDR1, InstantiateMsg { admin: None });
    let options = ["1", "2", "3", "4", "5", "6", "7", "8", "9", "10", "11"];
    let _err = chain
        .execute(ADDR1, create_poll_msg("p1", "favorite chain", &options))
        .unwrap_err();
}

#[test]
fn test_query_all_polls() {
    let mut chain = Chain::default();
    chain.instantiate(ADDR1, InstantiateMsg { admin: None });
    chain
        .execute(
            ADDR1,
            create_poll_msg(
                "some_id_1",
                "What's your favourite Cosmos coin?",
                &["Cosmos Hub", "Juno", "Osmosis"],
            ),
        )
        .unwrap();
    chain
        .execute(ADDR1, create_poll_msg("some_id_2", "What's your colour?", &["Red", "Green", "Blue"]))
        .unwrap();
    assert_eq!(chain.query_all_polls().len(), 2);
}

#[test]
fn test_query_poll() {
    let mut chain = Chain::default();
    chain.instantiate(ADDR1, InstantiateMsg { admin: None });
    chain
        .execute(
            ADDR1,
            create_poll_msg(
                "some_id_1",
                "What's your favourite Cosmos coin?",
                &["Cosmos Hub", "Juno", "Osmosis"],
            ),
        )
        .unwrap();
    assert!(chain.query_poll("some_id_1").is_some());
    assert!(chain.query_poll("some_id_2").is_none());
}

#[test]
fn test_execute_vote() {
    let mut chain = Chain::default();
    chain.instantiate(ADDR1, InstantiateMsg { admin: None });
    chain.execute(ADDR1, create_poll_msg("p1", "favorite chain", &["ATOM", "LUNA"])).unwrap();

    let res = chain.execute(ADDR1, vote_msg("p1", "ATOM")).unwrap();
    assert_eq!(res, vec![attr("action", "execute_vote"), attr("vote", "ATOM")]);

    let res = chain.execute(ADDR1, vote_msg("p1", "LUNA")).unwrap();
    assert_eq!(res, vec![attr("action", "execute_vote"), attr("vote", "LUNA")]);
}

#[test]
fn test_execute_vote_poll_invalid() {
    let mut chain = Chain::default();
    chain.instantiate(ADDR1, InstantiateMsg { admin: None });
    chain.execute(ADDR1, create_poll_msg("p1", "favorite chain", &["ATOM", "LUNA"])).unwrap();

    let _err = chain.execute(ADDR1, vote_msg("p2", "LUNA")).unwrap_err();
    let _err = chain.execute(ADDR1, vote_msg("p2", "OSMO")).unwrap_err();
}

#[test]
fn create_poll_starts_every_option_at_zero() {
    let (poll, attrs) = execute_create_poll(
        ADDR1.to_string(),
        "p1".to_string(),
        "favorite chain".to_string(),
        vec!["ATOM".to_string(), "LUNA".to_string()],
    )
    .unwrap();
    assert_eq!(
        poll,
        Poll {
            creator: ADDR1.to_string(),
            question: "favorite chain".to_string(),
            options: vec![("ATOM".to_string(), 0), ("LUNA".to_string(), 0)],
        }
    );
    assert_eq!(attrs, vec![attr("action", "execute_create_poll"), attr("poll_id", "p1")]);
}

#[test]
fn create_poll_accepts_exactly_the_limit() {
    let ten: Vec<String> = (0..MAX_OPTIONS).map(|i| i.to_string()).collect();
    assert!(execute_create_poll(ADDR1.into(), "p".into(), "q".into(), ten.clone()).is_ok());
    let mut eleven = ten;
    eleven.push("x".to_string());
    assert_eq!(
        execute_create_poll(ADDR1.into(), "p".into(), "q".into(), eleven).unwrap_err(),
        ContractError::TooManyOptions
    );
}

#[test]
fn vote_on_missing_poll_is_refused() {
    assert_eq!(
        execute_vote(None, None, "ATOM".to_string()).unwrap_err(),
        ContractError::PollNotExist
    );
}

#[test]
fn vote_for_unknown_option_is_refused_and_stores_nothing() {
    let mut chain = Chain::default();
    chain.execute(ADDR1, create_poll_msg("p1", "q", &["ATOM", "LUNA"])).unwrap();
    chain.execute(ADDR1, vote_msg("p1", "ATOM")).unwrap();
    assert_eq!(
        chain.execute(ADDR1, vote_msg("p1", "OSMO")).unwrap_err(),
        ContractError::PollNotExist
    );
    assert_eq!(chain.counts("p1"), vec![1, 0]);
    assert_eq!(chain.ballots[&(ADDR1.to_string(), "p1".to_string())].option, "ATOM");
}

#[test]
fn counts_follow_ballots() {
    let mut chain = Chain::default();
    chain.execute(ADDR1, create_poll_msg("p1", "q", &["ATOM", "LUNA", "OSMO"])).unwrap();
    chain.execute(ADDR1, vote_msg("p1", "ATOM")).unwrap();
    chain.execute(ADDR2, vote_msg("p1", "ATOM")).unwrap();
    chain.execute("addr3", vote_msg("p1", "OSMO")).unwrap();
    assert_eq!(chain.counts("p1"), vec![2, 0, 1]);
    // every ballot counts once
    let voters = chain.ballots.keys().filter(|k| k.1 == "p1").count() as u64;
    assert_eq!(chain.counts("p1").iter().sum::<u64>(), voters);
    // a changed ballot moves one vote; the total stays the same
    chain.execute(ADDR2, vote_msg("p1", "LUNA")).unwrap();
    assert_eq!(chain.counts("p1"), vec![1, 1, 1]);
    // voting again for the same option changes nothing
    chain.execute(ADDR2, vote_msg("p1", "LUNA")).unwrap();
    assert_eq!(chain.counts("p1"), vec![1, 1, 1]);
}

#[test]
fn duplicate_labels_count_for_the_first() {
    let mut chain = Chain::default();
    chain.execute(ADDR1, create_poll_msg("p1", "q", &["A", "B", "A"])).unwrap();
    chain.execute(ADDR1, vote_msg("p1", "A")).unwrap();
    assert_eq!(chain.counts("p1"), vec![1, 0, 0]);
}

#[test]
fn vote_would_abort_when_previous_choice_is_gone() {
    let poll = Poll {
        creator: ADDR1.to_string(),
        question: "q".to_string(),
        options: vec![("ATOM".to_string(), 0), ("LUNA".to_string(), 0)],
    };
    // the previous choice is not an option
    let gone = Some(Ballot { option: "OSMO".to_string() });
    assert!(vote_would_abort(&poll, &gone, &"ATOM".to_string()));
    // the previous choice has no vote to withdraw
    let empty = Some(Ballot { option: "LUNA".to_string() });
    assert!(vote_would_abort(&poll, &empty, &"ATOM".to_string()));
    // a count at its largest value cannot grow
    let full = Poll { options: vec![("ATOM".to_string(), u64::MAX)], ..poll.clone() };
    assert!(vote_would_abort(&full, &None, &"ATOM".to_string()));
    assert!(!vote_would_abort(&poll, &None, &"ATOM".to_string()));
}

#[test]
fn execute_vote_moves_one_vote() {
    let poll = Poll {
        creator: ADDR1.to_string(),
        question: "q".to_string(),
        options: vec![("ATOM".to_string(), 3), ("LUNA".to_string(), 5)],
    };
    let previous = Some(Ballot { option: "LUNA".to_string() });
    let (new_poll, ballot, attrs) =
        execute_vote(Some(poll), previous, "ATOM".to_string()).unwrap();
    assert_eq!(new_poll.options, vec![("ATOM".to_string(), 4), ("LUNA".to_string(), 4)]);
    assert_eq!(ballot, Ballot { option: "ATOM".to_string() });
    assert_eq!(attrs, vec![attr("action", "execute_vote"), attr("vote", "ATOM")]);
}

#[test]
fn votes_of_two_voters_commute() {
    let setup = || {
        let mut chain = Chain::default();
        chain.execute(ADDR1, create_poll_msg("p1", "q", &["ATOM", "LUNA", "OSMO"])).unwrap();
        chain.execute(ADDR1, vote_msg("p1", "OSMO")).unwrap();
        chain.execute(ADDR2, vote_msg("p1", "ATOM")).unwrap();
        chain
    };
    let mut one = setup();
    one.execute(ADDR1, vote_msg("p1", "LUNA")).unwrap();
    one.execute(ADDR2, vote_msg("p1", "OSMO")).unwrap();
    let mut two = setup();
    two.execute(ADDR2, vote_msg("p1", "OSMO")).unwrap();
    two.execute(ADDR1, vote_msg("p1", "LUNA")).unwrap();
    assert_eq!(one.polls, two.polls);
    assert_eq!(one.ballots, two.ballots);
    assert_eq!(one.counts("p1"), vec![0, 1, 1]);
}
