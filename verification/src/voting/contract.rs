//! The contract's entry logic: setting up, creating polls and voting.
use vstd::prelude::*;

use super::error::ContractError;
use super::msg::{ExecuteMsg, InstantiateMsg};
use super::state::{ballot_choice, option_model, options_model, Ballot, Config, Poll, PollModel};
use super::tally::{
    cast_vote, first_index, fresh_options, labels, lemma_cast_vote_counts, lemma_first_index,
    lemma_set_count_labels, set_count, vote_aborts,
};

verus! {

/// The most options that a poll may have.
pub const MAX_OPTIONS: usize = 10;

/// One key/value attribute of the event that a call emits.
#[derive(Clone, Debug, PartialEq, Eq)]
pub struct Attribute {
    pub key: String,
    pub value: String,
}

/// The event attributes `action = <action>` and `<key> = <value>`, in that order.
pub open spec fn attributes_are(
    attrs: Seq<Attribute>,
    action: Seq<char>,
    key: Seq<char>,
    value: Seq<char>,
) -> bool {
    &&& attrs.len() == 2
    &&& attrs[0].key@ == "action"@
    &&& attrs[0].value@ == action
    &&& attrs[1].key@ == key
    &&& attrs[1].value@ == value
}

/// The poll that `creator` creates with `question` and the option labels `options`.
pub open spec fn created_poll(creator: Seq<char>, question: Seq<char>, options: Seq<String>) -> PollModel {
    PollModel {
        creator,
        question,
        options: fresh_options(options.map_values(|o: String| o@)),
    }
}

/// `poll` with its options replaced by `options`.
pub open spec fn with_options(poll: PollModel, options: Seq<(Seq<char>, int)>) -> PollModel {
    PollModel { creator: poll.creator, question: poll.question, options }
}

/// The attributes of a call in plain terms: exactly two, `action` first.
pub proof fn lemma_attributes_are(
    attrs: Seq<Attribute>,
    action: Seq<char>,
    key: Seq<char>,
    value: Seq<char>,
)
    ensures
        attributes_are(attrs, action, key, value) <==> (attrs.len() == 2 && attrs[0].key@
            == "action"@ && attrs[0].value@ == action && attrs[1].key@ == key && attrs[1].value@
            == value),
{
}

/// A created poll in plain terms: the creator and question given, and one
/// option per given label, in order, each with no vote.
pub proof fn lemma_created_poll(creator: Seq<char>, question: Seq<char>, options: Seq<String>)
    ensures
        created_poll(creator, question, options).creator == creator,
        created_poll(creator, question, options).question == question,
        created_poll(creator, question, options).options.len() == options.len(),
        forall|i: int|
            0 <= i < options.len() ==> #[trigger] created_poll(creator, question, options).options[i]
                == (options[i]@, 0int),
{
}

/// Replacing a poll's options keeps its creator and question and takes the
/// given options as they are.
pub proof fn lemma_with_options(poll: PollModel, options: Seq<(Seq<char>, int)>)
    ensures
        with_options(poll, options).creator == poll.creator,
        with_options(poll, options).question == poll.question,
        with_options(poll, options).options == options,
{
}

/// What an accepted call stores and emits: the poll to save under `poll_id`,
/// the ballot to save under the sender and `poll_id` (for a vote), and the
/// event attributes.
#[derive(Clone, Debug, PartialEq, Eq)]
pub struct ExecuteEffects {
    pub poll_id: String,
    pub poll: Poll,
    pub ballot: Option<Ballot>,
    pub attributes: Vec<Attribute>,
}

fn action_attributes(action: &str, key: &str, value: String) -> (attrs: Vec<Attribute>)
    ensures
        attributes_are(attrs@, action@, key@, value@),
{
    proof {
        reveal_strlit("action");
    }
    let mut attrs = Vec::new();
    attrs.push(Attribute { key: "action".to_owned(), value: action.to_owned() });
    attrs.push(Attribute { key: key.to_owned(), value });
    attrs
}

/// The address to validate as admin: the one in the message, else the sender.
pub fn instantiate_admin(msg: &InstantiateMsg, sender: &String) -> (admin: String)
    ensures
        admin@ == (match msg.admin {
            Some(a) => a@,
            None => sender@,
        }),
{
    match &msg.admin {
        Some(a) => a.clone(),
        None => sender.clone(),
    }
}

/// The configuration to store for the validated admin address, and the
/// attributes `action = instantiate`, `admin = <admin>`.
pub fn instantiate(validated_admin: String) -> (res: (Config, Vec<Attribute>))
    ensures
        res.0.admin@ == validated_admin@,
        attributes_are(res.1@, "instantiate"@, "admin"@, validated_admin@),
{
    let config = Config { admin: validated_admin.clone() };
    (config, action_attributes("instantiate", "admin", validated_admin))
}

/// Creates a poll by `sender`: refused when there are more than `MAX_OPTIONS`
/// options, otherwise every option starts with no vote.
pub fn execute_create_poll(
    sender: String,
    poll_id: String,
    question: String,
    options: Vec<String>,
) -> (res: Result<(Poll, Vec<Attribute>), ContractError>)
    ensures
        options.len() > MAX_OPTIONS ==> res == Err::<(Poll, Vec<Attribute>), ContractError>(
            ContractError::TooManyOptions,
        ),
        options.len() <= MAX_OPTIONS ==> (res matches Ok((poll, attrs)) && poll@ == created_poll(
            sender@,
            question@,
            options@,
        ) && attributes_are(attrs@, "execute_create_poll"@, "poll_id"@, poll_id@)),
        options.len() <= MAX_OPTIONS ==> (res matches Ok((poll, _)) && poll.creator@ == sender@
            && poll.question@ == question@ && poll.options@.len() == options@.len() && (forall|i: int|
            #![trigger poll.options@[i]]
            0 <= i < options@.len() ==> poll.options@[i].0@ == options@[i]@
                && poll.options@[i].1 == 0)),
{
    if options.len() > MAX_OPTIONS {
        return Err(ContractError::TooManyOptions);
    }
    let mut opts: Vec<(String, u64)> = Vec::new();
    let mut k: usize = 0;
    while k < options.len()
        invariant
            k <= options.len(),
            opts@.len() == k,
            forall|i: int| 0 <= i < k ==> #[trigger] opts@[i].0@ == options@[i]@ && opts@[i].1 == 0,
        decreases options.len() - k,
    {
        opts.push((options[k].clone(), 0));
        k = k + 1;
    }
    let poll = Poll { creator: sender, question, options: opts };
    assert(poll.options@.len() == options@.len());
    assert(forall|i: int|
        #![trigger poll.options@[i]]
            0 <= i < options@.len() ==> poll.options@[i].0@ == options@[i]@
            && poll.options@[i].1 == 0);
    assert(poll@.options =~= fresh_options(options@.map_values(|o: String| o@)));
    Ok((poll, action_attributes("execute_create_poll", "poll_id", poll_id)))
}

/// The position of the first option labelled `label`, if any.
fn find_option(options: &Vec<(String, u64)>, label: &String) -> (r: Option<usize>)
    ensures
        match r {
            Some(i) => i == first_index(labels(options_model(options@)), label@),
            None => first_index(labels(options_model(options@)), label@) < 0,
        },
{
    let ghost ls = labels(options_model(options@));
    let mut k: usize = 0;
    while k < options.len()
        invariant
            k <= options.len(),
            ls == labels(options_model(options@)),
            ls.len() == options@.len(),
            forall|j: int| 0 <= j < k ==> #[trigger] ls[j] != label@,
        decreases options.len() - k,
    {
        assert(ls[k as int] == options@[k as int].0@);
        if options[k].0 == *label {
            proof {
                lemma_first_index(ls, label@);
                assert(ls[first_index(ls, label@)] == label@);
            }
            return Some(k);
        }
        k = k + 1;
    }
    proof {
        lemma_first_index(ls, label@);
        if first_index(ls, label@) >= 0 {
            assert(ls[first_index(ls, label@)] == label@);
        }
    }
    None
}

/// Sets the count of option `i` to `c`.
fn set_option_count(options: &mut Vec<(String, u64)>, i: usize, c: u64)
    requires
        i < old(options).len(),
    ensures
        options_model(final(options)@) == set_count(options_model(old(options)@), i as int, c as int),
{
    let label = options[i].0.clone();
    options.set(i, (label, c));
    assert(options_model(options@) =~= set_count(options_model(old(options)@), i as int, c as int));
}

/// A poll whose model has the same creator and question as `old`'s, options
/// `new_options` with the same labels: its fields, one by one.
proof fn lemma_poll_fields(old: Poll, new: Poll, new_options: Seq<(Seq<char>, int)>)
    requires
        new@.options == new_options,
        new@.creator == old@.creator,
        new@.question == old@.question,
        new_options.len() == old@.options.len(),
        labels(new_options) == labels(old@.options),
    ensures
        new.creator@ == old.creator@,
        new.question@ == old.question@,
        new.options@.len() == old.options@.len(),
        forall|k: int|
            #![trigger new.options@[k]]
            0 <= k < old.options@.len() ==> new.options@[k].0@ == old.options@[k].0@
                && new.options@[k].1 == new_options[k].1,
{
    assert forall|k: int| 0 <= k < old.options@.len() implies #[trigger] new.options@[k].0@
        == old.options@[k].0@ && new.options@[k].1 == new_options[k].1 by {
        assert(new@.options[k] == option_model(new.options@[k]));
        assert(old@.options[k] == option_model(old.options@[k]));
        assert(labels(new_options)[k] == new_options[k].0);
        assert(labels(old@.options)[k] == old@.options[k].0);
    }
}

/// Records a vote for `vote` in `poll` by a voter whose stored ballot is
/// `previous`: the previous choice loses one vote and `vote` gains one.
/// Refused when the poll does not exist or `vote` is not one of its options.
pub fn execute_vote(poll: Option<Poll>, previous: Option<Ballot>, vote: String) -> (res: Result<
    (Poll, Ballot, Vec<Attribute>),
    ContractError,
>)
    requires
        poll matches Some(p) ==> !vote_aborts(p@.options, ballot_choice(previous), vote@),
    ensures
        match poll {
            None => res == Err::<(Poll, Ballot, Vec<Attribute>), ContractError>(
                ContractError::PollNotExist,
            ),
            Some(p) => match cast_vote(p@.options, ballot_choice(previous), vote@) {
                None => res == Err::<(Poll, Ballot, Vec<Attribute>), ContractError>(
                    ContractError::PollNotExist,
                ),
                Some(new_options) => res matches Ok((new_poll, ballot, attrs)) && new_poll@
                    == with_options(p@, new_options) && ballot.option@ == vote@ && attributes_are(
                    attrs@,
                    "execute_vote"@,
                    "vote"@,
                    vote@,
                ),
            },
        },
        poll matches Some(p) ==> (cast_vote(p@.options, ballot_choice(previous), vote@) matches Some(
            new_options,
        ) ==> (res matches Ok((new_poll, _, _)) && new_poll.creator@ == p.creator@
            && new_poll.question@ == p.question@ && new_poll.options@.len() == p.options@.len() && (
        forall|k: int|
            #![trigger new_poll.options@[k]]
            0 <= k < p.options@.len() ==> new_poll.options@[k].0@ == p.options@[k].0@
                && new_poll.options@[k].1 == new_options[k].1))),
{
    match poll {
        None => Err(ContractError::PollNotExist),
        Some(mut poll) => {
            let ghost original = poll;
            let ghost before = poll@.options;
            let ghost ls = labels(before);
            if let Some(b) = &previous {
                proof {
                    lemma_first_index(ls, b.option@);
                }
                let found = find_option(&poll.options, &b.option);
                if let Some(i) = found {
                    assert(before[i as int].1 == poll.options@[i as int].1);
                    let c = poll.options[i].1;
                    set_option_count(&mut poll.options, i, c - 1);
                    proof {
                        lemma_set_count_labels(before, i as int, c - 1);
                    }
                }
            }
            assert(poll@.options == super::tally::withdraw(before, ballot_choice(previous)));
            assert(labels(poll@.options) == ls);
            proof {
                lemma_first_index(ls, vote@);
            }
            match find_option(&poll.options, &vote) {
                None => Err(ContractError::PollNotExist),
                Some(j) => {
                    assert(poll@.options[j as int].1 == poll.options@[j as int].1);
                    let c = poll.options[j].1;
                    set_option_count(&mut poll.options, j, c + 1);
                    proof {
                        lemma_cast_vote_counts(before, ballot_choice(previous), vote@);
                        lemma_poll_fields(original, poll, poll@.options);
                    }
                    let ballot = Ballot { option: vote.clone() };
                    Ok((poll, ballot, action_attributes("execute_vote", "vote", vote)))
                },
            }
        },
    }
}

/// Whether a vote by a voter whose stored ballot is `previous` would abort
/// (see `vote_aborts`); callers test this before `execute_vote`.
pub fn vote_would_abort(poll: &Poll, previous: &Option<Ballot>, vote: &String) -> (r: bool)
    ensures
        r == vote_aborts(poll@.options, ballot_choice(*previous), vote@),
{
    let ghost ls = labels(poll@.options);
    let j = find_option(&poll.options, vote);
    proof {
        lemma_first_index(ls, vote@);
    }
    match previous {
        Some(b) => match find_option(&poll.options, &b.option) {
            None => true,
            Some(i) => {
                proof {
                    lemma_first_index(ls, b.option@);
                }
                if poll.options[i].1 == 0 {
                    true
                } else {
                    match j {
                        Some(j) => j != i && poll.options[j].1 == u64::MAX,
                        None => false,
                    }
                }
            },
        },
        None => match j {
            Some(j) => poll.options[j].1 == u64::MAX,
            None => false,
        },
    }
}

/// Handles a state-changing message from `sender`. For a vote, `stored_poll`
/// is the poll stored under its id and `stored_ballot` the sender's ballot
/// in it; for a new poll they are not read. Deleting a poll and revoking a
/// vote are not supported and abort, so they are left out here.
pub fn execute(
    sender: String,
    msg: ExecuteMsg,
    stored_poll: Option<Poll>,
    stored_ballot: Option<Ballot>,
) -> (res: Result<ExecuteEffects, ContractError>)
    requires
        !(msg is DeletePoll),
        !(msg is RevokeVote),
        msg matches ExecuteMsg::Vote { vote, .. } ==> (stored_poll matches Some(p) ==> !vote_aborts(
            p@.options,
            ballot_choice(stored_ballot),
            vote@,
        )),
    ensures
        match msg {
            ExecuteMsg::CreatePoll { poll_id, question, options } => if options.len() > MAX_OPTIONS {
                res == Err::<ExecuteEffects, ContractError>(ContractError::TooManyOptions)
            } else {
                res matches Ok(e) && e.poll_id@ == poll_id@ && e.poll@ == created_poll(
                    sender@,
                    question@,
                    options@,
                ) && e.ballot is None && attributes_are(
                    e.attributes@,
                    "execute_create_poll"@,
                    "poll_id"@,
                    poll_id@,
                ) && e.poll.creator@ == sender@ && e.poll.question@ == question@
                    && e.poll.options@.len() == options@.len() && (forall|i: int|
                    #![trigger e.poll.options@[i]]
                    0 <= i < options@.len() ==> e.poll.options@[i].0@ == options@[i]@
                        && e.poll.options@[i].1 == 0)
            },
            ExecuteMsg::Vote { poll_id, vote } => match stored_poll {
                None => res == Err::<ExecuteEffects, ContractError>(ContractError::PollNotExist),
                Some(p) => match cast_vote(p@.options, ballot_choice(stored_ballot), vote@) {
                    None => res == Err::<ExecuteEffects, ContractError>(ContractError::PollNotExist),
                    Some(new_options) => res matches Ok(e) && e.poll_id@ == poll_id@ && e.poll@
                        == with_options(p@, new_options) && (e.ballot matches Some(b) && b.option@
                        == vote@) && attributes_are(e.attributes@, "execute_vote"@, "vote"@, vote@)
                        && e.poll.creator@ == p.creator@ && e.poll.question@ == p.question@
                        && e.poll.options@.len() == p.options@.len() && (forall|k: int|
                        #![trigger e.poll.options@[k]]
                        0 <= k < p.options@.len() ==> e.poll.options@[k].0@
                            == p.options@[k].0@ && e.poll.options@[k].1 == new_options[k].1),
                },
            },
            _ => true,
        },
{
    match msg {
        ExecuteMsg::CreatePoll { poll_id, question, options } => {
            let id = poll_id.clone();
            match execute_create_poll(sender, poll_id, question, options) {
                Ok((poll, attributes)) => Ok(ExecuteEffects { poll_id: id, poll, ballot: None, attributes }),
                Err(e) => Err(e),
            }
        },
        ExecuteMsg::Vote { poll_id, vote } => {
            match execute_vote(stored_poll, stored_ballot, vote) {
                Ok((poll, ballot, attributes)) => Ok(
                    ExecuteEffects { poll_id, poll, ballot: Some(ballot), attributes },
                ),
                Err(e) => Err(e),
            }
        },
        // excluded by the precondition
        ExecuteMsg::DeletePoll { .. } => Err(ContractError::PollNotExist),
        ExecuteMsg::RevokeVote { .. } => Err(ContractError::PollNotExist),
    }
}

} // verus!
