use vstd::prelude::*;

verus! {

/// The contract's configuration.
#[derive(Clone, Debug, PartialEq, Eq)]
pub struct Config {
    pub admin: String,
}

/// A poll: who created it, its question, and each option with its number of votes.
#[derive(Clone, Debug, PartialEq, Eq)]
pub struct Poll {
    pub creator: String,
    pub question: String,
    pub options: Vec<(String, u64)>,
}

/// The option that one address chose in one poll.
#[derive(Clone, Debug, PartialEq, Eq)]
pub struct Ballot {
    pub option: String,
}

/// The mathematical value of a poll: strings as character sequences and
/// vote counts as integers.
pub struct PollModel {
    pub creator: Seq<char>,
    pub question: Seq<char>,
    pub options: Seq<(Seq<char>, int)>,
}

/// An option with its count, as a value.
pub open spec fn option_model(o: (String, u64)) -> (Seq<char>, int) {
    (o.0@, o.1 as int)
}

/// The options of a poll, as values.
pub open spec fn options_model(options: Seq<(String, u64)>) -> Seq<(Seq<char>, int)> {
    options.map_values(|o: (String, u64)| option_model(o))
}

/// The options as values, in plain terms: same length, and each label and
/// count taken as it is.
pub proof fn lemma_options_model(options: Seq<(String, u64)>)
    ensures
        options_model(options).len() == options.len(),
        forall|k: int|
            0 <= k < options.len() ==> #[trigger] options_model(options)[k] == (
                options[k].0@,
                options[k].1 as int,
            ),
{
}

impl View for Poll {
    type V = PollModel;

    open spec fn view(&self) -> PollModel {
        PollModel {
            creator: self.creator@,
            question: self.question@,
            options: options_model(self.options@),
        }
    }
}

/// The option that an (optional) ballot holds.
pub open spec fn ballot_choice(b: Option<Ballot>) -> Option<Seq<char>> {
    match b {
        Some(b) => Some(b.option@),
        None => None,
    }
}

/// A stored ballot's choice is its option, and no ballot means no choice.
pub proof fn lemma_ballot_choice(b: Option<Ballot>)
    ensures
        b is None ==> ballot_choice(b) is None,
        b matches Some(x) ==> ballot_choice(b) == Some(x.option@),
{
}

} // verus!
