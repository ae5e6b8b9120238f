use vstd::prelude::*;

verus! {

/// The message that sets the contract up.
#[derive(Clone, Debug, PartialEq, Eq)]
pub struct InstantiateMsg {
    /// The admin address; the sender becomes admin when it is absent.
    pub admin: Option<String>,
}

/// The messages that change the contract's state.
#[derive(Clone, Debug, PartialEq, Eq)]
pub enum ExecuteMsg {
    CreatePoll { poll_id: String, question: String, options: Vec<String> },
    Vote { poll_id: String, vote: String },
    DeletePoll { poll_id: String },
    RevokeVote { poll_id: String },
}

} // verus!
