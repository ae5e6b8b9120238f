use vstd::prelude::*;

verus! {

/// The errors that the poll contract's own rules give.
#[derive(Debug, Clone, Copy, PartialEq, Eq, Structural)]
pub enum ContractError {
    /// A poll was created with more than `MAX_OPTIONS` options.
    TooManyOptions,
    /// The poll does not exist, or the chosen option is not one of its options.
    PollNotExist,
}

} // verus!
