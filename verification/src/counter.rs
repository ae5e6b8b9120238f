//! A counter stored in an account: it can be reset to zero and incremented.
use vstd::prelude::*;

verus! {

/// The account that holds the counter.
#[derive(Clone, Debug, PartialEq, Eq)]
pub struct BaseAccount {
    pub count: u64,
}

/// The accounts that `create` and `increment` work on.
#[derive(Clone, Debug, PartialEq, Eq)]
pub struct Create {
    pub base_account: BaseAccount,
}

/// The accounts of an increment: only the counter account, which is written.
#[derive(Clone, Debug, PartialEq, Eq)]
pub struct Increment {
    pub base_account: BaseAccount,
}

/// Sets the counter to zero.
pub fn create(ctx: &mut Create)
    ensures
        final(ctx).base_account.count == 0,
{
    ctx.base_account.count = 0;
}

/// Adds one to the counter. The counter never wraps: an increment of the
/// largest value aborts, so it is left out here.
pub fn increment(ctx: &mut Create)
    requires
        old(ctx).base_account.count < u64::MAX,
    ensures
        final(ctx).base_account.count == old(ctx).base_account.count + 1,
{
    ctx.base_account.count = ctx.base_account.count + 1;
}

} // verus!
