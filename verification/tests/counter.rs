use chain_contracts::counter::{create, increment, BaseAccount, Create};

#[test]
fn create_resets_and_increment_adds_one() {
    let mut ctx = Create { base_account: BaseAccount { count: 41 } };
    create(&mut ctx);
    assert_eq!(ctx.base_account.count, 0);
    increment(&mut ctx);
    increment(&mut ctx);
    assert_eq!(ctx.base_account.count, 2);
}

