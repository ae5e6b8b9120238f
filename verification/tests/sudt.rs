use chain_contracts::sudt::{check_owner_mode, collect_amount, main, main_would_abort, Error};

fn cell(amount: u128) -> Vec<u8> {
    amount.to_le_bytes().to_vec()
}

const OWNER: [u8; 32] = [7u8; 32];

#[test]
fn owner_mode_accepts_anything() {
    let args = OWNER.to_vec();
    let hashes = vec![[1u8; 32], OWNER];
    assert!(check_owner_mode(&args, &hashes));
    let inputs = vec![];
    let outputs = vec![cell(1000), vec![1, 2, 3]];
    assert_eq!(main(&args, &hashes, &inputs, &outputs), Ok(()));
}

#[test]
fn owner_mode_needs_an_exact_match() {
    let args = OWNER[..31].to_vec();
    assert!(!check_owner_mode(&args, &vec![OWNER]));
    assert!(!check_owner_mode(&OWNER.to_vec(), &vec![]));
}

#[test]
fn amounts_are_little_endian() {
    let mut data = vec![0u8; 16];
    data[0] = 0x01;
    data[1] = 0x02;
    assert_eq!(collect_amount(&vec![data]), Ok(0x0201));
    assert_eq!(collect_amount(&vec![cell(u128::MAX)]), Ok(u128::MAX));
    assert_eq!(collect_amount(&vec![cell(5), cell(7), cell(30)]), Ok(42));
    assert_eq!(collect_amount(&vec![]), Ok(0));
}

#[test]
fn wrong_length_is_an_encoding_error() {
    assert_eq!(collect_amount(&vec![cell(5), vec![0u8; 15]]), Err(Error::Encoding));
    assert_eq!(collect_amount(&vec![vec![0u8; 17]]), Err(Error::Encoding));
}

#[test]
fn transfer_may_not_create_tokens() {
    let args = OWNER.to_vec();
    let hashes = vec![[1u8; 32]];
    let inputs = vec![cell(60), cell(40)];
    assert_eq!(main(&args, &hashes, &inputs, &vec![cell(100)]), Ok(()));
    assert_eq!(main(&args, &hashes, &inputs, &vec![cell(30), cell(20)]), Ok(()));
    assert_eq!(
        main(&args, &hashes, &inputs, &vec![cell(100), cell(1)]),
        Err(Error::InputAmountLessThanOutput)
    );
    assert_eq!(
        main(&args, &hashes, &inputs, &vec![vec![0u8; 3]]),
        Err(Error::Encoding)
    );
    assert_eq!(
        main(&args, &hashes, &vec![vec![9u8]], &vec![cell(1)]),
        Err(Error::Encoding)
    );
}

#[test]
fn overflowing_sums_are_detected() {
    let args = OWNER.to_vec();
    let hashes = vec![];
    let big = vec![cell(u128::MAX), cell(1)];
    assert!(main_would_abort(&args, &hashes, &big, &vec![]));
    assert!(main_would_abort(&args, &hashes, &vec![cell(1)], &big));
    // a badly encoded input stops the script before the outputs are summed
    assert!(!main_would_abort(&args, &hashes, &vec![vec![1u8]], &big));
    assert!(!main_would_abort(&args, &vec![OWNER], &big, &big));
    assert!(!main_would_abort(&args, &hashes, &vec![cell(u128::MAX)], &vec![cell(u128::MAX)]));
}

#[test]
fn amounts_add_over_joined_cells() {
    let a = vec![cell(5), cell(7)];
    let b = vec![cell(30)];
    let ab: Vec<Vec<u8>> = a.iter().chain(b.iter()).cloned().collect();
    let ba: Vec<Vec<u8>> = b.iter().chain(a.iter()).cloned().collect();
    assert_eq!(collect_amount(&ab), Ok(42));
    assert_eq!(collect_amount(&ba), Ok(42));
    let bad: Vec<Vec<u8>> = a.iter().cloned().chain(std::iter::once(vec![1u8])).collect();
    assert_eq!(collect_amount(&bad), Err(Error::Encoding));
}
