//! A simple user-defined token type script. The owner (an input locked by
//! the script's argument) may do anything; everyone else may move tokens but
//! never create them: the outputs of the script's group may not hold more
//! than its inputs. Each cell of the group holds its amount as a 16-byte
//! little-endian number.
use vstd::prelude::*;

verus! {

/// The length of a token cell's data: one little-endian `u128`.
pub const UDT_LEN: usize = 16;

/// The errors that the script's own rules give.
#[derive(Debug, Clone, Copy, PartialEq, Eq, Structural)]
pub enum Error {
    /// A cell of the group does not hold exactly `UDT_LEN` bytes.
    Encoding,
    /// The outputs of the group hold more tokens than its inputs.
    InputAmountLessThanOutput,
}

/// `256` to the power `n`.
pub open spec fn pow256(n: nat) -> nat
    decreases n,
{
    if n == 0 {
        1
    } else {
        256 * pow256((n - 1) as nat)
    }
}

/// The number that the bytes `b` encode, least significant byte first.
pub open spec fn le_value(b: Seq<u8>) -> nat
    decreases b.len(),
{
    if b.len() == 0 {
        0
    } else {
        b[0] as nat + 256 * le_value(b.drop_first())
    }
}

/// The data of the cells, as byte sequences.
pub open spec fn cells_view(cells: Seq<Vec<u8>>) -> Seq<Seq<u8>> {
    cells.map_values(|d: Vec<u8>| d@)
}

/// The lock hashes, as byte sequences.
pub open spec fn hashes_view(hashes: Seq<[u8; 32]>) -> Seq<Seq<u8>> {
    hashes.map_values(|h: [u8; 32]| h@)
}

/// Every cell holds exactly one amount.
pub open spec fn well_encoded(cells: Seq<Seq<u8>>) -> bool {
    forall|i: int| 0 <= i < cells.len() ==> #[trigger] cells[i].len() == UDT_LEN
}

/// The sum of the amounts of the cells.
pub open spec fn total_amount(cells: Seq<Seq<u8>>) -> nat
    decreases cells.len(),
{
    if cells.len() == 0 {
        0
    } else {
        total_amount(cells.drop_last()) + le_value(cells.last())
    }
}

/// Some input is locked by the script's argument.
pub open spec fn is_owner(args: Seq<u8>, lock_hashes: Seq<Seq<u8>>) -> bool {
    exists|i: int| 0 <= i < lock_hashes.len() && #[trigger] lock_hashes[i] == args
}

/// What the script returns for the argument, the lock hashes of all inputs,
/// and the data of the group's inputs and outputs.
pub open spec fn script_result(
    args: Seq<u8>,
    lock_hashes: Seq<Seq<u8>>,
    inputs: Seq<Seq<u8>>,
    outputs: Seq<Seq<u8>>,
) -> Result<(), Error> {
    if is_owner(args, lock_hashes) {
        Ok(())
    } else if !well_encoded(inputs) || !well_encoded(outputs) {
        Err(Error::Encoding)
    } else if total_amount(inputs) < total_amount(outputs) {
        Err(Error::InputAmountLessThanOutput)
    } else {
        Ok(())
    }
}

/// Whether the script aborts: outside owner mode, a sum of amounts that it
/// computes does not fit in a `u128`. The inputs are summed first, and the
/// outputs only when the inputs were well encoded and their sum fits.
pub open spec fn script_aborts(
    args: Seq<u8>,
    lock_hashes: Seq<Seq<u8>>,
    inputs: Seq<Seq<u8>>,
    outputs: Seq<Seq<u8>>,
) -> bool {
    &&& !is_owner(args, lock_hashes)
    &&& well_encoded(inputs)
    &&& (total_amount(inputs) > u128::MAX || (well_encoded(outputs) && total_amount(outputs)
        > u128::MAX))
}

proof fn lemma_pow256_mono(m: nat, n: nat)
    requires
        m <= n,
    ensures
        pow256(m) <= pow256(n),
    decreases n,
{
    if m < n {
        lemma_pow256_mono(m, (n - 1) as nat);
    }
}

proof fn lemma_pow256_15()
    ensures
        pow256(15) == 0x1_0000_0000_0000_0000_0000_0000_0000_00,
{
    reveal_with_fuel(pow256, 16);
}

proof fn lemma_le_value_bound(b: Seq<u8>)
    ensures
        le_value(b) < pow256(b.len()),
    decreases b.len(),
{
    if b.len() > 0 {
        lemma_le_value_bound(b.drop_first());
    }
}

proof fn lemma_total_prefix(cells: Seq<Seq<u8>>, i: int)
    requires
        0 <= i <= cells.len(),
    ensures
        total_amount(cells.take(i)) <= total_amount(cells),
    decreases cells.len(),
{
    if i < cells.len() {
        assert(cells.drop_last().take(i) =~= cells.take(i));
        lemma_total_prefix(cells.drop_last(), i);
    } else {
        assert(cells.take(i) =~= cells);
    }
}

proof fn lemma_total_step(cells: Seq<Seq<u8>>, i: int)
    requires
        0 <= i < cells.len(),
    ensures
        total_amount(cells.take(i + 1)) == total_amount(cells.take(i)) + le_value(cells[i]),
{
    assert(cells.take(i + 1).drop_last() =~= cells.take(i));
}

/// The amount that a well encoded cell holds (as `u128::from_le_bytes`).
fn amount_of(data: &Vec<u8>) -> (amount: u128)
    requires
        data@.len() == UDT_LEN,
    ensures
        amount == le_value(data@),
{
    let ghost s = data@;
    let mut amount: u128 = 0;
    let mut k: usize = UDT_LEN;
    proof {
        assert(s.subrange(UDT_LEN as int, UDT_LEN as int) =~= Seq::<u8>::empty());
        lemma_pow256_15();
    }
    while k > 0
        invariant
            k <= UDT_LEN,
            s == data@,
            s.len() == UDT_LEN,
            amount == le_value(s.subrange(k as int, UDT_LEN as int)),
            pow256(15) == 0x1_0000_0000_0000_0000_0000_0000_0000_00,
        decreases k,
    {
        let ghost before = s.subrange(k as int, UDT_LEN as int);
        proof {
            lemma_le_value_bound(before);
            lemma_pow256_mono(before.len(), 15);
        }
        k = k - 1;
        assert(s.subrange(k as int, UDT_LEN as int).drop_first() =~= before);
        amount = amount * 256 + data[k] as u128;
    }
    assert(s.subrange(0, UDT_LEN as int) =~= s);
    amount
}

/// Whether every cell holds exactly `UDT_LEN` bytes.
pub fn all_well_encoded(cells: &Vec<Vec<u8>>) -> (r: bool)
    ensures
        r == well_encoded(cells_view(cells@)),
{
    let mut i: usize = 0;
    while i < cells.len()
        invariant
            i <= cells.len(),
            forall|j: int| 0 <= j < i ==> #[trigger] cells_view(cells@)[j].len() == UDT_LEN,
        decreases cells.len() - i,
    {
        if cells[i].len() != UDT_LEN {
            assert(cells_view(cells@)[i as int] == cells@[i as int]@);
            return false;
        }
        assert(cells_view(cells@)[i as int] == cells@[i as int]@);
        i = i + 1;
    }
    true
}

/// The sum of the amounts of well encoded cells, or `None` when a cell is
/// not well encoded or the sum does not fit in a `u128`.
fn checked_total(cells: &Vec<Vec<u8>>) -> (r: Option<u128>)
    ensures
        r is Some <==> well_encoded(cells_view(cells@)) && total_amount(cells_view(cells@))
            <= u128::MAX,
        r matches Some(t) ==> t == total_amount(cells_view(cells@)),
{
    let ghost cv = cells_view(cells@);
    if !all_well_encoded(cells) {
        return None;
    }
    let mut total: u128 = 0;
    let mut i: usize = 0;
    while i < cells.len()
        invariant
            i <= cells.len(),
            cv == cells_view(cells@),
            well_encoded(cv),
            total == total_amount(cv.take(i as int)),
        decreases cells.len() - i,
    {
        assert(cv[i as int] == cells@[i as int]@);
        let amount = amount_of(&cells[i]);
        proof {
            lemma_total_step(cv, i as int);
        }
        match total.checked_add(amount) {
            Some(t) => total = t,
            None => {
                proof {
                    lemma_total_prefix(cv, i + 1);
                }
                return None;
            },
        }
        i = i + 1;
    }
    assert(cv.take(cells.len() as int) =~= cv);
    Some(total)
}

/// Whether the argument equals a lock hash byte for byte.
fn same_bytes(args: &Vec<u8>, hash: &[u8; 32]) -> (r: bool)
    ensures
        r == (args@ == hash@),
{
    if args.len() != 32 {
        return false;
    }
    let mut i: usize = 0;
    while i < 32
        invariant
            i <= 32,
            args@.len() == 32,
            forall|j: int| 0 <= j < i ==> args@[j] == hash@[j],
        decreases 32 - i,
    {
        if args[i] != hash[i] {
            return false;
        }
        i = i + 1;
    }
    assert(args@ =~= hash@);
    true
}

/// Owner mode: some input is locked by the script's argument.
pub fn check_owner_mode(args: &Vec<u8>, input_lock_hashes: &Vec<[u8; 32]>) -> (r: bool)
    ensures
        r == is_owner(args@, hashes_view(input_lock_hashes@)),
        forall|i: int|
            0 <= i < input_lock_hashes@.len() && #[trigger] input_lock_hashes@[i]@ == args@ ==> r,
        r ==> exists|i: int|
            0 <= i < input_lock_hashes@.len() && #[trigger] input_lock_hashes@[i]@ == args@,
{
    let ghost hv = hashes_view(input_lock_hashes@);
    let mut i: usize = 0;
    while i < input_lock_hashes.len()
        invariant
            i <= input_lock_hashes.len(),
            hv == hashes_view(input_lock_hashes@),
            forall|j: int| 0 <= j < i ==> #[trigger] hv[j] != args@,
        decreases input_lock_hashes.len() - i,
    {
        assert(hv[i as int] == input_lock_hashes@[i as int]@);
        if same_bytes(args, &input_lock_hashes[i]) {
            return true;
        }
        i = i + 1;
    }
    assert forall|i: int|
        0 <= i < input_lock_hashes@.len() && #[trigger] input_lock_hashes@[i]@ == args@ implies false by {
        assert(hv[i] == input_lock_hashes@[i]@);
    }
    false
}

/// The sum of the amounts held by the cells; `Encoding` when a cell does
/// not hold exactly `UDT_LEN` bytes. A sum that does not fit in a `u128`
/// aborts, so it is left out here.
pub fn collect_amount(cell_datas: &Vec<Vec<u8>>) -> (r: Result<u128, Error>)
    requires
        well_encoded(cells_view(cell_datas@)) ==> total_amount(cells_view(cell_datas@))
            <= u128::MAX,
    ensures
        !well_encoded(cells_view(cell_datas@)) ==> r == Err::<u128, Error>(Error::Encoding),
        well_encoded(cells_view(cell_datas@)) ==> r == Ok::<u128, Error>(
            total_amount(cells_view(cell_datas@)) as u128,
        ),
{
    let ghost cv = cells_view(cell_datas@);
    let mut amounts: Vec<u128> = Vec::new();
    let mut i: usize = 0;
    while i < cell_datas.len()
        invariant
            i <= cell_datas.len(),
            cv == cells_view(cell_datas@),
            amounts@.len() == i,
            forall|j: int|
                0 <= j < i ==> #[trigger] cv[j].len() == UDT_LEN && amounts@[j] == le_value(cv[j]),
        decreases cell_datas.len() - i,
    {
        assert(cv[i as int] == cell_datas@[i as int]@);
        if cell_datas[i].len() != UDT_LEN {
            return Err(Error::Encoding);
        }
        amounts.push(amount_of(&cell_datas[i]));
        i = i + 1;
    }
    let mut total: u128 = 0;
    let mut k: usize = 0;
    while k < amounts.len()
        invariant
            k <= amounts.len(),
            amounts@.len() == cv.len(),
            well_encoded(cv),
            total_amount(cv) <= u128::MAX,
            forall|j: int| 0 <= j < cv.len() ==> amounts@[j] == le_value(#[trigger] cv[j]),
            total == total_amount(cv.take(k as int)),
        decreases amounts.len() - k,
    {
        proof {
            lemma_total_step(cv, k as int);
            lemma_total_prefix(cv, k + 1);
        }
        total = total + amounts[k];
        k = k + 1;
    }
    assert(cv.take(amounts.len() as int) =~= cv);
    Ok(total)
}

/// The script's decision for the argument `args`, the lock hashes of all
/// inputs, and the data of the group's inputs and outputs.
pub fn main(
    args: &Vec<u8>,
    input_lock_hashes: &Vec<[u8; 32]>,
    group_inputs: &Vec<Vec<u8>>,
    group_outputs: &Vec<Vec<u8>>,
) -> (r: Result<(), Error>)
    requires
        !script_aborts(
            args@,
            hashes_view(input_lock_hashes@),
            cells_view(group_inputs@),
            cells_view(group_outputs@),
        ),
    ensures
        r == script_result(
            args@,
            hashes_view(input_lock_hashes@),
            cells_view(group_inputs@),
            cells_view(group_outputs@),
        ),
{
    if check_owner_mode(args, input_lock_hashes) {
        return Ok(());
    }
    let inputs_amount = match collect_amount(group_inputs) {
        Ok(a) => a,
        Err(e) => return Err(e),
    };
    let outputs_amount = match collect_amount(group_outputs) {
        Ok(a) => a,
        Err(e) => return Err(e),
    };
    if inputs_amount < outputs_amount {
        return Err(Error::InputAmountLessThanOutput);
    }
    Ok(())
}

/// Whether `main` would abort on these values (see `script_aborts`);
/// callers test this before `main`.
pub fn main_would_abort(
    args: &Vec<u8>,
    input_lock_hashes: &Vec<[u8; 32]>,
    group_inputs: &Vec<Vec<u8>>,
    group_outputs: &Vec<Vec<u8>>,
) -> (r: bool)
    ensures
        r == script_aborts(
            args@,
            hashes_view(input_lock_hashes@),
            cells_view(group_inputs@),
            cells_view(group_outputs@),
        ),
{
    if check_owner_mode(args, input_lock_hashes) || !all_well_encoded(group_inputs) {
        return false;
    }
    match checked_total(group_inputs) {
        None => true,
        Some(_) => all_well_encoded(group_outputs) && checked_total(group_outputs).is_none(),
    }
}

/// Outside owner mode, an accepted transaction never creates tokens: both
/// sides are well encoded and the outputs hold at most what the inputs held.
pub proof fn lemma_no_inflation(
    args: Seq<u8>,
    lock_hashes: Seq<Seq<u8>>,
    inputs: Seq<Seq<u8>>,
    outputs: Seq<Seq<u8>>,
)
    requires
        !is_owner(args, lock_hashes),
        script_result(args, lock_hashes, inputs, outputs) is Ok,
    ensures
        well_encoded(inputs),
        well_encoded(outputs),
        total_amount(outputs) <= total_amount(inputs),
{
}

/// Joining two lists of cells: the joined list is well encoded exactly when
/// both are, its total is the sum of their totals, and the order of the two
/// parts does not change the total.
pub proof fn lemma_total_concat(a: Seq<Seq<u8>>, b: Seq<Seq<u8>>)
    ensures
        well_encoded(a + b) <==> well_encoded(a) && well_encoded(b),
        total_amount(a + b) == total_amount(a) + total_amount(b),
        total_amount(a + b) == total_amount(b + a),
{
    lemma_total_append(a, b);
    lemma_total_append(b, a);
    assert forall|i: int| 0 <= i < b.len() implies #[trigger] b[i] == (a + b)[a.len() + i] by {}
    assert forall|i: int| 0 <= i < a.len() implies #[trigger] a[i] == (a + b)[i] by {}
}

proof fn lemma_total_append(a: Seq<Seq<u8>>, b: Seq<Seq<u8>>)
    ensures
        total_amount(a + b) == total_amount(a) + total_amount(b),
    decreases b.len(),
{
    if b.len() == 0 {
        assert(a + b =~= a);
    } else {
        assert((a + b).drop_last() =~= a + b.drop_last());
        assert((a + b).last() == b.last());
        lemma_total_append(a, b.drop_last());
    }
}

/// The cells and lock hashes as byte sequences, in plain terms: same
/// length, and each taken as it is.
pub proof fn lemma_views(cells: Seq<Vec<u8>>, hashes: Seq<[u8; 32]>)
    ensures
        cells_view(cells).len() == cells.len(),
        forall|i: int| 0 <= i < cells.len() ==> #[trigger] cells_view(cells)[i] == cells[i]@,
        hashes_view(hashes).len() == hashes.len(),
        forall|i: int| 0 <= i < hashes.len() ==> #[trigger] hashes_view(hashes)[i] == hashes[i]@,
{
}

proof fn lemma_le_value_from(b: Seq<u8>, k: int)
    requires
        0 <= k < b.len(),
    ensures
        le_value(b.subrange(k, b.len() as int)) == b[k] + 256 * le_value(
            b.subrange(k + 1, b.len() as int),
        ),
{
    assert(b.subrange(k, b.len() as int).drop_first() =~= b.subrange(k + 1, b.len() as int));
}

/// The amount of a cell is `u128::from_le_bytes` of its 16 bytes: byte `k`
/// weighs `256` to the power `k`.
pub proof fn lemma_le_value_16(b: Seq<u8>)
    requires
        b.len() == 16,
    ensures
        le_value(b) == b[0] as int + b[1] * 0x100 + b[2] * 0x1_0000 + b[3] * 0x100_0000 + b[4]
            * 0x1_0000_0000 + b[5] * 0x100_0000_0000 + b[6] * 0x1_0000_0000_0000 + b[7]
            * 0x100_0000_0000_0000 + b[8] * 0x1_0000_0000_0000_0000 + b[9]
            * 0x100_0000_0000_0000_0000 + b[10] * 0x1_0000_0000_0000_0000_0000 + b[11]
            * 0x100_0000_0000_0000_0000_0000 + b[12] * 0x1_0000_0000_0000_0000_0000_0000 + b[13]
            * 0x100_0000_0000_0000_0000_0000_0000 + b[14] * 0x1_0000_0000_0000_0000_0000_0000_0000
            + b[15] * 0x100_0000_0000_0000_0000_0000_0000_0000,
{
    lemma_le_value_from(b, 0);
    lemma_le_value_from(b, 1);
    lemma_le_value_from(b, 2);
    lemma_le_value_from(b, 3);
    lemma_le_value_from(b, 4);
    lemma_le_value_from(b, 5);
    lemma_le_value_from(b, 6);
    lemma_le_value_from(b, 7);
    lemma_le_value_from(b, 8);
    lemma_le_value_from(b, 9);
    lemma_le_value_from(b, 10);
    lemma_le_value_from(b, 11);
    lemma_le_value_from(b, 12);
    lemma_le_value_from(b, 13);
    lemma_le_value_from(b, 14);
    lemma_le_value_from(b, 15);
    assert(b.subrange(0, 16) =~= b);
    assert(b.subrange(16, 16) =~= Seq::<u8>::empty());
}

/// A list of cells is well encoded exactly when every cell is 16 bytes long.
pub proof fn lemma_well_encoded(cells: Seq<Seq<u8>>)
    ensures
        well_encoded(cells) <==> forall|i: int| 0 <= i < cells.len() ==> #[trigger] cells[i].len() == 16,
{
}

/// No cells hold nothing, and one cell holds its own amount.
pub proof fn lemma_total_small(c: Seq<u8>)
    ensures
        total_amount(Seq::empty()) == 0,
        total_amount(seq![c]) == le_value(c),
        well_encoded(Seq::empty()),
        well_encoded(seq![c]) <==> c.len() == UDT_LEN,
{
    assert(seq![c].drop_last() =~= Seq::<Seq<u8>>::empty());
    assert(seq![c][0] == c);
}

/// Owner mode holds as soon as any input, at any position, is locked by the
/// argument.
pub proof fn lemma_owner_at_any_position(args: Seq<u8>, lock_hashes: Seq<Seq<u8>>, i: int)
    requires
        0 <= i < lock_hashes.len(),
        lock_hashes[i] == args,
    ensures
        is_owner(args, lock_hashes),
{
}

/// Without an input locked by the argument there is no owner mode.
pub proof fn lemma_no_owner_without_match(args: Seq<u8>, lock_hashes: Seq<Seq<u8>>)
    requires
        forall|i: int| 0 <= i < lock_hashes.len() ==> #[trigger] lock_hashes[i] != args,
    ensures
        !is_owner(args, lock_hashes),
{
}

/// A transaction whose cells are all 16 bytes long and whose outputs hold at
/// most what its inputs hold is accepted, whatever the number of cells on
/// each side and whoever locks the inputs.
pub proof fn lemma_conserving_transfer_accepted(
    args: Seq<u8>,
    lock_hashes: Seq<Seq<u8>>,
    inputs: Seq<Seq<u8>>,
    outputs: Seq<Seq<u8>>,
)
    requires
        forall|i: int| 0 <= i < inputs.len() ==> #[trigger] inputs[i].len() == 16,
        forall|i: int| 0 <= i < outputs.len() ==> #[trigger] outputs[i].len() == 16,
        total_amount(outputs) <= total_amount(inputs),
    ensures
        script_result(args, lock_hashes, inputs, outputs) == Ok::<(), Error>(()),
{
}

/// Without owner mode, a transaction whose cells are all 16 bytes long and
/// whose outputs hold more than its inputs is refused as creating tokens.
pub proof fn lemma_inflating_transfer_refused(
    args: Seq<u8>,
    lock_hashes: Seq<Seq<u8>>,
    inputs: Seq<Seq<u8>>,
    outputs: Seq<Seq<u8>>,
)
    requires
        forall|i: int| 0 <= i < lock_hashes.len() ==> #[trigger] lock_hashes[i] != args,
        forall|i: int| 0 <= i < inputs.len() ==> #[trigger] inputs[i].len() == 16,
        forall|i: int| 0 <= i < outputs.len() ==> #[trigger] outputs[i].len() == 16,
        total_amount(inputs) < total_amount(outputs),
    ensures
        script_result(args, lock_hashes, inputs, outputs) == Err::<(), Error>(
            Error::InputAmountLessThanOutput,
        ),
{
}

/// Without owner mode, a cell of either side that is not 16 bytes long makes
/// the transaction fail with an encoding error.
pub proof fn lemma_bad_cell_refused(
    args: Seq<u8>,
    lock_hashes: Seq<Seq<u8>>,
    inputs: Seq<Seq<u8>>,
    outputs: Seq<Seq<u8>>,
    i: int,
)
    requires
        forall|k: int| 0 <= k < lock_hashes.len() ==> #[trigger] lock_hashes[k] != args,
        (0 <= i < inputs.len() && inputs[i].len() != 16) || (0 <= i < outputs.len()
            && outputs[i].len() != 16),
    ensures
        script_result(args, lock_hashes, inputs, outputs) == Err::<(), Error>(Error::Encoding),
{
}

/// With an input locked by the argument, at any position, every transaction
/// is accepted, whatever its cells hold.
pub proof fn lemma_owner_input_accepts(
    args: Seq<u8>,
    lock_hashes: Seq<Seq<u8>>,
    inputs: Seq<Seq<u8>>,
    outputs: Seq<Seq<u8>>,
    i: int,
)
    requires
        0 <= i < lock_hashes.len(),
        lock_hashes[i] == args,
    ensures
        script_result(args, lock_hashes, inputs, outputs) == Ok::<(), Error>(()),
{
}

/// In owner mode every transaction is accepted, whatever its cells hold.
pub proof fn lemma_owner_accepts(
    args: Seq<u8>,
    lock_hashes: Seq<Seq<u8>>,
    inputs: Seq<Seq<u8>>,
    outputs: Seq<Seq<u8>>,
)
    requires
        is_owner(args, lock_hashes),
    ensures
        script_result(args, lock_hashes, inputs, outputs) == Ok::<(), Error>(()),
{
}

} // verus!
