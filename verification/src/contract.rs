use vstd::prelude::*;
use vstd::arithmetic::div_mod::{
    lemma_div_denominator, lemma_div_multiples_vanish, lemma_fundamental_div_mod, lemma_mod_bound,
};

use crate::error::ContractError;
use crate::msg::{
    BankTransfer, Coin, ConvertTokenResponse, CountResponse, ExecuteMsg, InstantiateMsg, QueryMsg,
};
use crate::state::State;

verus! {

/// `10^e`: the number of base units in one whole token of a currency with
/// `e` decimals.
pub open spec fn pow10(e: nat) -> nat
    decreases e,
{
    if e == 0 {
        1
    } else {
        10 * pow10((e - 1) as nat)
    }
}

pub proof fn lemma_pow10_pos(e: nat)
    ensures
        pow10(e) >= 1,
    decreases e,
{
    if e > 0 {
        lemma_pow10_pos((e - 1) as nat);
    }
}

pub proof fn lemma_pow10_adds(a: nat, b: nat)
    ensures
        pow10(a + b) == pow10(a) * pow10(b),
    decreases a,
{
    if a == 0 {
        assert(pow10(0) == 1);
    } else {
        lemma_pow10_adds((a - 1) as nat, b);
        assert(10 * (pow10((a - 1) as nat) * pow10(b)) == (10 * pow10((a - 1) as nat)) * pow10(
            b,
        )) by (nonlinear_arith);
    }
}

pub proof fn lemma_pow10_increases(a: nat, b: nat)
    requires
        a <= b,
    ensures
        pow10(a) <= pow10(b),
    decreases b,
{
    if a < b {
        lemma_pow10_increases(a, (b - 1) as nat);
        lemma_pow10_pos((b - 1) as nat);
    }
}

pub proof fn lemma_pow10_38_fits()
    ensures
        pow10(38) < u128::MAX,
{
    assert(pow10(38) == 100_000_000_000_000_000_000_000_000_000_000_000_000) by {
        reveal_with_fuel(pow10, 39);
    }
}

/// What the conversion engine computes: `amount * rate`, scaled up or down by
/// the difference between the two decimal grids, then floor-divided by one
/// whole output token. Every division floors, so any fractional remainder is
/// dropped, never paid out.
pub open spec fn spec_convert(
    amount: nat,
    rate: nat,
    input_decimals: nat,
    output_decimals: nat,
) -> nat {
    let scaled = amount * rate;
    let adjusted = if input_decimals < output_decimals {
        scaled * pow10((output_decimals - input_decimals) as nat)
    } else if output_decimals < input_decimals {
        scaled / pow10((input_decimals - output_decimals) as nat)
    } else {
        scaled
    };
    adjusted / pow10(output_decimals)
}

/// When every intermediate of the conversion fits in 128 bits. Only the two
/// products can grow; the divisions never do.
pub open spec fn conversion_fits(
    amount: nat,
    rate: nat,
    input_decimals: nat,
    output_decimals: nat,
) -> bool {
    amount * rate <= u128::MAX && (input_decimals < output_decimals ==> amount * rate * pow10(
        (output_decimals - input_decimals) as nat,
    ) <= u128::MAX)
}

/// The three branches of the conversion collapse to one formula: the result
/// is always `floor(amount * rate / 10^input_decimals)`, whatever the
/// output grid is. (The output decimals only decide which intermediates are
/// computed, not the value.)
pub proof fn lemma_convert_rescales(
    amount: nat,
    rate: nat,
    input_decimals: nat,
    output_decimals: nat,
)
    ensures
        spec_convert(amount, rate, input_decimals, output_decimals) == (amount * rate) / pow10(
            input_decimals,
        ),
{
    let scaled = (amount * rate) as int;
    let pi = pow10(input_decimals) as int;
    let po = pow10(output_decimals) as int;
    lemma_pow10_pos(input_decimals);
    lemma_pow10_pos(output_decimals);
    if input_decimals < output_decimals {
        let k = (output_decimals - input_decimals) as nat;
        let pk = pow10(k) as int;
        lemma_pow10_pos(k);
        lemma_pow10_adds(k, input_decimals);
        assert(po == pk * pi);
        lemma_div_denominator(scaled * pk, pk, pi);
        assert((scaled * pk) / pk == scaled) by {
            lemma_div_multiples_vanish(scaled, pk);
            assert(scaled * pk == pk * scaled) by (nonlinear_arith);
        }
    } else if output_decimals < input_decimals {
        let m = (input_decimals - output_decimals) as nat;
        let pm = pow10(m) as int;
        lemma_pow10_pos(m);
        lemma_pow10_adds(m, output_decimals);
        assert(pi == pm * po);
        lemma_div_denominator(scaled, pm, po);
    }
}

/// With equal input and output decimals, the conversion is exactly
/// `floor(amount * rate / 10^decimals)`.
pub proof fn lemma_convert_equal_decimals(amount: nat, rate: nat, decimals: nat)
    ensures
        spec_convert(amount, rate, decimals, decimals) == (amount * rate) / pow10(decimals),
{
    lemma_convert_rescales(amount, rate, decimals, decimals);
}

/// Converting and then converting back with a reciprocal rate (one whose
/// product with the forward rate is exactly `10^(input_decimals +
/// output_decimals)`, i.e. rates that are exact inverses of each other) does
/// not round-trip exactly: the two floor divisions drop value. But the loss
/// is never negative — the round trip never returns more than the original
/// amount — and it stays below one whole output-token's worth of input base
/// units (`rate_back / 10^output_decimals`) plus one.
pub proof fn lemma_round_trip_bounded(
    amount: nat,
    rate: nat,
    rate_back: nat,
    input_decimals: nat,
    output_decimals: nat,
)
    requires
        rate > 0,
        rate_back > 0,
        rate * rate_back == pow10(input_decimals + output_decimals),
    ensures
        ({
            let forward = spec_convert(amount, rate, input_decimals, output_decimals);
            let back = spec_convert(forward, rate_back, output_decimals, input_decimals);
            &&& back <= amount
            &&& (amount - back) * pow10(output_decimals) < rate_back + pow10(output_decimals)
        }),
{
    let pi = pow10(input_decimals) as int;
    let po = pow10(output_decimals) as int;
    lemma_pow10_pos(input_decimals);
    lemma_pow10_pos(output_decimals);
    lemma_pow10_adds(input_decimals, output_decimals);
    let a = amount as int;
    let r = rate as int;
    let r2 = rate_back as int;

    lemma_convert_rescales(amount, rate, input_decimals, output_decimals);
    let x = spec_convert(amount, rate, input_decimals, output_decimals) as int;
    assert(x == (a * r) / pi);
    lemma_convert_rescales(
        spec_convert(amount, rate, input_decimals, output_decimals),
        rate_back,
        output_decimals,
        input_decimals,
    );
    let y = spec_convert(
        spec_convert(amount, rate, input_decimals, output_decimals),
        rate_back,
        output_decimals,
        input_decimals,
    ) as int;
    assert(y == (x * r2) / po);

    lemma_fundamental_div_mod(a * r, pi);
    lemma_mod_bound(a * r, pi);
    let rem1 = (a * r) % pi;
    assert(x * pi == a * r - rem1) by (nonlinear_arith)
        requires
            a * r == pi * ((a * r) / pi) + rem1,
            x == (a * r) / pi,
    ;

    lemma_fundamental_div_mod(x * r2, po);
    lemma_mod_bound(x * r2, po);
    let rem2 = (x * r2) % po;
    assert(y * po == x * r2 - rem2) by (nonlinear_arith)
        requires
            x * r2 == po * ((x * r2) / po) + rem2,
            y == (x * r2) / po,
    ;

    // never more than the original: chain the two floor divisions upward
    assert(y <= a) by (nonlinear_arith)
        requires
            x * pi == a * r - rem1,
            y * po == x * r2 - rem2,
            rem1 >= 0,
            rem2 >= 0,
            r2 > 0,
            pi > 0,
            po > 0,
            r * r2 == pi * po,
    ;

    // the loss is below rate_back / 10^output_decimals + 1 input base units
    assert((a - y) * po < r2 + po) by (nonlinear_arith)
        requires
            x * pi == a * r - rem1,
            y * po == x * r2 - rem2,
            rem1 < pi,
            rem2 < po,
            rem1 >= 0,
            rem2 >= 0,
            r2 > 0,
            pi > 0,
            po > 0,
            r * r2 == pi * po,
    ;
}

/// Convert between tokens with different decimals.
///
/// `rate` is the number of output-token base units that one whole input token
/// is worth. E.g. for a 1:1 rate and an output token with 6 decimals,
/// `rate = 1_000_000`.
///
/// A 128-bit intermediate that overflows is a detected failure, never a
/// silent wrap.
pub fn calculate_token_conversion_output(
    amount: u128,
    rate: u128,
    input_decimals: u8,
    output_decimals: u8,
) -> (res: Result<ConvertTokenResponse, ContractError>)
    requires
        input_decimals <= 38,
        output_decimals <= 38,
    ensures
        res is Ok <==> conversion_fits(
            amount as nat,
            rate as nat,
            input_decimals as nat,
            output_decimals as nat,
        ),
        res matches Ok(r) ==> r.amount == spec_convert(
            amount as nat,
            rate as nat,
            input_decimals as nat,
            output_decimals as nat,
        ),
        res is Err ==> res == Err::<ConvertTokenResponse, ContractError>(
            ContractError::NumericOverflow {},
        ),
{
    // result = amount * rate / one whole output token
    let mut result = match amount.checked_mul(rate) {
        Some(v) => v,
        None => {
            return Err(ContractError::NumericOverflow {});
        },
    };

    // But, if tokens have different number of decimals, we need to compensate
    // either by dividing or multiplying (depending on which token has more
    // decimals) the difference
    if input_decimals < output_decimals {
        let compensation = get_whole_token_representation(output_decimals - input_decimals);
        result = match result.checked_mul(compensation) {
            Some(v) => v,
            None => {
                return Err(ContractError::NumericOverflow {});
            },
        };
    } else if output_decimals < input_decimals {
        let compensation = get_whole_token_representation(input_decimals - output_decimals);
        proof {
            lemma_pow10_pos((input_decimals - output_decimals) as nat);
        }
        result = result / compensation;
    }

    let whole_token = get_whole_token_representation(output_decimals);
    proof {
        lemma_pow10_pos(output_decimals as nat);
    }
    let result = result / whole_token;

    Ok(ConvertTokenResponse { amount: result })
}

/// Get the amount needed to represent 1 whole token given its decimals.
/// Ex. Given token A that has 3 decimals, 1 A == 1000
pub fn get_whole_token_representation(decimals: u8) -> (whole: u128)
    requires
        decimals <= 38,
    ensures
        whole == pow10(decimals as nat),
{
    let mut whole_token: u128 = 1;
    let mut i: u8 = 0;

    while i < decimals
        invariant
            i <= decimals <= 38,
            whole_token == pow10(i as nat),
        decreases decimals - i,
    {
        proof {
            lemma_pow10_increases((i + 1) as nat, 38);
            lemma_pow10_38_fits();
        }
        whole_token = whole_token * 10;
        i = i + 1;
    }

    whole_token
}

/// Every tendered coin uses the denomination `denom`. An empty sequence
/// passes: the check is on membership, not on presence.
pub open spec fn all_denoms_match(funds: Seq<Coin>, denom: Seq<char>) -> bool {
    forall|i: int| 0 <= i < funds.len() ==> funds[i].denom@ == denom
}

/// The total amount of the tendered coins whose denomination is `denom`.
pub open spec fn sum_matching(funds: Seq<Coin>, denom: Seq<char>) -> nat
    decreases funds.len(),
{
    if funds.len() == 0 {
        0
    } else {
        sum_matching(funds.drop_last(), denom) + (if funds.last().denom@ == denom {
            funds.last().amount as nat
        } else {
            0nat
        })
    }
}

proof fn lemma_sum_matching_take_step(funds: Seq<Coin>, denom: Seq<char>, i: int)
    requires
        0 <= i < funds.len(),
    ensures
        sum_matching(funds.take(i + 1), denom) == sum_matching(funds.take(i), denom) + (
        if funds[i].denom@ == denom {
            funds[i].amount as nat
        } else {
            0nat
        }),
{
    assert(funds.take(i + 1).drop_last() =~= funds.take(i));
    assert(funds.take(i + 1).last() == funds[i]);
}

/// A prefix never sums to more than the whole sequence: the amounts are
/// non-negative.
proof fn lemma_sum_matching_take_le(funds: Seq<Coin>, denom: Seq<char>, i: int)
    requires
        0 <= i <= funds.len(),
    ensures
        sum_matching(funds.take(i), denom) <= sum_matching(funds, denom),
    decreases funds.len() - i,
{
    if i < funds.len() {
        lemma_sum_matching_take_step(funds, denom, i);
        lemma_sum_matching_take_le(funds, denom, i + 1);
    } else {
        assert(funds.take(i) =~= funds);
    }
}

/// Whether every tendered coin uses the denomination `denom`.
fn check_all_denoms(funds: &Vec<Coin>, denom: &String) -> (res: bool)
    ensures
        res == all_denoms_match(funds@, denom@),
{
    let mut i: usize = 0;
    while i < funds.len()
        invariant
            i <= funds@.len(),
            forall|j: int| 0 <= j < i ==> funds@[j].denom@ == denom@,
        decreases funds@.len() - i,
    {
        if !(funds[i].denom == *denom) {
            assert(funds@[i as int].denom@ != denom@);
            return false;
        }
        i = i + 1;
    }
    true
}

/// Sum the amounts of the tendered coins whose denomination is `denom`.
/// `None` exactly when the mathematical sum does not fit in 128 bits.
fn sum_funds_matching(funds: &Vec<Coin>, denom: &String) -> (res: Option<u128>)
    ensures
        res matches Some(total) ==> total == sum_matching(funds@, denom@),
        res is Some <==> sum_matching(funds@, denom@) <= u128::MAX,
{
    let mut total: u128 = 0;
    let mut i: usize = 0;
    while i < funds.len()
        invariant
            i <= funds@.len(),
            total == sum_matching(funds@.take(i as int), denom@),
        decreases funds@.len() - i,
    {
        proof {
            lemma_sum_matching_take_step(funds@, denom@, i as int);
        }
        if funds[i].denom == *denom {
            total = match total.checked_add(funds[i].amount) {
                Some(t) => t,
                None => {
                    proof {
                        lemma_sum_matching_take_le(funds@, denom@, i + 1);
                    }
                    return None;
                },
            };
        }
        i = i + 1;
    }
    proof {
        assert(funds@.take(funds@.len() as int) =~= funds@);
    }
    Some(total)
}

/// Pure validation of a deposit: accepted exactly when every tendered coin is
/// denominated in the destination token. No state is touched.
pub fn deposit_dest_tokens(state: &State, funds: &Vec<Coin>) -> (res: Result<(), ContractError>)
    ensures
        res is Ok <==> all_denoms_match(funds@, state.dest_ic20_denom@),
        res is Err ==> res == Err::<(), ContractError>(ContractError::InvalidFunds {}),
{
    if !check_all_denoms(funds, &state.dest_ic20_denom) {
        return Err(ContractError::InvalidFunds {});
    }
    Ok(())
}

/// A transfer of `native_amount` base units of `denom` to `recipient`, for
/// the host to execute.
fn get_bank_transfer_to_msg(recipient: &String, denom: &String, native_amount: u128) -> (msg:
    BankTransfer)
    ensures
        msg.to_address@ == recipient@,
        msg.denom@ == denom@,
        msg.amount == native_amount,
{
    BankTransfer { to_address: recipient.clone(), denom: denom.clone(), amount: native_amount }
}

/// Convert tendered source tokens and instruct the host to pay the caller in
/// the destination token.
///
/// The funds must all be denominated in the destination token, and the coins
/// denominated in the source token must sum to exactly the declared amount
/// (so an all-empty tender with a declared amount of zero passes). The rate
/// handed to the engine is `10 * dest_ic20_decimals` — a linear multiple of
/// the decimals count, not a power of ten; whether that rule is the right one
/// is a configuration question for the deployment, not something decided
/// here.
pub fn convert_tokens(
    state: &State,
    sender: &String,
    funds: &Vec<Coin>,
    src_token_amount: u128,
) -> (res: Result<BankTransfer, ContractError>)
    requires
        state.well_formed(),
    ensures
        res is Ok <==> (all_denoms_match(funds@, state.dest_ic20_denom@) && sum_matching(
            funds@,
            state.src_ic20_denom@,
        ) == src_token_amount && conversion_fits(
            src_token_amount as nat,
            10 * state.dest_ic20_decimals as nat,
            state.src_ic20_decimals as nat,
            state.dest_ic20_decimals as nat,
        )),
        res matches Ok(transfer) ==> (transfer.to_address@ == sender@ && transfer.denom@
            == state.dest_ic20_denom@ && transfer.amount == spec_convert(
            src_token_amount as nat,
            10 * state.dest_ic20_decimals as nat,
            state.src_ic20_decimals as nat,
            state.dest_ic20_decimals as nat,
        )),
        !all_denoms_match(funds@, state.dest_ic20_denom@) ==> res == Err::<
            BankTransfer,
            ContractError,
        >(ContractError::InvalidFunds {}),
        all_denoms_match(funds@, state.dest_ic20_denom@) && sum_matching(
            funds@,
            state.src_ic20_denom@,
        ) != src_token_amount ==> res == Err::<BankTransfer, ContractError>(
            ContractError::InvalidFunds {},
        ),
        all_denoms_match(funds@, state.dest_ic20_denom@) && sum_matching(
            funds@,
            state.src_ic20_denom@,
        ) == src_token_amount && !conversion_fits(
            src_token_amount as nat,
            10 * state.dest_ic20_decimals as nat,
            state.src_ic20_decimals as nat,
            state.dest_ic20_decimals as nat,
        ) ==> res == Err::<BankTransfer, ContractError>(ContractError::NumericOverflow {}),
{
    // make sure it's the right token and count how much has been sent.
    if !check_all_denoms(funds, &state.dest_ic20_denom) {
        return Err(ContractError::InvalidFunds {});
    }
    let received_src_token_amount = match sum_funds_matching(funds, &state.src_ic20_denom) {
        Some(total) => total,
        None => {
            // the true sum exceeds u128::MAX, so it cannot equal the
            // declared amount
            return Err(ContractError::InvalidFunds {});
        },
    };
    if received_src_token_amount != src_token_amount {
        return Err(ContractError::InvalidFunds {});
    }

    let rate: u128 = 10 * (state.dest_ic20_decimals as u128);
    // convert the sent amount to the destination token denomination & decimals
    let out_token_amount = match calculate_token_conversion_output(
        received_src_token_amount,
        rate,
        state.src_ic20_decimals,
        state.dest_ic20_decimals,
    ) {
        Ok(response) => response,
        Err(e) => {
            return Err(e);
        },
    };

    Ok(get_bank_transfer_to_msg(sender, &state.dest_ic20_denom, out_token_amount.amount))
}

/// Build the one configuration record of a deployment from the
/// initialization parameters, recording the initializing caller as owner.
/// The host persists the record; this transition happens once and is never
/// undone.
pub fn instantiate(sender: String, msg: InstantiateMsg) -> (state: State)
    requires
        msg.src_ic20_decimals <= 38,
        msg.dest_ic20_decimals <= 38,
    ensures
        state == (State {
            count: msg.count,
            owner: sender,
            dest_ic20_denom: msg.dest_ic20_denom,
            dest_ic20_decimals: msg.dest_ic20_decimals,
            src_ic20_denom: msg.src_ic20_denom,
            src_ic20_decimals: msg.src_ic20_decimals,
        }),
        state.well_formed(),
{
    State {
        count: msg.count,
        owner: sender,
        dest_ic20_denom: msg.dest_ic20_denom,
        dest_ic20_decimals: msg.dest_ic20_decimals,
        src_ic20_denom: msg.src_ic20_denom,
        src_ic20_decimals: msg.src_ic20_decimals,
    }
}

/// The record after one unconditional increment of the counter.
pub open spec fn spec_increment(s: State) -> State {
    State { count: (s.count + 1) as i32, ..s }
}

/// The record after `n` increments in a row.
pub open spec fn increment_n(s: State, n: nat) -> State
    decreases n,
{
    if n == 0 {
        s
    } else {
        spec_increment(increment_n(s, (n - 1) as nat))
    }
}

/// `increment` applied `n` times in a row raises the counter by exactly `n`
/// and changes nothing else — it takes no caller, so no identity can affect
/// it.
pub proof fn lemma_increment_n(s: State, n: nat)
    requires
        s.count + n <= i32::MAX,
    ensures
        increment_n(s, n) == (State { count: (s.count + n) as i32, ..s }),
    decreases n,
{
    if n > 0 {
        lemma_increment_n(s, (n - 1) as nat);
    }
}

/// Unconditionally increment the counter by 1. Anyone may call this; there
/// is no authorization check.
pub fn try_increment(state: &mut State) -> (res: Result<(), ContractError>)
    requires
        old(state).count < i32::MAX,
    ensures
        res is Ok,
        *final(state) == spec_increment(*old(state)),
        final(state).count == old(state).count + 1,
{
    state.count = state.count + 1;
    Ok(())
}

/// Overwrite the counter, owner only. A non-owner caller gets
/// `Unauthorized` and the record is left exactly as it was: the write is
/// all-or-nothing.
pub fn try_reset(state: &mut State, sender: &String, count: i32) -> (res: Result<
    (),
    ContractError,
>)
    ensures
        res is Ok <==> sender@ == old(state).owner@,
        res is Ok ==> *final(state) == (State { count: count, ..*old(state) }),
        res is Err ==> *final(state) == *old(state) && res == Err::<(), ContractError>(
            ContractError::Unauthorized {},
        ),
{
    if !(*sender == state.owner) {
        return Err(ContractError::Unauthorized {});
    }
    state.count = count;
    Ok(())
}

/// Apply one state-mutating operation to the record. On any error the
/// record is unchanged.
pub fn execute(state: &mut State, sender: &String, msg: ExecuteMsg) -> (res: Result<
    (),
    ContractError,
>)
    requires
        msg is Increment ==> old(state).count < i32::MAX,
    ensures
        msg is Increment ==> res is Ok && *final(state) == spec_increment(*old(state)),
        msg matches ExecuteMsg::Reset { count } ==> {
            &&& res is Ok <==> sender@ == old(state).owner@
            &&& res is Ok ==> *final(state) == (State { count: count, ..*old(state) })
            &&& res is Err ==> *final(state) == *old(state) && res == Err::<(), ContractError>(
                ContractError::Unauthorized {},
            )
        },
{
    match msg {
        ExecuteMsg::Increment {} => try_increment(state),
        ExecuteMsg::Reset { count } => try_reset(state, sender, count),
    }
}

/// Answer a read-only query. Never touches the record.
pub fn query(state: &State, msg: QueryMsg) -> (res: CountResponse)
    ensures
        res.count == state.count,
{
    match msg {
        QueryMsg::GetCount {} => query_count(state),
    }
}

/// The current counter value.
fn query_count(state: &State) -> (res: CountResponse)
    ensures
        res.count == state.count,
{
    CountResponse { count: state.count }
}

} // verus!
