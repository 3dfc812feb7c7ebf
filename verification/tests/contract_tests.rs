use fungible_ics20_ics20_conversion::contract::{
    calculate_token_conversion_output, convert_tokens, deposit_dest_tokens, execute,
    get_whole_token_representation, instantiate, query, try_increment, try_reset,
};
use fungible_ics20_ics20_conversion::error::ContractError;
use fungible_ics20_ics20_conversion::msg::{Coin, ExecuteMsg, InstantiateMsg, QueryMsg};
use fungible_ics20_ics20_conversion::state::State;

fn init_state(sender: &str, count: i32) -> State {
    let msg = InstantiateMsg {
        count,
        src_ic20_decimals: 18,
        src_ic20_denom: "erc20token".to_string(),
        dest_ic20_decimals: 6,
        dest_ic20_denom: "cosmostoken".to_string(),
    };
    instantiate(sender.to_string(), msg)
}

#[test]
fn proper_initialization() {
    let msg = InstantiateMsg {
        count: 17,
        src_ic20_decimals: 18,
        src_ic20_denom: "erc20token".to_string(),
        dest_ic20_decimals: 6,
        dest_ic20_denom: "cosmostoken".to_string(),
    };

    let state = instantiate("creator".to_string(), msg);
    assert_eq!(state.owner, "creator".to_string());

    // it worked, let's query the state
    let value = query(&state, QueryMsg::GetCount {});
    assert_eq!(17, value.count);
}

#[test]
fn increment() {
    let mut state = init_state("creator", 17);

    // beneficiary can release it
    let res = execute(&mut state, &"anyone".to_string(), ExecuteMsg::Increment {});
    assert!(res.is_ok());

    // should increase counter by 1
    let value = query(&state, QueryMsg::GetCount {});
    assert_eq!(18, value.count);
}

#[test]
fn reset() {
    let mut state = init_state("creator", 17);

    // beneficiary can release it
    let res = execute(&mut state, &"anyone".to_string(), ExecuteMsg::Reset { count: 5 });
    match res {
        Err(ContractError::Unauthorized {}) => {}
        _ => panic!("Must return unauthorized error"),
    }

    // only the original creator can reset the counter
    let res = execute(&mut state, &"creator".to_string(), ExecuteMsg::Reset { count: 5 });
    assert!(res.is_ok());

    // should now be 5
    let value = query(&state, QueryMsg::GetCount {});
    assert_eq!(5, value.count);
}

#[test]
fn test_convert_token() {
    // Assuming the user friendly (in the UI) exchange rate has been set to
    // 1 swapped_token (9 decimals) == 1.5 input_token (9 decimals):
    // the rate would be 1 / 1.5 = 0.(6) or 666666666 (0.(6) ** 10 * 9)
    // meaning the price for 1 whole swapped_token is
    // 1500000000 (1.5 * 10 ** 9 decimals) of input_token.

    // If we want to get 2 of swapped_token, we need to send 3 input_token
    // i.e. amount = 3000000000 (3 * 10 ** 9 decimals)

    let rate = 666_666_666;
    let amount = 3_000_000_000;

    let result = calculate_token_conversion_output(amount, rate, 9, 9).unwrap();
    assert_eq!(result.amount, 1_999_999_998);

    // Should work the same even if input_token has less decimals (ex. 6)
    // Here amount has 3 zeroes less because input_token now has 6 decimals, so
    // 1 input_token = 3000000 (3 * 10 ** 6)

    let rate = 666_666_666;
    let amount = 3_000_000;

    let result = calculate_token_conversion_output(amount, rate, 6, 9).unwrap();
    assert_eq!(result.amount, 1_999_999_998);

    // And the other way around - when swap_token has 6 decimals.
    // Here the rate and result have 3 less digits - to account for the less decimals

    let rate = 666_666;
    let amount = 3_000_000_000;

    let result = calculate_token_conversion_output(amount, rate, 9, 6).unwrap();
    assert_eq!(result.amount, 1_999_998);

    // erc20 to ics20 standard conversion test

    let rate = 1_000_000;
    let amount = 3_000_000_000_000_000_000;

    let result = calculate_token_conversion_output(amount, rate, 18, 6).unwrap();
    assert_eq!(result.amount, 3_000_000);
}

#[test]
fn whole_token_representation_values() {
    assert_eq!(get_whole_token_representation(0), 1);
    assert_eq!(get_whole_token_representation(3), 1000);
    assert_eq!(
        get_whole_token_representation(38),
        100_000_000_000_000_000_000_000_000_000_000_000_000
    );
}

#[test]
fn convert_equal_decimals_is_floor_formula() {
    // with equal decimals the result is exactly floor(amount * rate / 10^d)
    let result = calculate_token_conversion_output(12_345, 777, 4, 4).unwrap();
    assert_eq!(result.amount, 12_345 * 777 / 10_000);
    assert_eq!(result.amount, 959);
}

#[test]
fn round_trip_loss_is_bounded() {
    // 0.4 forward and 2.5 back are exact inverses: 4e8 * 25e8 == 10^18
    let amount: u128 = 3_000_000_007;
    let forward = calculate_token_conversion_output(amount, 400_000_000, 9, 9)
        .unwrap()
        .amount;
    assert_eq!(forward, 1_200_000_002);
    let back = calculate_token_conversion_output(forward, 2_500_000_000, 9, 9)
        .unwrap()
        .amount;
    assert_eq!(back, 3_000_000_005);
    // the round trip never pays out more than went in
    assert!(back <= amount);
    // and the loss stays below one whole output token's worth plus one unit
    assert!((amount - back) * 1_000_000_000 < 2_500_000_000 + 1_000_000_000);
}

#[test]
fn increment_many_times_adds_exactly_n() {
    let mut state = init_state("creator", 0);
    let callers = ["a", "b", "creator", "d", "e"];
    for caller in callers {
        execute(&mut state, &caller.to_string(), ExecuteMsg::Increment {}).unwrap();
    }
    assert_eq!(query(&state, QueryMsg::GetCount {}).count, 5);
}

#[test]
fn increment_overflow_guard_at_boundary() {
    let mut state = init_state("creator", i32::MAX - 1);
    try_increment(&mut state).unwrap();
    assert_eq!(query(&state, QueryMsg::GetCount {}).count, i32::MAX);
}

#[test]
fn reset_by_non_owner_leaves_counter_unchanged() {
    let mut state = init_state("creator", 17);
    let res = try_reset(&mut state, &"anyone".to_string(), 99);
    assert_eq!(res, Err(ContractError::Unauthorized {}));
    assert_eq!(query(&state, QueryMsg::GetCount {}).count, 17);
}

fn same_denom_state() -> State {
    // source and destination share a denomination, so tendered coins both
    // pass the membership check and count toward the declared amount
    let msg = InstantiateMsg {
        count: 0,
        src_ic20_decimals: 0,
        src_ic20_denom: "utoken".to_string(),
        dest_ic20_decimals: 6,
        dest_ic20_denom: "utoken".to_string(),
    };
    instantiate("creator".to_string(), msg)
}

#[test]
fn convert_tokens_rejects_misdeclared_amount() {
    let state = same_denom_state();
    let funds = vec![Coin { denom: "utoken".to_string(), amount: 100 }];
    // off by one unit: the declared amount must match the tendered sum exactly
    let res = convert_tokens(&state, &"trader".to_string(), &funds, 101);
    assert_eq!(res, Err(ContractError::InvalidFunds {}));
    let res = convert_tokens(&state, &"trader".to_string(), &funds, 99);
    assert_eq!(res, Err(ContractError::InvalidFunds {}));
}

#[test]
fn convert_tokens_rejects_foreign_denom() {
    let state = same_denom_state();
    let funds = vec![
        Coin { denom: "utoken".to_string(), amount: 100 },
        Coin { denom: "other".to_string(), amount: 1 },
    ];
    let res = convert_tokens(&state, &"trader".to_string(), &funds, 100);
    assert_eq!(res, Err(ContractError::InvalidFunds {}));
}

#[test]
fn convert_tokens_emits_transfer_to_caller() {
    let state = same_denom_state();
    let funds = vec![
        Coin { denom: "utoken".to_string(), amount: 60 },
        Coin { denom: "utoken".to_string(), amount: 40 },
    ];
    let transfer = convert_tokens(&state, &"trader".to_string(), &funds, 100).unwrap();
    // rate is 10 * dest decimals = 60; 0 source decimals, 6 destination ones:
    // 100 * 60 * 10^6 / 10^6 = 6000
    assert_eq!(transfer.amount, 6_000);
    assert_eq!(transfer.denom, "utoken".to_string());
    assert_eq!(transfer.to_address, "trader".to_string());
}

#[test]
fn convert_tokens_accepts_empty_tender_of_zero() {
    let state = same_denom_state();
    let funds: Vec<Coin> = vec![];
    let transfer = convert_tokens(&state, &"trader".to_string(), &funds, 0).unwrap();
    assert_eq!(transfer.amount, 0);
}

#[test]
fn deposit_accepts_destination_denom_only() {
    let state = init_state("creator", 0);
    let good = vec![
        Coin { denom: "cosmostoken".to_string(), amount: 7 },
        Coin { denom: "cosmostoken".to_string(), amount: 1 },
    ];
    assert!(deposit_dest_tokens(&state, &good).is_ok());

    let mixed = vec![
        Coin { denom: "cosmostoken".to_string(), amount: 7 },
        Coin { denom: "erc20token".to_string(), amount: 1 },
    ];
    assert_eq!(deposit_dest_tokens(&state, &mixed), Err(ContractError::InvalidFunds {}));

    let none: Vec<Coin> = vec![];
    assert!(deposit_dest_tokens(&state, &none).is_ok());
}

#[test]
fn conversion_overflow_is_detected() {
    // the first product overflows 128 bits
    let res = calculate_token_conversion_output(u128::MAX, 2, 0, 0);
    assert_eq!(res, Err(ContractError::NumericOverflow {}));

    // the product fits but the compensation factor pushes it over
    let res = calculate_token_conversion_output(
        1_000_000_000_000_000_000_000_000_000_000,
        10,
        0,
        20,
    );
    assert_eq!(res, Err(ContractError::NumericOverflow {}));

    // the same magnitudes divided down instead are fine
    let res = calculate_token_conversion_output(
        1_000_000_000_000_000_000_000_000_000_000,
        10,
        20,
        0,
    );
    assert_eq!(res.unwrap().amount, 100_000_000_000);
}
