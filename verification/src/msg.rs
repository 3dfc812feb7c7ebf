use vstd::prelude::*;

verus! {

/// One tendered coin: a denomination and an amount in base units.
#[derive(Clone, Debug, PartialEq)]
pub struct Coin {
    pub denom: String,
    pub amount: u128,
}

/// Parameters of the one-time initialization.
#[derive(Clone, Debug, PartialEq)]
pub struct InstantiateMsg {
    pub count: i32,
    pub src_ic20_denom: String,
    pub src_ic20_decimals: u8,
    pub dest_ic20_denom: String,
    pub dest_ic20_decimals: u8,
}

/// State-mutating operations.
#[derive(Clone, Debug, PartialEq)]
pub enum ExecuteMsg {
    Increment {},
    Reset { count: i32 },
}

/// Read-only queries.
#[derive(Clone, Debug, PartialEq)]
pub enum QueryMsg {
    GetCount {},
}

/// Answer to `QueryMsg::GetCount`.
#[derive(Clone, Copy, Debug, PartialEq, Eq, Structural)]
pub struct CountResponse {
    pub count: i32,
}

/// Result of the conversion engine: the computed amount in destination-token
/// base units.
#[derive(Clone, Copy, Debug, PartialEq, Eq, Structural)]
pub struct ConvertTokenResponse {
    pub amount: u128,
}

/// A transfer instruction for the host to execute: send `amount` base units
/// of `denom` to `to_address`.
#[derive(Clone, Debug, PartialEq)]
pub struct BankTransfer {
    pub to_address: String,
    pub denom: String,
    pub amount: u128,
}

} // verus!
