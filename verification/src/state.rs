use vstd::prelude::*;

verus! {

/// Persistent configuration of the conversion module: the recorded owner, a
/// counter, and the denomination / decimal precision of the source and
/// destination tokens. The host keeps exactly one such record per deployment
/// and hands it to every operation; the operations here never touch storage
/// themselves.
#[derive(Clone, Debug, PartialEq)]
pub struct State {
    pub count: i32,
    pub owner: String,
    pub dest_ic20_denom: String,
    pub dest_ic20_decimals: u8,
    pub src_ic20_denom: String,
    pub src_ic20_decimals: u8,
}

impl State {
    /// Both decimal counts must stay small enough that a 128-bit intermediate
    /// can hold one whole token's worth of base units.
    pub open spec fn well_formed(self) -> bool {
        self.src_ic20_decimals <= 38 && self.dest_ic20_decimals <= 38
    }
}

} // verus!
