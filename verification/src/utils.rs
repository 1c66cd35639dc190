//! Fixed policy values for the secondary-ledger (WeaveVM) submission path,
//! and the small decision core the submitter relies on.

use vstd::prelude::*;
use crate::PayTubeError;

verus! {

/// The identity that signs and funds WeaveVM settlement transactions.
pub const WVM_DATA_SETTLER: &'static str = "0x55dA54ee977FBe734d5250F0558bc4B2FBe36b2a";

/// The chain id of the WeaveVM target network.
pub const WVM_CHAIN_ID: u64 = 9496;

/// The default gas price for settlement transactions: 2.14 Gwei.
pub const WVM_GAS_PRICE: u64 = 2_140_000_000;

/// A submission-ready description of a settlement transaction: the payload
/// to carry, a zero value transfer, and the gas price to offer.
#[derive(Debug, Clone, PartialEq, Eq)]
pub struct SettlementRequest {
    pub data: Vec<u8>,
    pub value: u64,
    pub gas_price: u64,
}

/// Builds the settlement request for a payload under the default gas price
/// policy: a zero-value transaction carrying exactly the payload.
pub fn settlement_request(data: Vec<u8>) -> (r: SettlementRequest)
    ensures
        r.data@ == data@,
        r.value == 0,
        r.gas_price == WVM_GAS_PRICE,
{
    settlement_request_with_gas_price(data, WVM_GAS_PRICE)
}

/// As `settlement_request`, with a caller-chosen gas price.
pub fn settlement_request_with_gas_price(data: Vec<u8>, gas_price: u64) -> (r: SettlementRequest)
    ensures
        r.data@ == data@,
        r.value == 0,
        r.gas_price == gas_price,
{
    SettlementRequest { data, value: 0, gas_price }
}

/// Turns the outcome of a submission wait into a settlement identifier:
/// a confirmed transaction hash passes through unchanged, and a missing
/// confirmation is a submission failure, never a partial identifier.
pub fn settlement_id(confirmation: Option<String>) -> (r: Result<String, PayTubeError>)
    ensures
        confirmation matches Some(h) ==> (r matches Ok(s) && s@ == h@),
        confirmation is None ==> r == Err::<String, PayTubeError>(PayTubeError::Submission),
{
    match confirmation {
        Some(h) => Ok(h),
        None => Err(PayTubeError::Submission),
    }
}

} // verus!
