//! The replacement transaction handed to the signer, and why one could not
//! be built.
use vstd::prelude::*;
use crate::uint256::Uint256;

verus! {

/// A transaction to sign and send: recipient, value, calldata, gas limit
/// and gas price.
pub struct FrontrunRequest {
    pub to: [u8; 20],
    pub value: Uint256,
    pub data: Vec<u8>,
    pub gas: Uint256,
    pub gas_price: Uint256,
}

/// Why no replacement transaction was built.
#[derive(Clone, Copy, Debug, PartialEq, Eq, Structural)]
pub enum PrepareError {
    /// The stored calldata text is not valid hex.
    InvalidHexInput,
    /// The calldata is shorter than its method selector.
    InputTooShort,
    /// The `value` field is not a hex number of at most 256 bits.
    InvalidValue,
    /// The `gasPrice` field is not a hex number of at most 256 bits.
    InvalidGasPrice,
    /// The rewritten calldata text is not valid hex.
    InvalidCalldata,
}

} // verus!
