//! Errors of the staking registry.
use vstd::prelude::*;

verus! {

/// Every way an operation of the registry can fail. Each one ends the
/// current operation; none is retried.
#[derive(Clone, Copy, Debug, PartialEq, Eq, Structural)]
pub enum NFTStakingError {
    /// The account cannot be initialized because it is already being used.
    AlreadyInUse,
    /// Required signature is missing.
    SignatureMissing,
    /// The request bytes do not decode to a known instruction.
    InvalidInstruction,
    /// An account does not hold enough balance to be rent exempt.
    NotRentExempt,
    /// Expected amount mismatch.
    ExpectedAmountMismatch,
    /// Amount overflow.
    AmountOverflow,
    /// The record store handed in is not the one bound to the registry.
    InvalidStakeList,
    /// No staked record for this owner and token, or its holder differs.
    StakedNFTNotFound,
    /// Account data is malformed.
    ExpectedAccount,
    /// The record store is full (or, on withdrawal, empty).
    CapacityExceeded,
    /// The buffer cannot hold the header and every slot of the capacity.
    BufferTooSmall,
    /// No delegated authority could be derived from the seeds.
    InvalidSeeds,
}

impl NFTStakingError {
    /// The numeric code of each error: its position in the declaration.
    pub open spec fn spec_code(&self) -> u32 {
        match self {
            NFTStakingError::AlreadyInUse => 0,
            NFTStakingError::SignatureMissing => 1,
            NFTStakingError::InvalidInstruction => 2,
            NFTStakingError::NotRentExempt => 3,
            NFTStakingError::ExpectedAmountMismatch => 4,
            NFTStakingError::AmountOverflow => 5,
            NFTStakingError::InvalidStakeList => 6,
            NFTStakingError::StakedNFTNotFound => 7,
            NFTStakingError::ExpectedAccount => 8,
            NFTStakingError::CapacityExceeded => 9,
            NFTStakingError::BufferTooSmall => 10,
            NFTStakingError::InvalidSeeds => 11,
        }
    }

    /// The numeric code reported to the host for this error.
    pub fn code(&self) -> (r: u32)
        ensures
            r == self.spec_code(),
    {
        match self {
            NFTStakingError::AlreadyInUse => 0,
            NFTStakingError::SignatureMissing => 1,
            NFTStakingError::InvalidInstruction => 2,
            NFTStakingError::NotRentExempt => 3,
            NFTStakingError::ExpectedAmountMismatch => 4,
            NFTStakingError::AmountOverflow => 5,
            NFTStakingError::InvalidStakeList => 6,
            NFTStakingError::StakedNFTNotFound => 7,
            NFTStakingError::ExpectedAccount => 8,
            NFTStakingError::CapacityExceeded => 9,
            NFTStakingError::BufferTooSmall => 10,
            NFTStakingError::InvalidSeeds => 11,
        }
    }
}

} // verus!
