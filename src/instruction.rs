//! The request encoding: a one-byte tag, then the payload.
use vstd::prelude::*;
use crate::error::NFTStakingError;
use crate::layout::{le_bytes, le_value, push_le, read_le, lemma_le_round_trip, lemma_pow256_8};

verus! {

/// Payload of a deposit request.
#[derive(Clone, Copy, Debug, PartialEq, Eq, Structural)]
pub struct DepositNFTData {
    pub amount: u64,
}

/// The requests the registry serves.
#[derive(Clone, Copy, Debug, PartialEq, Eq, Structural)]
pub enum NFTStakingInstruction {
    /// Creates the registry and an empty record store. Tag 0.
    Initialize,
    /// Stakes a token. Tag 1, then the amount as 8 little-endian bytes.
    DepositNFT(DepositNFTData),
    /// Unstakes a token. Tag 2.
    WithdrawNFT,
}

/// The request that `b` encodes, if any. Bytes after the payload are
/// ignored.
pub open spec fn decode_instruction(b: Seq<u8>) -> Option<NFTStakingInstruction> {
    if b.len() == 0 {
        None
    } else if b[0] == 0 {
        Some(NFTStakingInstruction::Initialize)
    } else if b[0] == 1 {
        if b.len() >= 9 {
            Some(
                NFTStakingInstruction::DepositNFT(
                    DepositNFTData { amount: le_value(b.subrange(1, 9)) as u64 },
                ),
            )
        } else {
            None
        }
    } else if b[0] == 2 {
        Some(NFTStakingInstruction::WithdrawNFT)
    } else {
        None
    }
}

/// The bytes of a request.
pub open spec fn encode_instruction(i: NFTStakingInstruction) -> Seq<u8> {
    match i {
        NFTStakingInstruction::Initialize => seq![0u8],
        NFTStakingInstruction::DepositNFT(d) => seq![1u8] + le_bytes(d.amount as nat, 8),
        NFTStakingInstruction::WithdrawNFT => seq![2u8],
    }
}

impl NFTStakingInstruction {
    /// Decodes a request; fails with `InvalidInstruction` on an empty
    /// input, an unknown tag or a truncated deposit amount.
    pub fn unpack(input: &[u8]) -> (r: Result<NFTStakingInstruction, NFTStakingError>)
        ensures
            r == (match decode_instruction(input@) {
                Some(i) => Ok::<NFTStakingInstruction, NFTStakingError>(i),
                None => Err(NFTStakingError::InvalidInstruction),
            }),
    {
        if input.len() == 0 {
            return Err(NFTStakingError::InvalidInstruction);
        }
        let tag = input[0];
        let rest = vstd::slice::slice_subrange(input, 1, input.len());
        if tag == 0 {
            Ok(NFTStakingInstruction::Initialize)
        } else if tag == 1 {
            match Self::unpack_u64(rest) {
                Ok(amount) => {
                    assert(rest@.subrange(0, 8) =~= input@.subrange(1, 9));
                    Ok(NFTStakingInstruction::DepositNFT(DepositNFTData { amount }))
                },
                Err(e) => Err(e),
            }
        } else if tag == 2 {
            Ok(NFTStakingInstruction::WithdrawNFT)
        } else {
            Err(NFTStakingError::InvalidInstruction)
        }
    }

    /// Reads a little-endian `u64` from the first eight bytes of `input`;
    /// fails with `InvalidInstruction` when there are fewer.
    fn unpack_u64(input: &[u8]) -> (r: Result<u64, NFTStakingError>)
        ensures
            input@.len() >= 8 <==> r is Ok,
            r is Err ==> r == Err::<u64, NFTStakingError>(NFTStakingError::InvalidInstruction),
            r matches Ok(v) ==> v as nat == le_value(input@.subrange(0, 8)),
    {
        if input.len() < 8 {
            return Err(NFTStakingError::InvalidInstruction);
        }
        Ok(read_le(input, 0, 8))
    }

    /// Encodes the request.
    pub fn pack(&self) -> (r: Vec<u8>)
        ensures
            r@ == encode_instruction(*self),
    {
        let mut buf: Vec<u8> = Vec::new();
        match *self {
            NFTStakingInstruction::Initialize => buf.push(0),
            NFTStakingInstruction::DepositNFT(DepositNFTData { amount }) => {
                buf.push(1);
                push_le(&mut buf, amount, 8);
            },
            NFTStakingInstruction::WithdrawNFT => buf.push(2),
        }
        assert(buf@ =~= encode_instruction(*self));
        buf
    }
}

/// Encoding a request and decoding the bytes gives the same request.
pub proof fn lemma_instruction_round_trip(i: NFTStakingInstruction)
    ensures
        decode_instruction(encode_instruction(i)) == Some(i),
{
    if let NFTStakingInstruction::DepositNFT(d) = i {
        lemma_pow256_8();
        lemma_le_round_trip(d.amount as nat, 8);
        let b = encode_instruction(i);
        assert(b.subrange(1, 9) =~= le_bytes(d.amount as nat, 8));
    }
}

} // verus!
