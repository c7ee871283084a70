//! Calls into the on-chain runtime library.
use vstd::prelude::*;
use solana_program::program_memory::sol_memcmp;
use solana_program::pubkey::Pubkey;

verus! {

/// What `Pubkey::try_find_program_address` returns for the seeds and the
/// program identity: a derived address and its bump seed, or nothing.
pub uninterp spec fn program_address_of(seeds: Seq<Seq<u8>>, program: Seq<u8>) -> Option<(Seq<u8>, u8)>;

/// Relies on `solana_program::program_memory::sol_memcmp`: with `n` at most
/// both lengths it compares the first `n` bytes and returns 0 exactly when
/// they are equal.
#[verifier::external_body]
pub(crate) fn memcmp(s1: &[u8], s2: &[u8], n: usize) -> (r: i32)
    requires
        n <= s1@.len(),
        n <= s2@.len(),
    ensures
        (r == 0) == (s1@.subrange(0, n as int) == s2@.subrange(0, n as int)),
{
    sol_memcmp(s1, s2, n)
}

/// Relies on `solana_program::pubkey::Pubkey::try_find_program_address`:
/// the address derived from three seeds under a program identity, with its
/// bump seed, or `None` where no bump seed gives a valid address. The
/// result depends on the seeds and the program identity alone.
#[verifier::external_body]
pub(crate) fn try_find_program_address(
    seed0: &[u8],
    seed1: &[u8; 32],
    seed2: &[u8; 32],
    program: &[u8; 32],
) -> (r: Option<([u8; 32], u8)>)
    ensures
        match r {
            Some((key, bump)) => program_address_of(seq![seed0@, seed1@, seed2@], program@) == Some(
                (key@, bump),
            ),
            None => program_address_of(seq![seed0@, seed1@, seed2@], program@).is_none(),
        },
{
    Pubkey::try_find_program_address(&[seed0, seed1, seed2], &Pubkey::new_from_array(*program))
        .map(|(key, bump)| (key.to_bytes(), bump))
}

} // verus!
