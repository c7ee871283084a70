//! Configuration constants and the derivation of delegated authorities.
use vstd::prelude::*;
use crate::runtime::{program_address_of, try_find_program_address};

verus! {

/// Capacity given to a record store on initialization.
pub const MAX_ITEMS: u16 = 65535;

/// The domain tag that scopes delegated authorities: the bytes of
/// `"transient"`.
pub open spec fn transient_seed() -> Seq<u8> {
    seq![116u8, 114u8, 97u8, 110u8, 115u8, 105u8, 101u8, 110u8, 116u8]
}

/// The bytes of the domain tag.
pub fn transient_seed_prefix() -> (r: Vec<u8>)
    ensures
        r@ == transient_seed(),
{
    let mut r: Vec<u8> = Vec::new();
    r.push(116);
    r.push(114);
    r.push(97);
    r.push(110);
    r.push(115);
    r.push(105);
    r.push(101);
    r.push(110);
    r.push(116);
    assert(r@ =~= transient_seed());
    r
}

/// The delegated authority (and its nonce) for an owner and a token under
/// a program identity, if one can be derived.
pub open spec fn authority_of(owner: Seq<u8>, mint: Seq<u8>, program: Seq<u8>) -> Option<(Seq<u8>, u8)> {
    program_address_of(seq![transient_seed(), owner, mint], program)
}

/// Derives the delegated authority for `(domain tag, owner, mint)` under
/// `program_id`: a reproducible identity and the nonce that lets the
/// custody service accept actions in its name.
pub fn derive_authority(owner: &[u8; 32], mint: &[u8; 32], program_id: &[u8; 32]) -> (r: Option<([u8; 32], u8)>)
    ensures
        match r {
            Some((key, nonce)) => authority_of(owner@, mint@, program_id@) == Some((key@, nonce)),
            None => authority_of(owner@, mint@, program_id@) is None,
        },
{
    let seed = transient_seed_prefix();
    try_find_program_address(seed.as_slice(), owner, mint, program_id)
}

} // verus!
