//! The staking lifecycle: the decisions of Initialize, Deposit and Withdraw.
//!
//! Deposit and Withdraw each run in two steps around the custody service.
//! The first step checks every precondition and says what the custody
//! service must do; only after the custody service has done it does the
//! second step change the record store.
use vstd::prelude::*;
use crate::error::NFTStakingError;
use crate::record_store::{HolderDiffers, RecordStore, kept_by, slot_start};
use crate::state::{StakeListHeader, StakeStore, StakedNFT, holder_of, keys_equal, keys_match, record_bytes};
use crate::utils::{MAX_ITEMS, authority_of, derive_authority};

verus! {

/// A deposit whose preconditions hold. Before it is recorded the custody
/// service must give authority over `holder` to `new_authority`, in the
/// name of `owner`.
#[derive(Clone, Copy, Debug, PartialEq, Eq)]
pub struct PendingDeposit {
    pub owner: [u8; 32],
    pub token_mint: [u8; 32],
    pub holder: [u8; 32],
    pub new_authority: [u8; 32],
}

/// A withdrawal whose preconditions hold. Before it is recorded the
/// custody service must move the whole balance of `holder` to `owner` and
/// then close `holder`, both under `authority`, signed with the seeds and
/// `nonce`.
#[derive(Clone, Copy, Debug, PartialEq, Eq)]
pub struct PendingWithdraw {
    pub owner: [u8; 32],
    pub token_mint: [u8; 32],
    pub holder: [u8; 32],
    pub authority: [u8; 32],
    pub nonce: u8,
}

/// Whether slot `i` of `recs` holds the first record with these keys.
pub open spec fn is_first_match(recs: Seq<Seq<u8>>, owner: Seq<u8>, mint: Seq<u8>, i: int) -> bool {
    &&& 0 <= i < recs.len()
    &&& keys_match(recs[i], owner, mint)
    &&& forall|j: int| 0 <= j < i ==> !keys_match(#[trigger] recs[j], owner, mint)
}

/// Whether the first record with these keys is custodied by `holder`.
pub open spec fn first_match_held_by(recs: Seq<Seq<u8>>, owner: Seq<u8>, mint: Seq<u8>, holder: Seq<u8>) -> bool {
    exists|i: int| is_first_match(recs, owner, mint, i) && holder_of(recs[i]) == holder
}

/// The error Initialize ends with, if any.
pub open spec fn initialize_error(
    manager_is_signer: bool,
    stake_store_key: Seq<u8>,
    stake_list_key: Seq<u8>,
    store_rent_exempt: bool,
    list_rent_exempt: bool,
    list_len: nat,
) -> Option<NFTStakingError> {
    if !manager_is_signer {
        Some(NFTStakingError::SignatureMissing)
    } else if stake_store_key == stake_list_key {
        Some(NFTStakingError::AlreadyInUse)
    } else if !store_rent_exempt || !list_rent_exempt {
        Some(NFTStakingError::NotRentExempt)
    } else if list_len < slot_start(MAX_ITEMS as int) {
        Some(NFTStakingError::BufferTooSmall)
    } else {
        None
    }
}

/// The error the checks of a deposit end with, if any.
pub open spec fn deposit_error(
    registry: StakeStore,
    list: RecordStore,
    stake_list_key: Seq<u8>,
    depositor_is_signer: bool,
) -> Option<NFTStakingError> {
    if !depositor_is_signer {
        Some(NFTStakingError::SignatureMissing)
    } else if stake_list_key != registry.stake_list@ {
        Some(NFTStakingError::InvalidStakeList)
    } else if list.spec_len() == list.spec_capacity() {
        Some(NFTStakingError::CapacityExceeded)
    } else {
        None
    }
}

/// The error the checks of a withdrawal end with, if any.
pub open spec fn withdraw_error(
    registry: StakeStore,
    list: RecordStore,
    stake_list_key: Seq<u8>,
    withdrawer_is_signer: bool,
    withdrawer: Seq<u8>,
    mint: Seq<u8>,
    holder: Seq<u8>,
) -> Option<NFTStakingError> {
    if !withdrawer_is_signer {
        Some(NFTStakingError::SignatureMissing)
    } else if stake_list_key != registry.stake_list@ {
        Some(NFTStakingError::InvalidStakeList)
    } else if list.spec_len() == 0 {
        Some(NFTStakingError::CapacityExceeded)
    } else if !first_match_held_by(list.records(), withdrawer, mint, holder) {
        Some(NFTStakingError::StakedNFTNotFound)
    } else {
        None
    }
}

/// The holder bytes of a serialized record are its holder identity.
proof fn lemma_holder_of_record(x: StakedNFT)
    ensures
        holder_of(record_bytes(x)) == x.holder@,
{
    assert(holder_of(record_bytes(x)) =~= x.holder@);
}

/// Runs the staking lifecycle.
pub struct Processor;

impl Processor {
    /// Initialize: binds a new registry to the record store `stake_list_key`
    /// and writes an empty store of capacity `MAX_ITEMS` into `list_data`.
    /// Whatever the buffer held before is discarded. Fails, in this order,
    /// with `SignatureMissing` when the manager did not sign,
    /// `AlreadyInUse` when both keys are one, `NotRentExempt` when either
    /// account is not rent exempt, and `BufferTooSmall` when `list_data`
    /// cannot hold every slot.
    pub fn process_initialize(
        manager: &[u8; 32],
        manager_is_signer: bool,
        stake_store_key: &[u8; 32],
        stake_list_key: &[u8; 32],
        store_rent_exempt: bool,
        list_rent_exempt: bool,
        list_data: Vec<u8>,
    ) -> (r: Result<(StakeStore, RecordStore), NFTStakingError>)
        ensures
            match r {
                Err(e) => initialize_error(
                    manager_is_signer,
                    stake_store_key@,
                    stake_list_key@,
                    store_rent_exempt,
                    list_rent_exempt,
                    list_data@.len(),
                ) == Some(e),
                Ok((registry, list)) => {
                    &&& initialize_error(
                        manager_is_signer,
                        stake_store_key@,
                        stake_list_key@,
                        store_rent_exempt,
                        list_rent_exempt,
                        list_data@.len(),
                    ) is None
                    &&& registry == (StakeStore {
                        is_initialized: true,
                        manager: *manager,
                        staked_count: 0,
                        stake_list: *stake_list_key,
                    })
                    &&& list.wf()
                    &&& list.spec_header() == (StakeListHeader {
                        is_initialized: true,
                        max_items: MAX_ITEMS,
                        count: 0,
                    })
                    &&& list.records() == Seq::<Seq<u8>>::empty()
                    &&& list.bytes().len() == list_data@.len()
                },
            },
    {
        if !manager_is_signer {
            return Err(NFTStakingError::SignatureMissing);
        }
        if keys_equal(stake_store_key, stake_list_key) {
            return Err(NFTStakingError::AlreadyInUse);
        }
        if !store_rent_exempt || !list_rent_exempt {
            return Err(NFTStakingError::NotRentExempt);
        }
        let list = match RecordStore::create(list_data, MAX_ITEMS) {
            Ok(list) => list,
            Err(e) => {
                return Err(e);
            },
        };
        let registry = StakeStore {
            is_initialized: true,
            manager: *manager,
            staked_count: 0,
            stake_list: *stake_list_key,
        };
        Ok((registry, list))
    }

    /// First step of Deposit: checks, in this order, that the depositor
    /// signed (`SignatureMissing`), that `stake_list_key` is the store bound
    /// to the registry (`InvalidStakeList`) and that the store has room
    /// (`CapacityExceeded`), then derives the delegated authority for the
    /// depositor and the token (`InvalidSeeds` when none can be derived).
    pub fn begin_deposit(
        registry: &StakeStore,
        list: &RecordStore,
        stake_list_key: &[u8; 32],
        depositor: &[u8; 32],
        depositor_is_signer: bool,
        mint: &[u8; 32],
        holder: &[u8; 32],
        program_id: &[u8; 32],
    ) -> (r: Result<PendingDeposit, NFTStakingError>)
        requires
            list.wf(),
        ensures
            match deposit_error(*registry, *list, stake_list_key@, depositor_is_signer) {
                Some(e) => r == Err::<PendingDeposit, NFTStakingError>(e),
                None => match authority_of(depositor@, mint@, program_id@) {
                    None => r == Err::<PendingDeposit, NFTStakingError>(
                        NFTStakingError::InvalidSeeds,
                    ),
                    Some((key, _)) => r matches Ok(p) && p.owner == *depositor && p.token_mint
                        == *mint && p.holder == *holder && p.new_authority@ == key,
                },
            },
    {
        if !depositor_is_signer {
            return Err(NFTStakingError::SignatureMissing);
        }
        match registry.check_stake_list(stake_list_key) {
            Ok(()) => {},
            Err(e) => {
                return Err(e);
            },
        }
        if list.len() == list.capacity() {
            return Err(NFTStakingError::CapacityExceeded);
        }
        match derive_authority(depositor, mint, program_id) {
            None => Err(NFTStakingError::InvalidSeeds),
            Some((new_authority, _nonce)) => Ok(
                PendingDeposit { owner: *depositor, token_mint: *mint, holder: *holder, new_authority },
            ),
        }
    }

    /// Second step of Deposit, once the custody service has reassigned the
    /// holding: appends the record `{owner, token, holder, stake_time}` and
    /// sets the registry's advisory count to the new count. Fails with
    /// `CapacityExceeded`, changing nothing, when the store is full.
    pub fn complete_deposit(
        registry: &mut StakeStore,
        list: &mut RecordStore,
        pending: &PendingDeposit,
        stake_time: i64,
    ) -> (r: Result<(), NFTStakingError>)
        requires
            old(list).wf(),
        ensures
            final(list).wf(),
            (old(list).spec_len() == old(list).spec_capacity()) <==> r is Err,
            r is Err ==> r == Err::<(), NFTStakingError>(NFTStakingError::CapacityExceeded)
                && final(list).bytes() == old(list).bytes() && *final(registry) == *old(registry),
            r is Ok ==> {
                &&& final(list).records() == old(list).records().push(
                    record_bytes(
                        StakedNFT {
                            owner: pending.owner,
                            token_mint: pending.token_mint,
                            holder: pending.holder,
                            stake_time,
                        },
                    ),
                )
                &&& final(list).spec_header() == (StakeListHeader {
                    count: (old(list).spec_len() + 1) as u16,
                    ..old(list).spec_header()
                })
                &&& *final(registry) == (StakeStore {
                    staked_count: final(list).spec_header().count,
                    ..*old(registry)
                })
            },
    {
        let record = StakedNFT {
            owner: pending.owner,
            token_mint: pending.token_mint,
            holder: pending.holder,
            stake_time,
        };
        match list.push(&record) {
            Ok(()) => {
                registry.staked_count = list.len();
                Ok(())
            },
            Err(e) => Err(e),
        }
    }

    /// First step of Withdraw: checks, in this order, that the withdrawer
    /// signed (`SignatureMissing`), that `stake_list_key` is the store bound
    /// to the registry (`InvalidStakeList`), that the store is not empty
    /// (`CapacityExceeded`), and that the first record of the withdrawer and
    /// the token exists and is custodied by `holder` (`StakedNFTNotFound`),
    /// then derives the delegated authority (`InvalidSeeds` when none can be
    /// derived). The store is only read.
    pub fn begin_withdraw(
        registry: &StakeStore,
        list: &RecordStore,
        stake_list_key: &[u8; 32],
        withdrawer: &[u8; 32],
        withdrawer_is_signer: bool,
        mint: &[u8; 32],
        holder: &[u8; 32],
        program_id: &[u8; 32],
    ) -> (r: Result<PendingWithdraw, NFTStakingError>)
        requires
            list.wf(),
        ensures
            match withdraw_error(
                *registry,
                *list,
                stake_list_key@,
                withdrawer_is_signer,
                withdrawer@,
                mint@,
                holder@,
            ) {
                Some(e) => r == Err::<PendingWithdraw, NFTStakingError>(e),
                None => match authority_of(withdrawer@, mint@, program_id@) {
                    None => r == Err::<PendingWithdraw, NFTStakingError>(
                        NFTStakingError::InvalidSeeds,
                    ),
                    Some((key, nonce)) => r matches Ok(p) && p.owner == *withdrawer && p.token_mint
                        == *mint && p.holder == *holder && p.authority@ == key && p.nonce == nonce,
                },
            },
    {
        if !withdrawer_is_signer {
            return Err(NFTStakingError::SignatureMissing);
        }
        match registry.check_stake_list(stake_list_key) {
            Ok(()) => {},
            Err(e) => {
                return Err(e);
            },
        }
        if list.len() == 0 {
            return Err(NFTStakingError::CapacityExceeded);
        }
        let found = list.find_by_keys(withdrawer, mint);
        let ghost recs = list.records();
        match found {
            None => {
                assert(!first_match_held_by(recs, withdrawer@, mint@, holder@));
                return Err(NFTStakingError::StakedNFTNotFound);
            },
            Some(x) => {
                proof {
                    lemma_holder_of_record(x);
                }
                if !keys_equal(&x.holder, holder) {
                    assert forall|i: int| is_first_match(recs, withdrawer@, mint@, i) implies holder_of(
                        recs[i],
                    ) != holder@ by {
                        let k = choose|k: int|
                            0 <= k < recs.len() && keys_match(recs[k], withdrawer@, mint@) && (
                            forall|j: int|
                                0 <= j < k ==> !keys_match(#[trigger] recs[j], withdrawer@, mint@))
                                && recs[k] == record_bytes(x);
                        if i < k {
                            assert(!keys_match(recs[i], withdrawer@, mint@));
                        } else if k < i {
                            assert(!keys_match(recs[k], withdrawer@, mint@));
                        }
                    }
                    return Err(NFTStakingError::StakedNFTNotFound);
                }
                assert(first_match_held_by(recs, withdrawer@, mint@, holder@)) by {
                    let k = choose|k: int|
                        0 <= k < recs.len() && keys_match(recs[k], withdrawer@, mint@) && (forall|
                            j: int,
                        |
                            0 <= j < k ==> !keys_match(#[trigger] recs[j], withdrawer@, mint@))
                            && recs[k] == record_bytes(x);
                    assert(is_first_match(recs, withdrawer@, mint@, k));
                }
            },
        }
        match derive_authority(withdrawer, mint, program_id) {
            None => Err(NFTStakingError::InvalidSeeds),
            Some((authority, nonce)) => Ok(
                PendingWithdraw {
                    owner: *withdrawer,
                    token_mint: *mint,
                    holder: *holder,
                    authority,
                    nonce,
                },
            ),
        }
    }

    /// Second step of Withdraw, once the custody service has moved the
    /// balance out and closed the holding: removes every record custodied
    /// by the withdrawn holder and sets the registry's advisory count to
    /// the new count, which it returns.
    pub fn complete_withdraw(registry: &mut StakeStore, list: &mut RecordStore, pending: &PendingWithdraw) -> (new_count: u16)
        requires
            old(list).wf(),
        ensures
            final(list).wf(),
            final(list).records() == old(list).records().filter(
                kept_by(HolderDiffers { holder: pending.holder }),
            ),
            new_count as nat == final(list).spec_len(),
            final(list).spec_header() == (StakeListHeader {
                count: new_count,
                ..old(list).spec_header()
            }),
            *final(registry) == (StakeStore { staked_count: new_count, ..*old(registry) }),
    {
        let new_count = list.retain(&HolderDiffers { holder: pending.holder });
        registry.staked_count = new_count;
        new_count
    }
}

} // verus!
