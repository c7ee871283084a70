use nft_staking::error::NFTStakingError;
use nft_staking::processor::Processor;
use nft_staking::record_store::RecordStore;
use nft_staking::state::{StakeStore, StakedNFT, HEADER_LEN, RECORD_LEN};
use nft_staking::utils::{derive_authority, MAX_ITEMS};
use solana_program::pubkey::Pubkey;

const PROGRAM: [u8; 32] = [3; 32];
const MANAGER: [u8; 32] = [10; 32];
const STORE_KEY: [u8; 32] = [11; 32];
const LIST_KEY: [u8; 32] = [12; 32];
const A: [u8; 32] = [20; 32];
const M1: [u8; 32] = [21; 32];
const M2: [u8; 32] = [22; 32];
const H1: [u8; 32] = [23; 32];
const H2: [u8; 32] = [24; 32];

fn full_size() -> usize {
    HEADER_LEN + RECORD_LEN * MAX_ITEMS as usize
}

fn init() -> (StakeStore, RecordStore) {
    Processor::process_initialize(&MANAGER, true, &STORE_KEY, &LIST_KEY, true, true, vec![0; full_size()]).unwrap()
}

fn deposit(reg: &mut StakeStore, list: &mut RecordStore, mint: [u8; 32], holder: [u8; 32], ts: i64) {
    let p = Processor::begin_deposit(reg, list, &LIST_KEY, &A, true, &mint, &holder, &PROGRAM).unwrap();
    Processor::complete_deposit(reg, list, &p, ts).unwrap();
}

fn pda(owner: &[u8; 32], mint: &[u8; 32]) -> (Pubkey, u8) {
    Pubkey::find_program_address(&[b"transient", owner, mint], &Pubkey::new_from_array(PROGRAM))
}

#[test]
fn initialize_creates_empty_full_capacity_store() {
    let (reg, list) = init();
    let h = list.header();
    assert_eq!(h.max_items, 65535);
    assert_eq!(h.count, 0);
    assert!(h.is_initialized);
    assert_eq!(reg, StakeStore { is_initialized: true, manager: MANAGER, staked_count: 0, stake_list: LIST_KEY });
}

#[test]
fn initialize_errors() {
    let data = || vec![0; full_size()];
    let e = |r: Result<(StakeStore, RecordStore), NFTStakingError>| r.err().unwrap();
    assert_eq!(e(Processor::process_initialize(&MANAGER, false, &STORE_KEY, &LIST_KEY, true, true, data())), NFTStakingError::SignatureMissing);
    assert_eq!(e(Processor::process_initialize(&MANAGER, true, &LIST_KEY, &LIST_KEY, true, true, data())), NFTStakingError::AlreadyInUse);
    assert_eq!(e(Processor::process_initialize(&MANAGER, true, &STORE_KEY, &LIST_KEY, false, true, data())), NFTStakingError::NotRentExempt);
    assert_eq!(e(Processor::process_initialize(&MANAGER, true, &STORE_KEY, &LIST_KEY, true, false, data())), NFTStakingError::NotRentExempt);
    assert_eq!(e(Processor::process_initialize(&MANAGER, true, &STORE_KEY, &LIST_KEY, true, true, vec![0; full_size() - 1])), NFTStakingError::BufferTooSmall);
}

#[test]
fn initialize_discards_existing_records() {
    let (mut reg, mut list) = init();
    deposit(&mut reg, &mut list, M1, H1, 5);
    let bytes = list.into_bytes();
    let (_, list) = Processor::process_initialize(&MANAGER, true, &STORE_KEY, &LIST_KEY, true, true, bytes).unwrap();
    assert_eq!(list.len(), 0);
}

#[test]
fn deposit_reassigns_then_records() {
    let (mut reg, mut list) = init();
    let p = Processor::begin_deposit(&reg, &list, &LIST_KEY, &A, true, &M1, &H1, &PROGRAM).unwrap();
    // nothing is recorded before the custody step
    assert_eq!(list.len(), 0);
    assert_eq!(p.holder, H1);
    assert_eq!(p.owner, A);
    assert_eq!(p.new_authority, pda(&A, &M1).0.to_bytes());
    assert_ne!(p.new_authority, A);
    Processor::complete_deposit(&mut reg, &mut list, &p, 1000).unwrap();
    assert_eq!(list.len(), 1);
    assert_eq!(list.get(0), Some(StakedNFT { owner: A, token_mint: M1, holder: H1, stake_time: 1000 }));
    assert_eq!(reg.staked_count, 1);
}

#[test]
fn second_deposit_with_same_keys_appends() {
    let (mut reg, mut list) = init();
    deposit(&mut reg, &mut list, M1, H1, 1000);
    deposit(&mut reg, &mut list, M1, H2, 2000);
    assert_eq!(list.len(), 2);
    assert_eq!(list.get(1), Some(StakedNFT { owner: A, token_mint: M1, holder: H2, stake_time: 2000 }));
    assert_eq!(list.find_by_keys(&A, &M1), list.get(0));
}

#[test]
fn deposit_errors() {
    let (reg, list) = init();
    let e = |r: Result<_, NFTStakingError>| r.err().unwrap();
    assert_eq!(e(Processor::begin_deposit(&reg, &list, &LIST_KEY, &A, false, &M1, &H1, &PROGRAM)), NFTStakingError::SignatureMissing);
    assert_eq!(e(Processor::begin_deposit(&reg, &list, &STORE_KEY, &A, true, &M1, &H1, &PROGRAM)), NFTStakingError::InvalidStakeList);
    let mut small = RecordStore::create(vec![0; HEADER_LEN + RECORD_LEN], 1).unwrap();
    small.push(&StakedNFT { owner: A, token_mint: M1, holder: H1, stake_time: 0 }).unwrap();
    assert_eq!(e(Processor::begin_deposit(&reg, &small, &LIST_KEY, &A, true, &M2, &H2, &PROGRAM)), NFTStakingError::CapacityExceeded);
}

#[test]
fn complete_deposit_on_full_store_changes_nothing() {
    let (mut reg, _) = init();
    let mut small = RecordStore::create(vec![0; HEADER_LEN + RECORD_LEN], 1).unwrap();
    small.push(&StakedNFT { owner: A, token_mint: M1, holder: H1, stake_time: 0 }).unwrap();
    let before = small.as_bytes().to_vec();
    let p = nft_staking::processor::PendingDeposit { owner: A, token_mint: M2, holder: H2, new_authority: [0; 32] };
    assert_eq!(Processor::complete_deposit(&mut reg, &mut small, &p, 9), Err(NFTStakingError::CapacityExceeded));
    assert_eq!(small.as_bytes().to_vec(), before);
    assert_eq!(reg.staked_count, 0);
}

#[test]
fn withdraw_with_correct_holder() {
    let (mut reg, mut list) = init();
    deposit(&mut reg, &mut list, M1, H1, 1000);
    deposit(&mut reg, &mut list, M2, H2, 1001);
    let p = Processor::begin_withdraw(&reg, &list, &LIST_KEY, &A, true, &M1, &H1, &PROGRAM).unwrap();
    let (key, nonce) = pda(&A, &M1);
    assert_eq!(p.authority, key.to_bytes());
    assert_eq!(p.nonce, nonce);
    assert_eq!(p.holder, H1);
    assert_eq!(p.owner, A);
    assert_eq!(list.len(), 2);
    let n = Processor::complete_withdraw(&mut reg, &mut list, &p);
    assert_eq!(n, 1);
    assert_eq!(list.len(), 1);
    assert_eq!(reg.staked_count, 1);
    assert_eq!(list.get(0), Some(StakedNFT { owner: A, token_mint: M2, holder: H2, stake_time: 1001 }));
    assert_eq!(list.find_by_keys(&A, &M1), None);
}

#[test]
fn withdraw_of_unknown_token_fails_and_changes_nothing() {
    let (mut reg, mut list) = init();
    deposit(&mut reg, &mut list, M1, H1, 1000);
    let before = list.as_bytes().to_vec();
    let r = Processor::begin_withdraw(&reg, &list, &LIST_KEY, &A, true, &M2, &H1, &PROGRAM);
    assert_eq!(r, Err(NFTStakingError::StakedNFTNotFound));
    assert_eq!(list.len(), 1);
    assert_eq!(list.as_bytes().to_vec(), before);
}

#[test]
fn withdraw_errors() {
    let (mut reg, mut list) = init();
    let e = |r: Result<_, NFTStakingError>| r.err().unwrap();
    assert_eq!(e(Processor::begin_withdraw(&reg, &list, &LIST_KEY, &A, true, &M1, &H1, &PROGRAM)), NFTStakingError::CapacityExceeded);
    deposit(&mut reg, &mut list, M1, H1, 1000);
    assert_eq!(e(Processor::begin_withdraw(&reg, &list, &LIST_KEY, &A, false, &M1, &H1, &PROGRAM)), NFTStakingError::SignatureMissing);
    assert_eq!(e(Processor::begin_withdraw(&reg, &list, &STORE_KEY, &A, true, &M1, &H1, &PROGRAM)), NFTStakingError::InvalidStakeList);
    assert_eq!(e(Processor::begin_withdraw(&reg, &list, &LIST_KEY, &A, true, &M1, &H2, &PROGRAM)), NFTStakingError::StakedNFTNotFound);
}

#[test]
fn derive_authority_matches_program_address() {
    let (key, nonce) = pda(&A, &M1);
    assert_eq!(derive_authority(&A, &M1, &PROGRAM), Some((key.to_bytes(), nonce)));
    assert_ne!(derive_authority(&A, &M1, &PROGRAM), derive_authority(&A, &M2, &PROGRAM));
}

#[test]
fn test_deposit_nft() {
    let depositor = [30u8; 32];
    let nft1_mint = [31u8; 32];
    let nft2_mint = [32u8; 32];
    let stake_nft1 = [33u8; 32];
    let stake_nft2 = [34u8; 32];
    let (mut reg, mut list) = init();
    assert_eq!(list.len(), 0);
    for (mint, holder) in [(nft1_mint, stake_nft1), (nft2_mint, stake_nft2)] {
        let p = Processor::begin_deposit(&reg, &list, &LIST_KEY, &depositor, true, &mint, &holder, &PROGRAM).unwrap();
        Processor::complete_deposit(&mut reg, &mut list, &p, 0).unwrap();
    }
    assert_eq!(list.len(), 2);
    assert_eq!(reg.staked_count, 2);
    assert_eq!(list.find_by_keys(&depositor, &nft1_mint).unwrap().holder, stake_nft1);
    assert_eq!(list.find_by_keys(&depositor, &nft2_mint).unwrap().holder, stake_nft2);
}

#[test]
fn withdraw_removes_every_record_of_the_holder() {
    let (mut reg, mut list) = init();
    deposit(&mut reg, &mut list, M1, H1, 1);
    deposit(&mut reg, &mut list, M2, H2, 2);
    deposit(&mut reg, &mut list, M2, H1, 3);
    let p = Processor::begin_withdraw(&reg, &list, &LIST_KEY, &A, true, &M1, &H1, &PROGRAM).unwrap();
    assert_eq!(Processor::complete_withdraw(&mut reg, &mut list, &p), 1);
    assert_eq!(list.get(0), Some(StakedNFT { owner: A, token_mint: M2, holder: H2, stake_time: 2 }));
}
