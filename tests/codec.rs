use nft_staking::error::NFTStakingError;
use nft_staking::instruction::{DepositNFTData, NFTStakingInstruction};
use nft_staking::state::{StakeList, StakeListHeader, StakeStore, StakedNFT, RECORD_LEN};

#[test]
fn header_round_trip() {
    for h in [
        StakeListHeader { is_initialized: true, max_items: 65535, count: 0 },
        StakeListHeader { is_initialized: false, max_items: 258, count: 257 },
    ] {
        let b = h.pack();
        assert_eq!(b.len(), 5);
        assert_eq!(StakeListHeader::unpack(&b), Ok(h));
    }
}

#[test]
fn header_layout_is_little_endian() {
    let h = StakeListHeader { is_initialized: true, max_items: 0x1234, count: 0x0102 };
    assert_eq!(h.pack(), vec![1, 0x34, 0x12, 0x02, 0x01]);
    assert_eq!(StakeListHeader::unpack(&[1, 2, 3]), Err(NFTStakingError::ExpectedAccount));
    assert_eq!(StakeListHeader::unpack(&[7, 0, 0, 0, 0]), Err(NFTStakingError::ExpectedAccount));
}

#[test]
fn record_round_trip() {
    for t in [0i64, 1000, -1, i64::MIN, i64::MAX] {
        let r = StakedNFT { owner: [1; 32], token_mint: [2; 32], holder: [3; 32], stake_time: t };
        let b = r.pack();
        assert_eq!(b.len(), RECORD_LEN);
        assert_eq!(StakedNFT::unpack_from_slice(&b), Ok(r));
    }
}

#[test]
fn record_layout() {
    let r = StakedNFT { owner: [1; 32], token_mint: [2; 32], holder: [3; 32], stake_time: -2 };
    let b = r.pack();
    assert!(b[0..32].iter().all(|x| *x == 1));
    assert!(b[32..64].iter().all(|x| *x == 2));
    assert!(b[64..96].iter().all(|x| *x == 3));
    assert_eq!(&b[96..104], &(-2i64).to_le_bytes());
    assert_eq!(StakedNFT::unpack_from_slice(&b[..103]), Err(NFTStakingError::ExpectedAccount));
}

#[test]
fn memcmp_pubkey_compares_owner_and_mint() {
    let r = StakedNFT { owner: [1; 32], token_mint: [2; 32], holder: [3; 32], stake_time: 5 };
    let b = r.pack();
    assert!(StakedNFT::memcmp_pubkey(&b, &[1; 32], &[2; 32]));
    assert!(!StakedNFT::memcmp_pubkey(&b, &[1; 32], &[3; 32]));
    assert!(!StakedNFT::memcmp_pubkey(&b, &[2; 32], &[2; 32]));
    assert!(StakedNFT::is_not_withdrawn(&b, &[4; 32]));
    assert!(!StakedNFT::is_not_withdrawn(&b, &[3; 32]));
}

#[test]
fn stake_store_round_trip_and_check() {
    let s = StakeStore { is_initialized: true, manager: [5; 32], staked_count: 0x0201, stake_list: [6; 32] };
    let b = s.pack();
    assert_eq!(b.len(), 67);
    assert_eq!(&b[33..35], &[1, 2]);
    assert_eq!(StakeStore::unpack(&b), Ok(s));
    assert_eq!(s.check_stake_list(&[6; 32]), Ok(()));
    assert_eq!(s.check_stake_list(&[7; 32]), Err(NFTStakingError::InvalidStakeList));
    assert!(s.is_initialized());
}

#[test]
fn stake_list_new_is_zeroed() {
    let l = StakeList::new(3);
    assert_eq!(l.header, StakeListHeader { is_initialized: false, max_items: 3, count: 0 });
    assert_eq!(l.items.len(), 3);
    assert!(l.items.iter().all(|r| r.pack().iter().all(|b| *b == 0)));
}

#[test]
fn instruction_unpack() {
    assert_eq!(NFTStakingInstruction::unpack(&[0]), Ok(NFTStakingInstruction::Initialize));
    assert_eq!(
        NFTStakingInstruction::unpack(&[1, 1, 0, 0, 0, 0, 0, 0, 0]),
        Ok(NFTStakingInstruction::DepositNFT(DepositNFTData { amount: 1 }))
    );
    assert_eq!(NFTStakingInstruction::unpack(&[2]), Ok(NFTStakingInstruction::WithdrawNFT));
    assert_eq!(NFTStakingInstruction::unpack(&[]), Err(NFTStakingError::InvalidInstruction));
    assert_eq!(NFTStakingInstruction::unpack(&[3]), Err(NFTStakingError::InvalidInstruction));
    assert_eq!(NFTStakingInstruction::unpack(&[1, 1, 0, 0]), Err(NFTStakingError::InvalidInstruction));
}

#[test]
fn instruction_round_trip() {
    for i in [
        NFTStakingInstruction::Initialize,
        NFTStakingInstruction::DepositNFT(DepositNFTData { amount: 0x0102030405060708 }),
        NFTStakingInstruction::WithdrawNFT,
    ] {
        assert_eq!(NFTStakingInstruction::unpack(&i.pack()), Ok(i));
    }
    assert_eq!(
        NFTStakingInstruction::DepositNFT(DepositNFTData { amount: 0x0102030405060708 }).pack(),
        vec![1, 8, 7, 6, 5, 4, 3, 2, 1]
    );
    assert_eq!(NFTStakingInstruction::WithdrawNFT.pack(), vec![2]);
}

#[test]
fn error_codes() {
    assert_eq!(NFTStakingError::AlreadyInUse.code(), 0);
    assert_eq!(NFTStakingError::StakedNFTNotFound.code(), 7);
    assert_eq!(NFTStakingError::InvalidSeeds.code(), 11);
}
