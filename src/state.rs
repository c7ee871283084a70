//! Account layouts: the registry record, the header of the record store and
//! the staked record itself.
use vstd::prelude::*;
use crate::error::NFTStakingError;
use crate::layout::{le_bytes, le_value, push_bytes, push_le, read_le, lemma_le_round_trip, lemma_le_value_bound, lemma_pow256_8};
use crate::runtime::memcmp;

verus! {

/// Number of bytes in an account identity.
pub const PUBKEY_BYTES: usize = 32;

/// Width of the serialized header: flag, capacity, count.
pub const HEADER_LEN: usize = 5;

/// Width of one serialized record: owner, token, holder, stake time.
pub const RECORD_LEN: usize = 104;

/// Offset of the owner identity inside a record.
pub const OWNER_OFFSET: usize = 0;

/// Offset of the token identity inside a record.
pub const MINT_OFFSET: usize = 32;

/// Offset of the holder identity inside a record.
pub const HOLDER_OFFSET: usize = 64;

/// Offset of the stake time inside a record.
pub const TIME_OFFSET: usize = 96;

/// Serialized width of the registry record.
pub const STAKE_STORE_LEN: usize = 67;

/// The byte of a flag.
pub open spec fn flag_byte(b: bool) -> u8 {
    if b {
        1
    } else {
        0
    }
}

/// Reads the flag byte; only 0 and 1 are flags.
fn read_flag(b: u8) -> (r: Option<bool>)
    ensures
        r == (if b <= 1 {
            Some(b == 1)
        } else {
            None::<bool>
        }),
{
    if b == 0 {
        Some(false)
    } else if b == 1 {
        Some(true)
    } else {
        None
    }
}

/// Copies 32 bytes of `data` starting at `off` into an identity.
pub fn read_key(data: &[u8], off: usize) -> (r: [u8; 32])
    requires
        off + 32 <= data@.len(),
    ensures
        r@ == data@.subrange(off as int, off + 32),
{
    let len: usize = data.len();
    let mut r: [u8; 32] = [0u8; 32];
    let mut i: usize = 0;
    while i < 32
        invariant
            len == data@.len(),
            off + 32 <= len,
            i <= 32,
            forall|j: int| 0 <= j < i ==> r@[j] == data@[off + j],
        decreases 32 - i,
    {
        r[i] = data[off + i];
        i = i + 1;
    }
    assert(r@ =~= data@.subrange(off as int, off + 32));
    r
}

// ---------------------------------------------------------------- header

/// The fixed-width prologue of the record store.
#[derive(Clone, Copy, Debug, PartialEq, Eq, Structural)]
pub struct StakeListHeader {
    pub is_initialized: bool,
    pub max_items: u16,
    pub count: u16,
}

/// The serialized header: `[initialized:1][capacity:2][count:2]`, little endian.
pub open spec fn header_bytes(h: StakeListHeader) -> Seq<u8> {
    seq![flag_byte(h.is_initialized)] + le_bytes(h.max_items as nat, 2) + le_bytes(h.count as nat, 2)
}

/// The header that the first five bytes of `b` hold, if they hold one.
pub open spec fn parse_header(b: Seq<u8>) -> Option<StakeListHeader> {
    if b.len() >= HEADER_LEN && b[0] <= 1 {
        Some(
            StakeListHeader {
                is_initialized: b[0] == 1,
                max_items: le_value(b.subrange(1, 3)) as u16,
                count: le_value(b.subrange(3, 5)) as u16,
            },
        )
    } else {
        None
    }
}

impl StakeListHeader {
    /// Whether the store has been initialized.
    pub fn is_initialized(&self) -> (r: bool)
        ensures
            r == self.is_initialized,
    {
        self.is_initialized
    }

    /// Serializes the header.
    pub fn pack(&self) -> (r: Vec<u8>)
        ensures
            r@ == header_bytes(*self),
    {
        let mut out: Vec<u8> = Vec::new();
        out.push(if self.is_initialized { 1u8 } else { 0u8 });
        push_le(&mut out, self.max_items as u64, 2);
        push_le(&mut out, self.count as u64, 2);
        assert(out@ =~= header_bytes(*self));
        out
    }

    /// Parses the header from the start of `data`; fails with
    /// `ExpectedAccount` when `data` is shorter than a header or its flag
    /// byte is neither 0 nor 1.
    pub fn unpack(data: &[u8]) -> (r: Result<StakeListHeader, NFTStakingError>)
        ensures
            r == (match parse_header(data@) {
                Some(h) => Ok::<StakeListHeader, NFTStakingError>(h),
                None => Err(NFTStakingError::ExpectedAccount),
            }),
    {
        if data.len() < HEADER_LEN {
            return Err(NFTStakingError::ExpectedAccount);
        }
        let flag = read_flag(data[0]);
        match flag {
            None => Err(NFTStakingError::ExpectedAccount),
            Some(is_initialized) => {
                let max_items = read_le(data, 1, 2);
                let count = read_le(data, 3, 2);
                proof {
                    lemma_le_value_bound(data@.subrange(1, 3));
                    lemma_le_value_bound(data@.subrange(3, 5));
                    lemma_pow256_8();
                }
                Ok(StakeListHeader { is_initialized, max_items: max_items as u16, count: count as u16 })
            },
        }
    }
}

/// Serializing a header and parsing the bytes back gives the same header.
pub proof fn lemma_header_round_trip(h: StakeListHeader)
    ensures
        parse_header(header_bytes(h)) == Some(h),
{
    let b = header_bytes(h);
    lemma_pow256_8();
    lemma_le_round_trip(h.max_items as nat, 2);
    lemma_le_round_trip(h.count as nat, 2);
    assert(b.subrange(1, 3) =~= le_bytes(h.max_items as nat, 2));
    assert(b.subrange(3, 5) =~= le_bytes(h.count as nat, 2));
}

// ---------------------------------------------------------------- record

/// One staked token: who staked it, which token, the escrow holding that
/// custodies it and when staking began.
#[derive(Clone, Copy, Debug, PartialEq, Eq)]
pub struct StakedNFT {
    pub owner: [u8; 32],
    pub token_mint: [u8; 32],
    pub holder: [u8; 32],
    pub stake_time: i64,
}

/// The two's-complement bits of a stake time, as an unsigned value.
pub open spec fn time_bits(t: i64) -> nat {
    if t >= 0 {
        t as nat
    } else {
        (t + 0x1_0000_0000_0000_0000) as nat
    }
}

/// The serialized record:
/// `[owner:32][token:32][holder:32][stake_time:8]`, little endian.
pub open spec fn record_bytes(r: StakedNFT) -> Seq<u8> {
    r.owner@ + r.token_mint@ + r.holder@ + le_bytes(time_bits(r.stake_time), 8)
}

/// The owner identity of serialized record bytes.
pub open spec fn owner_of(b: Seq<u8>) -> Seq<u8> {
    b.subrange(OWNER_OFFSET as int, OWNER_OFFSET + PUBKEY_BYTES)
}

/// The token identity of serialized record bytes.
pub open spec fn mint_of(b: Seq<u8>) -> Seq<u8> {
    b.subrange(MINT_OFFSET as int, MINT_OFFSET + PUBKEY_BYTES)
}

/// The holder identity of serialized record bytes.
pub open spec fn holder_of(b: Seq<u8>) -> Seq<u8> {
    b.subrange(HOLDER_OFFSET as int, HOLDER_OFFSET + PUBKEY_BYTES)
}

/// Whether serialized record bytes carry the given owner and token.
pub open spec fn keys_match(b: Seq<u8>, owner: Seq<u8>, mint: Seq<u8>) -> bool {
    owner_of(b) == owner && mint_of(b) == mint
}

/// Converts a stake time to its two's-complement bits.
fn time_to_bits(t: i64) -> (r: u64)
    ensures
        r as nat == time_bits(t),
{
    if t >= 0 {
        t as u64
    } else {
        ((t + 0x7fff_ffff_ffff_ffff + 1) as u64) + 0x8000_0000_0000_0000
    }
}

/// Converts two's-complement bits back to a stake time.
fn bits_to_time(u: u64) -> (r: i64)
    ensures
        time_bits(r) == u as nat,
{
    if u < 0x8000_0000_0000_0000 {
        u as i64
    } else {
        ((u - 0x8000_0000_0000_0000) as i64) - 0x7fff_ffff_ffff_ffff - 1
    }
}

impl StakedNFT {
    /// Serializes the record.
    pub fn pack(&self) -> (r: Vec<u8>)
        ensures
            r@ == record_bytes(*self),
            r@.len() == RECORD_LEN,
    {
        proof {
            lemma_pow256_8();
            lemma_le_round_trip(time_bits(self.stake_time), 8);
        }
        let mut out: Vec<u8> = Vec::new();
        push_bytes(&mut out, self.owner.as_slice());
        push_bytes(&mut out, self.token_mint.as_slice());
        push_bytes(&mut out, self.holder.as_slice());
        push_le(&mut out, time_to_bits(self.stake_time), 8);
        out
    }

    /// Parses a record from exactly `RECORD_LEN` bytes; fails with
    /// `ExpectedAccount` on any other length.
    pub fn unpack_from_slice(src: &[u8]) -> (r: Result<StakedNFT, NFTStakingError>)
        ensures
            src@.len() == RECORD_LEN <==> r is Ok,
            r is Err ==> r == Err::<StakedNFT, NFTStakingError>(NFTStakingError::ExpectedAccount),
            r matches Ok(x) ==> record_bytes(x) == src@,
    {
        if src.len() != RECORD_LEN {
            return Err(NFTStakingError::ExpectedAccount);
        }
        let owner = read_key(src, OWNER_OFFSET);
        let token_mint = read_key(src, MINT_OFFSET);
        let holder = read_key(src, HOLDER_OFFSET);
        let bits = read_le(src, TIME_OFFSET, 8);
        let stake_time = bits_to_time(bits);
        let r = StakedNFT { owner, token_mint, holder, stake_time };
        proof {
            let t = src@.subrange(96, 104);
            lemma_le_value_bound(t);
            lemma_pow256_8();
            lemma_le_bytes_of_value(t);
            assert(record_bytes(r) =~= src@);
        }
        Ok(r)
    }

    /// Compares the owner and token identities of serialized record bytes
    /// against the given ones, without decoding the rest of the record.
    pub fn memcmp_pubkey(data: &[u8], owner_address_bytes: &[u8], mint_address_bytes: &[u8]) -> (r: bool)
        requires
            data@.len() >= MINT_OFFSET + PUBKEY_BYTES,
            owner_address_bytes@.len() == PUBKEY_BYTES,
            mint_address_bytes@.len() == PUBKEY_BYTES,
        ensures
            r == keys_match(data@, owner_address_bytes@, mint_address_bytes@),
    {
        let owner_part = vstd::slice::slice_subrange(data, OWNER_OFFSET, OWNER_OFFSET + PUBKEY_BYTES);
        let mint_part = vstd::slice::slice_subrange(data, MINT_OFFSET, MINT_OFFSET + PUBKEY_BYTES);
        assert(owner_address_bytes@.subrange(0, 32) =~= owner_address_bytes@);
        assert(mint_address_bytes@.subrange(0, 32) =~= mint_address_bytes@);
        assert(owner_part@.subrange(0, 32) =~= owner_part@);
        assert(mint_part@.subrange(0, 32) =~= mint_part@);
        memcmp(owner_part, owner_address_bytes, PUBKEY_BYTES) == 0 && memcmp(
            mint_part,
            mint_address_bytes,
            PUBKEY_BYTES,
        ) == 0
    }

    /// Whether the holder identity of serialized record bytes differs from
    /// the given one: the record stays when that holder is withdrawn.
    pub fn is_not_withdrawn(data: &[u8], holder_address_bytes: &[u8]) -> (r: bool)
        requires
            data@.len() >= HOLDER_OFFSET + PUBKEY_BYTES,
            holder_address_bytes@.len() == PUBKEY_BYTES,
        ensures
            r == (holder_of(data@) != holder_address_bytes@),
    {
        let holder_part = vstd::slice::slice_subrange(data, HOLDER_OFFSET, HOLDER_OFFSET + PUBKEY_BYTES);
        assert(holder_address_bytes@.subrange(0, 32) =~= holder_address_bytes@);
        assert(holder_part@.subrange(0, 32) =~= holder_part@);
        memcmp(holder_part, holder_address_bytes, PUBKEY_BYTES) != 0
    }
}

/// Re-encoding the value of eight bytes gives the same bytes.
pub proof fn lemma_le_bytes_of_value(b: Seq<u8>)
    ensures
        le_bytes(le_value(b), b.len()) == b,
    decreases b.len(),
{
    if b.len() > 0 {
        lemma_le_bytes_of_value(b.drop_first());
        let r = le_value(b.drop_first());
        let v = b[0] as nat + 256 * r;
        assert(v % 256 == b[0] as nat && v / 256 == r) by (nonlinear_arith)
            requires
                v == b[0] as nat + 256 * r,
                b[0] < 256,
        ;
        assert(le_bytes(v, b.len()) =~= b);
    } else {
        assert(le_bytes(le_value(b), 0) =~= b);
    }
}

/// Serializing a record and parsing the bytes back gives the same record:
/// the only record whose bytes equal those of `r` is `r`.
pub proof fn lemma_record_round_trip(r: StakedNFT, s: StakedNFT)
    requires
        record_bytes(s) == record_bytes(r),
    ensures
        s == r,
{
    let b = record_bytes(r);
    lemma_pow256_8();
    lemma_le_round_trip(time_bits(r.stake_time), 8);
    lemma_le_round_trip(time_bits(s.stake_time), 8);
    assert(b.subrange(0, 32) =~= r.owner@);
    assert(record_bytes(s).subrange(0, 32) =~= s.owner@);
    assert(b.subrange(32, 64) =~= r.token_mint@);
    assert(record_bytes(s).subrange(32, 64) =~= s.token_mint@);
    assert(b.subrange(64, 96) =~= r.holder@);
    assert(record_bytes(s).subrange(64, 96) =~= s.holder@);
    assert(b.subrange(96, 104) =~= le_bytes(time_bits(r.stake_time), 8));
    assert(record_bytes(s).subrange(96, 104) =~= le_bytes(time_bits(s.stake_time), 8));
    assert(r.owner =~= s.owner);
    assert(r.token_mint =~= s.token_mint);
    assert(r.holder =~= s.holder);
}

// ---------------------------------------------------------------- registry

/// Binds a manager to exactly one record store.
#[derive(Clone, Copy, Debug, PartialEq, Eq)]
pub struct StakeStore {
    pub is_initialized: bool,
    pub manager: [u8; 32],
    pub staked_count: u16,
    pub stake_list: [u8; 32],
}

/// Whether two identities are equal.
pub fn keys_equal(a: &[u8; 32], b: &[u8; 32]) -> (r: bool)
    ensures
        r == (a@ == b@),
{
    let mut i: usize = 0;
    while i < 32
        invariant
            i <= 32,
            forall|j: int| 0 <= j < i ==> a@[j] == b@[j],
        decreases 32 - i,
    {
        if a[i] != b[i] {
            return false;
        }
        i = i + 1;
    }
    assert(a@ =~= b@);
    true
}

/// The serialized registry:
/// `[initialized:1][manager:32][staked_count:2][stake_list:32]`.
pub open spec fn stake_store_bytes(s: StakeStore) -> Seq<u8> {
    seq![flag_byte(s.is_initialized)] + s.manager@ + le_bytes(s.staked_count as nat, 2) + s.stake_list@
}

impl StakeStore {
    /// Whether the registry has been initialized.
    pub fn is_initialized(&self) -> (r: bool)
        ensures
            r == self.is_initialized,
    {
        self.is_initialized
    }

    /// Succeeds exactly when `stake_list_key` is the record store bound to
    /// this registry; fails with `InvalidStakeList` otherwise.
    pub fn check_stake_list(&self, stake_list_key: &[u8; 32]) -> (r: Result<(), NFTStakingError>)
        ensures
            r == (if stake_list_key@ == self.stake_list@ {
                Ok::<(), NFTStakingError>(())
            } else {
                Err(NFTStakingError::InvalidStakeList)
            }),
    {
        if keys_equal(stake_list_key, &self.stake_list) {
            Ok(())
        } else {
            Err(NFTStakingError::InvalidStakeList)
        }
    }

    /// Serializes the registry.
    pub fn pack(&self) -> (r: Vec<u8>)
        ensures
            r@ == stake_store_bytes(*self),
            r@.len() == STAKE_STORE_LEN,
    {
        proof {
            lemma_pow256_8();
            lemma_le_round_trip(self.staked_count as nat, 2);
        }
        let mut out: Vec<u8> = Vec::new();
        out.push(if self.is_initialized { 1u8 } else { 0u8 });
        push_bytes(&mut out, self.manager.as_slice());
        push_le(&mut out, self.staked_count as u64, 2);
        push_bytes(&mut out, self.stake_list.as_slice());
        assert(out@ =~= stake_store_bytes(*self));
        out
    }

    /// Parses the registry from the start of `data`, ignoring what follows;
    /// fails with `ExpectedAccount` when `data` is too short or its flag
    /// byte is neither 0 nor 1.
    pub fn unpack(data: &[u8]) -> (r: Result<StakeStore, NFTStakingError>)
        ensures
            (data@.len() >= STAKE_STORE_LEN && data@[0] <= 1) <==> r is Ok,
            r is Err ==> r == Err::<StakeStore, NFTStakingError>(NFTStakingError::ExpectedAccount),
            r matches Ok(s) ==> stake_store_bytes(s) == data@.subrange(0, STAKE_STORE_LEN as int),
    {
        if data.len() < STAKE_STORE_LEN {
            return Err(NFTStakingError::ExpectedAccount);
        }
        let is_initialized = match read_flag(data[0]) {
            Some(b) => b,
            None => {
                return Err(NFTStakingError::ExpectedAccount);
            },
        };
        let manager = read_key(data, 1);
        let count = read_le(data, 33, 2);
        let stake_list = read_key(data, 35);
        proof {
            lemma_le_value_bound(data@.subrange(33, 35));
            lemma_pow256_8();
            lemma_le_bytes_of_value(data@.subrange(33, 35));
        }
        let s = StakeStore { is_initialized, manager, staked_count: count as u16, stake_list };
        assert(stake_store_bytes(s) =~= data@.subrange(0, STAKE_STORE_LEN as int));
        Ok(s)
    }
}

// ---------------------------------------------------------------- structured list

/// The record store in structured form: its header and one record per slot.
#[derive(Clone, Debug)]
pub struct StakeList {
    pub header: StakeListHeader,
    pub items: Vec<StakedNFT>,
}

impl StakeList {
    /// An uninitialized list of capacity `max_items`, every slot zeroed.
    pub fn new(max_items: u16) -> (r: StakeList)
        ensures
            r.header == (StakeListHeader { is_initialized: false, max_items, count: 0 }),
            r.items@.len() == max_items,
            forall|i: int|
                0 <= i < max_items ==> record_bytes(#[trigger] r.items@[i]) == Seq::new(
                    RECORD_LEN as nat,
                    |j: int| 0u8,
                ),
    {
        let zero = StakedNFT { owner: [0u8; 32], token_mint: [0u8; 32], holder: [0u8; 32], stake_time: 0 };
        proof {
            lemma_pow256_8();
            lemma_le_round_trip(0, 8);
            lemma_le_bytes_zero(8);
            assert(record_bytes(zero) =~= Seq::new(RECORD_LEN as nat, |j: int| 0u8));
        }
        let mut items: Vec<StakedNFT> = Vec::new();
        let mut i: u16 = 0;
        while i < max_items
            invariant
                i <= max_items,
                items@.len() == i,
                forall|k: int| 0 <= k < i ==> #[trigger] items@[k] == zero,
            decreases max_items - i,
        {
            items.push(zero);
            i = i + 1;
        }
        StakeList { header: StakeListHeader { is_initialized: false, max_items, count: 0 }, items }
    }
}

/// The encoding of zero is all zero bytes.
pub proof fn lemma_le_bytes_zero(n: nat)
    ensures
        le_bytes(0, n) == Seq::new(n, |j: int| 0u8),
    decreases n,
{
    if n > 0 {
        lemma_le_bytes_zero((n - 1) as nat);
        assert(le_bytes(0, n) =~= Seq::new(n, |j: int| 0u8));
    } else {
        assert(le_bytes(0, n) =~= Seq::new(n, |j: int| 0u8));
    }
}

} // verus!
