//! The fixed-capacity record store: a header followed by fixed-width record
//! slots, all inside one buffer that never grows.
use vstd::prelude::*;
use crate::error::NFTStakingError;
use crate::layout::{le_bytes, push_bytes, push_le, write_bytes, lemma_le_round_trip, lemma_pow256_8};
use crate::state::{
    HEADER_LEN, RECORD_LEN, StakeListHeader, StakedNFT, header_bytes, holder_of,
    keys_match, parse_header, record_bytes, lemma_header_round_trip,
};

verus! {

/// Byte offset of slot `i` in the buffer.
pub open spec fn slot_start(i: int) -> int {
    HEADER_LEN + RECORD_LEN * i
}

/// The bytes of slot `i` of buffer `d`.
pub open spec fn slot_of(d: Seq<u8>, i: int) -> Seq<u8> {
    d.subrange(slot_start(i), slot_start(i) + RECORD_LEN)
}

/// The header a well-formed buffer holds.
pub open spec fn header_of(d: Seq<u8>) -> StakeListHeader {
    parse_header(d)->Some_0
}

/// A buffer holds a valid header, a count within the capacity, and room
/// for every slot of the capacity.
pub open spec fn buffer_wf(d: Seq<u8>) -> bool {
    &&& parse_header(d) is Some
    &&& header_of(d).count <= header_of(d).max_items
    &&& d.len() >= slot_start(header_of(d).max_items as int)
}

/// The live records of buffer `d`: slots `[0, count)`, in slot order.
pub open spec fn records_of(d: Seq<u8>) -> Seq<Seq<u8>> {
    Seq::new(header_of(d).count as nat, |i: int| slot_of(d, i))
}

/// A rule that decides, from the bytes of a record alone, whether the
/// record stays in the store.
pub trait RecordFilter {
    /// Whether a record with the bytes `slot` stays.
    spec fn spec_keep(&self, slot: Seq<u8>) -> bool;

    /// Decides whether the record in `slot` stays.
    fn keep(&self, slot: &[u8]) -> (r: bool)
        requires
            slot@.len() == RECORD_LEN,
        ensures
            r == self.spec_keep(slot@),
    ;
}

/// The predicate of a filter, on record bytes.
pub open spec fn kept_by<P: RecordFilter>(p: P) -> spec_fn(Seq<u8>) -> bool {
    |b: Seq<u8>| p.spec_keep(b)
}

/// Keeps the records whose holder is not `holder`: the filter of a
/// withdrawal.
#[derive(Clone, Copy, Debug, PartialEq, Eq)]
pub struct HolderDiffers {
    pub holder: [u8; 32],
}

impl RecordFilter for HolderDiffers {
    open spec fn spec_keep(&self, slot: Seq<u8>) -> bool {
        holder_of(slot) != self.holder@
    }

    fn keep(&self, slot: &[u8]) -> (r: bool) {
        StakedNFT::is_not_withdrawn(slot, self.holder.as_slice())
    }
}

/// Records in place over one buffer owned by the store.
pub struct RecordStore {
    data: Vec<u8>,
}

impl RecordStore {
    /// The whole buffer, header included.
    pub closed spec fn bytes(&self) -> Seq<u8> {
        self.data@
    }

    pub open spec fn wf(&self) -> bool {
        buffer_wf(self.bytes())
    }

    pub open spec fn spec_header(&self) -> StakeListHeader {
        header_of(self.bytes())
    }

    pub open spec fn spec_len(&self) -> nat {
        self.spec_header().count as nat
    }

    pub open spec fn spec_capacity(&self) -> nat {
        self.spec_header().max_items as nat
    }

    pub open spec fn records(&self) -> Seq<Seq<u8>> {
        records_of(self.bytes())
    }

    /// Takes `data` as a new store of the given capacity: writes an
    /// initialized header with no records. Fails with `BufferTooSmall`
    /// exactly when `data` cannot hold the header and `max_items` slots.
    pub fn create(data: Vec<u8>, max_items: u16) -> (r: Result<RecordStore, NFTStakingError>)
        ensures
            (data@.len() >= slot_start(max_items as int)) <==> r is Ok,
            r is Err ==> r == Err::<RecordStore, NFTStakingError>(NFTStakingError::BufferTooSmall),
            r matches Ok(s) ==> {
                &&& s.wf()
                &&& s.spec_header() == StakeListHeader {
                    is_initialized: true,
                    max_items,
                    count: 0,
                }
                &&& s.records() == Seq::<Seq<u8>>::empty()
                &&& s.bytes().len() == data@.len()
                &&& s.bytes().subrange(HEADER_LEN as int, data@.len() as int) == data@.subrange(
                    HEADER_LEN as int,
                    data@.len() as int,
                )
            },
    {
        let mut data = data;
        if data.len() < HEADER_LEN + RECORD_LEN * (max_items as usize) {
            return Err(NFTStakingError::BufferTooSmall);
        }
        let h = StakeListHeader { is_initialized: true, max_items, count: 0 };
        let hb = h.pack();
        proof {
            lemma_pow256_8();
            lemma_le_round_trip(max_items as nat, 2);
            lemma_le_round_trip(0, 2);
        }
        let ghost d0 = data@;
        write_bytes(&mut data, 0, hb.as_slice());
        proof {
            lemma_header_round_trip(h);
            assert(data@.subrange(0, 5) =~= header_bytes(h));
            assert(parse_header(data@) == parse_header(data@.subrange(0, 5))) by {
                assert(data@.subrange(0, 5).subrange(1, 3) =~= data@.subrange(1, 3));
                assert(data@.subrange(0, 5).subrange(3, 5) =~= data@.subrange(3, 5));
            }
            assert(data@.subrange(5, data@.len() as int) =~= d0.subrange(5, d0.len() as int));
        }
        let s = RecordStore { data };
        assert(s.records() =~= Seq::<Seq<u8>>::empty());
        Ok(s)
    }

    /// Takes `data` as an existing store. Fails with `ExpectedAccount` when
    /// it holds no valid header or the count exceeds the capacity, and with
    /// `BufferTooSmall` when it cannot hold every slot of the capacity.
    pub fn open(data: Vec<u8>) -> (r: Result<RecordStore, NFTStakingError>)
        ensures
            r is Ok <==> buffer_wf(data@),
            r matches Ok(s) ==> s.bytes() == data@,
            r matches Err(e) ==> (if parse_header(data@) is None || header_of(data@).count
                > header_of(data@).max_items {
                e == NFTStakingError::ExpectedAccount
            } else {
                e == NFTStakingError::BufferTooSmall
            }),
    {
        let h = match StakeListHeader::unpack(data.as_slice()) {
            Ok(h) => h,
            Err(e) => {
                return Err(e);
            },
        };
        if h.count > h.max_items {
            return Err(NFTStakingError::ExpectedAccount);
        }
        if data.len() < HEADER_LEN + RECORD_LEN * (h.max_items as usize) {
            return Err(NFTStakingError::BufferTooSmall);
        }
        Ok(RecordStore { data })
    }

    /// Gives the buffer back.
    pub fn into_bytes(self) -> (r: Vec<u8>)
        ensures
            r@ == self.bytes(),
    {
        self.data
    }

    /// The buffer, header included.
    pub fn as_bytes(&self) -> (r: &[u8])
        ensures
            r@ == self.bytes(),
    {
        self.data.as_slice()
    }

    /// The header of the store.
    pub fn header(&self) -> (r: StakeListHeader)
        requires
            self.wf(),
        ensures
            r == self.spec_header(),
    {
        match StakeListHeader::unpack(self.data.as_slice()) {
            Ok(h) => h,
            Err(_) => StakeListHeader { is_initialized: false, max_items: 0, count: 0 },
        }
    }

    /// The number of live records.
    pub fn len(&self) -> (r: u16)
        requires
            self.wf(),
        ensures
            r as nat == self.spec_len(),
            r as nat == self.records().len(),
    {
        self.header().count
    }

    /// Whether the store holds no record.
    pub fn is_empty(&self) -> (r: bool)
        requires
            self.wf(),
        ensures
            r == (self.spec_len() == 0),
    {
        self.len() == 0
    }

    /// The largest number of records the store can hold.
    pub fn capacity(&self) -> (r: u16)
        requires
            self.wf(),
        ensures
            r as nat == self.spec_capacity(),
    {
        self.header().max_items
    }

    /// Overwrites the count in the header.
    fn set_count(&mut self, count: u16)
        requires
            old(self).wf(),
            count <= old(self).spec_capacity(),
        ensures
            final(self).wf(),
            final(self).spec_header() == (StakeListHeader { count, ..old(self).spec_header() }),
            final(self).bytes().len() == old(self).bytes().len(),
            forall|j: int|
                HEADER_LEN <= j < old(self).bytes().len() ==> #[trigger] final(self).bytes()[j]
                    == old(self).bytes()[j],
    {
        let ghost d0 = self.data@;
        let mut cb: Vec<u8> = Vec::new();
        push_le(&mut cb, count as u64, 2);
        proof {
            lemma_pow256_8();
            lemma_le_round_trip(count as nat, 2);
        }
        write_bytes(&mut self.data, 3, cb.as_slice());
        proof {
            let d1 = self.data@;
            assert(d1.subrange(1, 3) =~= d0.subrange(1, 3));
            assert(d1.subrange(3, 5) =~= le_bytes(count as nat, 2));
            assert(d1[0] == d0[0]);
        }
    }

    /// Overwrites slot `i` with `src`.
    fn write_slot(&mut self, i: u16, src: &[u8])
        requires
            old(self).wf(),
            i < old(self).spec_capacity(),
            src@.len() == RECORD_LEN,
        ensures
            final(self).wf(),
            final(self).spec_header() == old(self).spec_header(),
            final(self).bytes().len() == old(self).bytes().len(),
            slot_of(final(self).bytes(), i as int) == src@,
            forall|j: int|
                0 <= j < old(self).bytes().len() && !(slot_start(i as int) <= j < slot_start(
                    i as int,
                ) + RECORD_LEN) ==> #[trigger] final(self).bytes()[j] == old(self).bytes()[j],
    {
        let ghost d0 = self.data@;
        let off = HEADER_LEN + RECORD_LEN * (i as usize);
        write_bytes(&mut self.data, off, src);
        proof {
            let d1 = self.data@;
            assert(d1.subrange(1, 3) =~= d0.subrange(1, 3));
            assert(d1.subrange(3, 5) =~= d0.subrange(3, 5));
            assert(slot_of(d1, i as int) =~= src@);
        }
    }

    /// Appends `record` in slot `count` and increments the count. Fails
    /// with `CapacityExceeded`, changing nothing, exactly when the store is
    /// full. Nothing past slot `count` is written.
    pub fn push(&mut self, record: &StakedNFT) -> (r: Result<(), NFTStakingError>)
        requires
            old(self).wf(),
        ensures
            final(self).wf(),
            (old(self).spec_len() == old(self).spec_capacity()) <==> r is Err,
            r is Err ==> r == Err::<(), NFTStakingError>(NFTStakingError::CapacityExceeded)
                && final(self).bytes() == old(self).bytes(),
            r is Ok ==> {
                &&& final(self).records() == old(self).records().push(record_bytes(*record))
                &&& final(self).spec_header() == (StakeListHeader {
                    count: (old(self).spec_header().count + 1) as u16,
                    ..old(self).spec_header()
                })
                &&& final(self).bytes().len() == old(self).bytes().len()
                &&& forall|j: int|
                    HEADER_LEN <= j < old(self).bytes().len() && !(slot_start(
                        old(self).spec_len() as int,
                    ) <= j < slot_start(old(self).spec_len() as int) + RECORD_LEN)
                        ==> #[trigger] final(self).bytes()[j] == old(self).bytes()[j]
            },
    {
        let h = self.header();
        if h.count == h.max_items {
            return Err(NFTStakingError::CapacityExceeded);
        }
        let ghost old_records = self.records();
        let bytes = record.pack();
        self.write_slot(h.count, bytes.as_slice());
        self.set_count(h.count + 1);
        proof {
            let d1 = self.bytes();
            assert forall|k: int| 0 <= k < h.count implies slot_of(d1, k) == old_records[k] by {
                assert(slot_of(d1, k) =~= old_records[k]);
            }
            assert(slot_of(d1, h.count as int) =~= record_bytes(*record));
            assert(self.records() =~= old_records.push(record_bytes(*record)));
        }
        Ok(())
    }

    /// The record in slot `i`, if `i` is below the count.
    pub fn get(&self, i: u16) -> (r: Option<StakedNFT>)
        requires
            self.wf(),
        ensures
            (i < self.spec_len()) <==> r is Some,
            r matches Some(x) ==> record_bytes(x) == self.records()[i as int],
    {
        if i >= self.len() {
            return None;
        }
        let off = HEADER_LEN + RECORD_LEN * (i as usize);
        let slot = vstd::slice::slice_subrange(self.data.as_slice(), off, off + RECORD_LEN);
        match StakedNFT::unpack_from_slice(slot) {
            Ok(x) => Some(x),
            Err(_) => None,
        }
    }

    /// The first live record, in slot order, whose owner and token
    /// identities equal `owner` and `mint`; `None` when no live record has
    /// them. Only the two identities of each slot are compared.
    pub fn find_by_keys(&self, owner: &[u8; 32], mint: &[u8; 32]) -> (r: Option<StakedNFT>)
        requires
            self.wf(),
        ensures
            r is None <==> forall|i: int|
                0 <= i < self.records().len() ==> !keys_match(
                    #[trigger] self.records()[i],
                    owner@,
                    mint@,
                ),
            r matches Some(x) ==> exists|i: int|
                0 <= i < self.records().len() && keys_match(self.records()[i], owner@, mint@) && (
                forall|j: int|
                    0 <= j < i ==> !keys_match(#[trigger] self.records()[j], owner@, mint@))
                    && self.records()[i] == record_bytes(x),
    {
        let count = self.len();
        let mut i: u16 = 0;
        while i < count
            invariant
                self.wf(),
                count as nat == self.records().len(),
                i <= count,
                forall|j: int|
                    0 <= j < i ==> !keys_match(#[trigger] self.records()[j], owner@, mint@),
            decreases count - i,
        {
            let off = HEADER_LEN + RECORD_LEN * (i as usize);
            let slot = vstd::slice::slice_subrange(self.data.as_slice(), off, off + RECORD_LEN);
            assert(slot@ == self.records()[i as int]);
            if StakedNFT::memcmp_pubkey(slot, owner.as_slice(), mint.as_slice()) {
                match StakedNFT::unpack_from_slice(slot) {
                    Ok(x) => {
                        return Some(x);
                    },
                    Err(_) => {},
                }
            }
            i = i + 1;
        }
        None
    }

    /// Removes, in one left-to-right pass, every live record that
    /// `keep_if` does not keep; the kept records keep their relative order
    /// and move to the front. Returns the new count. Slots between the new
    /// and the old count hold unspecified bytes afterwards.
    pub fn retain<P: RecordFilter>(&mut self, keep_if: &P) -> (new_count: u16)
        requires
            old(self).wf(),
        ensures
            final(self).wf(),
            final(self).records() == old(self).records().filter(kept_by(*keep_if)),
            new_count as nat == final(self).spec_len(),
            final(self).spec_header() == (StakeListHeader {
                count: new_count,
                ..old(self).spec_header()
            }),
            final(self).bytes().len() == old(self).bytes().len(),
    {
        let ghost old_records = self.records();
        let ghost d0 = self.bytes();
        let count = self.len();
        let mut w: u16 = 0;
        let mut r: u16 = 0;
        while r < count
            invariant
                self.wf(),
                self.spec_header() == header_of(d0),
                self.bytes().len() == d0.len(),
                count as nat == old_records.len(),
                old_records == records_of(d0),
                w <= r <= count,
                old_records.subrange(0, r as int).filter(kept_by(*keep_if)).len() == w,
                forall|k: int|
                    0 <= k < w ==> #[trigger] slot_of(self.bytes(), k) == old_records.subrange(
                        0,
                        r as int,
                    ).filter(kept_by(*keep_if))[k],
                forall|k: int| r <= k < count ==> #[trigger] slot_of(self.bytes(), k) == old_records[k],
            decreases count - r,
        {
            let ghost before = self.bytes();
            let off = HEADER_LEN + RECORD_LEN * (r as usize);
            let slot = vstd::slice::slice_subrange(self.data.as_slice(), off, off + RECORD_LEN);
            assert(slot@ =~= slot_of(self.bytes(), r as int));
            assert(slot@ == old_records[r as int]);
            proof {
                assert(old_records.subrange(0, r + 1) =~= old_records.subrange(0, r as int).push(
                    old_records[r as int],
                ));
                old_records.subrange(0, r as int).lemma_filter_push(old_records[r as int], kept_by(*keep_if));
            }
            if keep_if.keep(slot) {
                let mut copy: Vec<u8> = Vec::new();
                push_bytes(&mut copy, slot);
                self.write_slot(w, copy.as_slice());
                proof {
                    let d1 = self.bytes();
                    assert forall|k: int| 0 <= k < w implies #[trigger] slot_of(d1, k) == slot_of(before, k) by {
                        assert(slot_of(d1, k) =~= slot_of(before, k));
                    }
                    assert forall|k: int| r < k < count implies #[trigger] slot_of(d1, k) == slot_of(before, k) by {
                        assert(slot_of(d1, k) =~= slot_of(before, k));
                    }
                }
                w = w + 1;
            }
            r = r + 1;
        }
        proof {
            assert(old_records.subrange(0, count as int) =~= old_records);
        }
        let ghost prev = self.bytes();
        self.set_count(w);
        proof {
            let d1 = self.bytes();
            let kept = old_records.filter(kept_by(*keep_if));
            assert forall|k: int| 0 <= k < w implies #[trigger] slot_of(d1, k) == kept[k] by {
                assert(slot_of(d1, k) =~= slot_of(prev, k));
            }
            assert(self.records() =~= kept);
        }
        w
    }
}

impl StakeListHeader {
    /// Splits a record-store buffer into its header and the store over it.
    /// Fails as `RecordStore::open` does.
    pub fn deserialize_vec(data: Vec<u8>) -> (r: Result<(StakeListHeader, RecordStore), NFTStakingError>)
        ensures
            r is Ok <==> buffer_wf(data@),
            r matches Ok((h, s)) ==> s.bytes() == data@ && h == s.spec_header(),
            r matches Err(e) ==> (if parse_header(data@) is None || header_of(data@).count
                > header_of(data@).max_items {
                e == NFTStakingError::ExpectedAccount
            } else {
                e == NFTStakingError::BufferTooSmall
            }),
    {
        match RecordStore::open(data) {
            Ok(s) => Ok((s.header(), s)),
            Err(e) => Err(e),
        }
    }
}

} // verus!
