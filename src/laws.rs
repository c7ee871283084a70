//! Properties of the record store that span several calls.
use vstd::prelude::*;
use crate::record_store::{HolderDiffers, RecordFilter, kept_by};
use crate::state::{StakedNFT, holder_of, record_bytes};

verus! {

/// The records withdrawn with holder `holder`: those it custodies.
pub open spec fn held_by(holder: Seq<u8>) -> spec_fn(Seq<u8>) -> bool {
    |b: Seq<u8>| holder_of(b) == holder
}

/// Starting from an empty store, a run of successful pushes leaves exactly
/// the pushed records as the live records, in the order they were pushed.
/// `states[i]` is the sequence of live records before push `i`, and each
/// push appends its record, as `push` ensures.
pub proof fn lemma_pushes_in_order(states: Seq<Seq<Seq<u8>>>, pushed: Seq<StakedNFT>)
    requires
        states.len() == pushed.len() + 1,
        states[0] == Seq::<Seq<u8>>::empty(),
        forall|i: int|
            0 <= i < pushed.len() ==> #[trigger] states[i + 1] == states[i].push(record_bytes(pushed[i])),
    ensures
        states.last().len() == pushed.len(),
        states.last() == pushed.map_values(|r: StakedNFT| record_bytes(r)),
    decreases pushed.len(),
{
    if pushed.len() == 0 {
        assert(pushed.map_values(|r: StakedNFT| record_bytes(r)) =~= Seq::<Seq<u8>>::empty());
    } else {
        let n = pushed.len() - 1;
        let s2 = states.drop_last();
        let p2 = pushed.drop_last();
        assert forall|i: int| 0 <= i < p2.len() implies #[trigger] s2[i + 1] == s2[i].push(record_bytes(p2[i])) by {
            assert(states[i + 1] == states[i].push(record_bytes(pushed[i])));
        }
        lemma_pushes_in_order(s2, p2);
        assert(states[n + 1] == states[n].push(record_bytes(pushed[n])));
        assert(states.last() =~= pushed.map_values(|r: StakedNFT| record_bytes(r)));
    }
}

/// Applying a removal a second time, with the same filter, to what the
/// first one kept removes nothing.
pub proof fn lemma_retain_idempotent<P: RecordFilter>(recs: Seq<Seq<u8>>, keep_if: P)
    ensures
        recs.filter(kept_by(keep_if)).filter(kept_by(keep_if)) == recs.filter(kept_by(keep_if)),
        recs.filter(kept_by(keep_if)).filter(kept_by(keep_if)).len() == recs.filter(kept_by(keep_if)).len(),
    decreases recs.len(),
{
    if recs.len() == 0 {
        reveal(Seq::filter);
        assert(recs.filter(kept_by(keep_if)) =~= recs);
        assert(recs.filter(kept_by(keep_if)).filter(kept_by(keep_if)) =~= recs);
    } else {
        let init = recs.drop_last();
        let x = recs.last();
        lemma_retain_idempotent(init, keep_if);
        assert(recs =~= init.push(x));
        init.lemma_filter_push(x, kept_by(keep_if));
        let k = init.filter(kept_by(keep_if));
        k.lemma_filter_push(x, kept_by(keep_if));
    }
}

/// The records kept by a removal appear in the input, in the same
/// relative order: the returned indices increase and pick each kept record
/// out of the input, and the filter keeps each of them.
pub proof fn lemma_retain_keeps_order<P: RecordFilter>(recs: Seq<Seq<u8>>, keep_if: P) -> (idx: Seq<int>)
    ensures
        idx.len() == recs.filter(kept_by(keep_if)).len(),
        forall|i: int|
            0 <= i < idx.len() ==> 0 <= #[trigger] idx[i] < recs.len() && recs[idx[i]] == recs.filter(
                kept_by(keep_if),
            )[i] && keep_if.spec_keep(recs[idx[i]]),
        forall|i: int, j: int| 0 <= i < j < idx.len() ==> #[trigger] idx[i] < #[trigger] idx[j],
    decreases recs.len(),
{
    if recs.len() == 0 {
        reveal(Seq::filter);
        Seq::empty()
    } else {
        let init = recs.drop_last();
        let x = recs.last();
        let sub = lemma_retain_keeps_order(init, keep_if);
        assert(recs =~= init.push(x));
        init.lemma_filter_push(x, kept_by(keep_if));
        if keep_if.spec_keep(x) {
            let idx = sub.push(recs.len() - 1);
            assert forall|i: int| 0 <= i < idx.len() implies 0 <= #[trigger] idx[i] < recs.len()
                && recs[idx[i]] == recs.filter(kept_by(keep_if))[i] && keep_if.spec_keep(recs[idx[i]]) by {
                if i < sub.len() {
                    assert(recs[sub[i]] == init[sub[i]]);
                }
            }
            idx
        } else {
            assert forall|i: int| 0 <= i < sub.len() implies 0 <= #[trigger] sub[i] < recs.len()
                && recs[sub[i]] == recs.filter(kept_by(keep_if))[i] && keep_if.spec_keep(recs[sub[i]]) by {
                assert(recs[sub[i]] == init[sub[i]]);
            }
            sub
        }
    }
}

/// A withdrawal of `holder` drops exactly the records that holder
/// custodies: the kept count is the old count less their number.
pub proof fn lemma_retain_count(recs: Seq<Seq<u8>>, holder: [u8; 32])
    ensures
        recs.filter(kept_by(HolderDiffers { holder })).len() + recs.filter(held_by(holder@)).len() == recs.len(),
    decreases recs.len(),
{
    if recs.len() == 0 {
        reveal(Seq::filter);
    } else {
        let init = recs.drop_last();
        let x = recs.last();
        lemma_retain_count(init, holder);
        assert(recs =~= init.push(x));
        init.lemma_filter_push(x, kept_by(HolderDiffers { holder }));
        init.lemma_filter_push(x, held_by(holder@));
    }
}

} // verus!
