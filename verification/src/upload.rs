//! Reassembly of a document from numbered chunks.
//!
//! An upload session is a fixed row of slots, one per chunk. Chunks may
//! arrive in any order and may be sent again; the document is the
//! concatenation of the slots in index order once all are filled.

use vstd::prelude::*;

verus! {

/// The slots of a session, each chunk as a byte sequence.
pub open spec fn slots_view(slots: Seq<Option<Vec<u8>>>) -> Seq<Option<Seq<u8>>> {
    slots.map_values(
        |o: Option<Vec<u8>>|
            match o {
                Some(b) => Some(b@),
                None => None,
            },
    )
}

/// A session of `n` empty slots.
pub open spec fn empty_slots(n: nat) -> Seq<Option<Seq<u8>>> {
    Seq::new(n, |i: int| None)
}

/// Every slot is filled.
pub open spec fn complete(slots: Seq<Option<Seq<u8>>>) -> bool {
    forall|i: int| 0 <= i < slots.len() ==> (#[trigger] slots[i]) is Some
}

/// Every slot but `skip` is filled.
pub open spec fn complete_but(slots: Seq<Option<Seq<u8>>>, skip: int) -> bool {
    forall|i: int| 0 <= i < slots.len() && i != skip ==> (#[trigger] slots[i]) is Some
}

/// The bytes of the filled slots, in index order.
pub open spec fn joined(slots: Seq<Option<Seq<u8>>>) -> Seq<u8>
    decreases slots.len(),
{
    if slots.len() == 0 {
        Seq::empty()
    } else {
        joined(slots.drop_last()) + match slots.last() {
            Some(b) => b,
            None => Seq::empty(),
        }
    }
}

/// The slots after the chunks `sent` arrived one after the other; each entry
/// gives a slot index and the bytes for it, and a later chunk for the same
/// index replaces an earlier one.
pub open spec fn after_chunks(slots: Seq<Option<Seq<u8>>>, sent: Seq<(int, Seq<u8>)>) -> Seq<
    Option<Seq<u8>>,
>
    decreases sent.len(),
{
    if sent.len() == 0 {
        slots
    } else {
        after_chunks(slots, sent.drop_last()).update(sent.last().0, Some(sent.last().1))
    }
}

/// Joining a complete row of slots gives the concatenation of the chunks.
pub proof fn lemma_joined_complete(chunks: Seq<Seq<u8>>)
    ensures
        joined(chunks.map_values(|b: Seq<u8>| Some(b))) == chunks.flatten(),
    decreases chunks.len(),
{
    let slots = chunks.map_values(|b: Seq<u8>| Some(b));
    if chunks.len() == 0 {
        assert(chunks.flatten() =~= Seq::<u8>::empty());
    } else {
        lemma_joined_complete(chunks.drop_last());
        assert(slots.drop_last() =~= chunks.drop_last().map_values(|b: Seq<u8>| Some(b)));
        chunks.drop_last().lemma_flatten_push(chunks.last());
        assert(chunks.drop_last().push(chunks.last()) =~= chunks);
    }
}

/// The slots of a fresh session for `chunks` after each index listed in
/// `order` was sent with its piece.
pub open spec fn delivered(chunks: Seq<Seq<u8>>, order: Seq<int>) -> Seq<Option<Seq<u8>>> {
    after_chunks(empty_slots(chunks.len()), order.map_values(|i: int| (i, chunks[i])))
}

/// Chunk reconstruction. Let `chunks` be the pieces of a document and let
/// `order` list slot indices, each piece being sent under its index. Where
/// every index occurs in `order`, in whatever order and however often, the
/// session ends complete and its slots join to the concatenation of the
/// pieces in index order.
pub proof fn lemma_any_order_reconstructs(chunks: Seq<Seq<u8>>, order: Seq<int>)
    requires
        forall|k: int| 0 <= k < order.len() ==> 0 <= #[trigger] order[k] < chunks.len(),
        forall|i: int| 0 <= i < chunks.len() ==> order.contains(i),
    ensures
        complete(delivered(chunks, order)),
        joined(delivered(chunks, order)) == chunks.flatten(),
{
    lemma_delivered(chunks, order);
    let slots = delivered(chunks, order);
    assert forall|i: int| 0 <= i < slots.len() implies slots[i] == Some(chunks[i]) by {
        assert(order.contains(i));
    }
    assert(slots =~= chunks.map_values(|b: Seq<u8>| Some(b)));
    lemma_joined_complete(chunks);
}

/// After the pieces listed in `order` were sent, a slot holds its piece where
/// its index occurs in `order`, and is empty otherwise.
pub proof fn lemma_delivered(chunks: Seq<Seq<u8>>, order: Seq<int>)
    requires
        forall|k: int| 0 <= k < order.len() ==> 0 <= #[trigger] order[k] < chunks.len(),
    ensures
        delivered(chunks, order).len() == chunks.len(),
        forall|i: int|
            0 <= i < chunks.len() ==> #[trigger] delivered(chunks, order)[i] == if order.contains(
                i,
            ) {
                Some(chunks[i])
            } else {
                None
            },
    decreases order.len(),
{
    let sent = order.map_values(|i: int| (i, chunks[i]));
    if order.len() > 0 {
        let init = order.drop_last();
        lemma_delivered(chunks, init);
        assert(sent.drop_last() =~= init.map_values(|i: int| (i, chunks[i])));
        assert forall|i: int| 0 <= i < chunks.len() implies (order.contains(i) <==> (init.contains(
            i,
        ) || order.last() == i)) by {
            if order.contains(i) {
                let k = choose|k: int| 0 <= k < order.len() && order[k] == i;
                if k < order.len() - 1 {
                    assert(init[k] == i);
                }
            }
            if init.contains(i) {
                let k = choose|k: int| 0 <= k < init.len() && init[k] == i;
                assert(order[k] == i);
            }
            if order.last() == i {
                assert(order[order.len() - 1] == i);
            }
        }
    } else {
        assert forall|i: int| 0 <= i < chunks.len() implies !order.contains(i) by {}
    }
}

/// Whether every slot but `skip` is filled.
pub fn all_present_but(slots: &Vec<Option<Vec<u8>>>, skip: usize) -> (r: bool)
    ensures
        r == complete_but(slots_view(slots@), skip as int),
{
    let mut i: usize = 0;
    while i < slots.len()
        invariant
            i <= slots@.len(),
            forall|j: int| 0 <= j < i && j != skip ==> (#[trigger] slots_view(slots@)[j]) is Some,
        decreases slots@.len() - i,
    {
        if i != skip && slots[i].is_none() {
            assert(slots_view(slots@)[i as int] is None);
            return false;
        }
        i += 1;
    }
    true
}

/// A row of `n` empty slots.
pub fn new_slots(n: u32) -> (r: Vec<Option<Vec<u8>>>)
    ensures
        slots_view(r@) == empty_slots(n as nat),
{
    let mut out: Vec<Option<Vec<u8>>> = Vec::new();
    let mut i: u32 = 0;
    while i < n
        invariant
            i <= n,
            out@.len() == i,
            forall|j: int| 0 <= j < i ==> (#[trigger] out@[j]) is None,
        decreases n - i,
    {
        out.push(None);
        i += 1;
    }
    assert(slots_view(out@) =~= empty_slots(n as nat));
    out
}

/// The bytes of the filled slots, in index order.
pub fn assemble(slots: &Vec<Option<Vec<u8>>>) -> (r: Vec<u8>)
    ensures
        r@ == joined(slots_view(slots@)),
{
    let mut out: Vec<u8> = Vec::new();
    let mut i: usize = 0;
    assert(slots_view(slots@).subrange(0, 0) =~= Seq::<Option<Seq<u8>>>::empty());
    while i < slots.len()
        invariant
            i <= slots@.len(),
            out@ == joined(slots_view(slots@).subrange(0, i as int)),
        decreases slots@.len() - i,
    {
        let ghost seen = slots_view(slots@).subrange(0, i as int);
        let ghost next = slots_view(slots@).subrange(0, i + 1);
        assert(next.drop_last() =~= seen);
        assert(next.last() == slots_view(slots@)[i as int]);
        match &slots[i] {
            Some(data) => {
                out.extend_from_slice(data.as_slice());
            },
            None => {
                assert(out@ + Seq::<u8>::empty() =~= out@);
            },
        }
        i += 1;
    }
    assert(slots_view(slots@).subrange(0, i as int) =~= slots_view(slots@));
    out
}

} // verus!
