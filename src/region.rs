//! The shared anonymous mapping that backs a channel, seen through the
//! handful of operations the channel needs.
//!
//! A mapping is shared with every process forked after it was made, so its
//! bytes may change at any time by a store of another process. The model
//! therefore names only what this handle itself knows: the mapping's length
//! and the stores made through it, in order.

use memmap::MmapMut;
use vstd::prelude::*;

verus! {

#[verifier::external_type_specification]
#[verifier::external_body]
pub struct ExMmapMut(MmapMut);

#[verifier::external_type_specification]
#[verifier::external_body]
pub struct ExIoError(std::io::Error);

/// Number of bytes of the mapping.
pub uninterp spec fn mapping_len(m: MmapMut) -> nat;

/// The stores made through this handle, oldest first: for each, the offset of
/// its first byte and the bytes stored.
pub uninterp spec fn stores_of(m: MmapMut) -> Seq<(int, Seq<u8>)>;

/// Orders the surrounding memory accesses (acquire after observing the flag,
/// release before handing the slot over). Nothing is returned; std documents
/// that it panics on `Relaxed`, which is therefore excluded.
pub assume_specification[ core::sync::atomic::fence ](order: core::sync::atomic::Ordering)
    requires
        !(order is Relaxed),
;

/// Relies on memmap's `MmapMut::map_anon`: a shared anonymous mapping of
/// exactly `len` bytes, refused for a zero length; no store has been made
/// through a fresh handle.
#[verifier::external_body]
pub(crate) fn map_shared(len: usize) -> (r: Result<MmapMut, std::io::Error>)
    ensures
        r matches Ok(m) ==> mapping_len(m) == len && stores_of(m) == Seq::<(int, Seq<u8>)>::empty(),
        len == 0 ==> r is Err,
{
    MmapMut::map_anon(len)
}

/// Relies on memmap's `Deref` of `MmapMut` to its bytes: loads the byte at
/// `i`. What it holds may have been stored by another process.
#[verifier::external_body]
pub(crate) fn load_byte(m: &MmapMut, i: usize) -> (r: u8)
    requires
        i < mapping_len(*m),
{
    m[i]
}

/// Relies on memmap's `DerefMut` of `MmapMut` to its bytes: stores `v` at `i`.
#[verifier::external_body]
pub(crate) fn store_byte(m: &mut MmapMut, i: usize, v: u8)
    requires
        i < mapping_len(*old(m)),
    ensures
        mapping_len(*final(m)) == mapping_len(*old(m)),
        stores_of(*final(m)) == stores_of(*old(m)).push((i as int, seq![v])),
{
    m[i] = v;
}

/// Relies on memmap's `DerefMut` of `MmapMut` to its bytes: copies `data` to
/// the start of the mapping.
#[verifier::external_body]
pub(crate) fn store_prefix(m: &mut MmapMut, data: &[u8])
    requires
        data@.len() <= mapping_len(*old(m)),
    ensures
        mapping_len(*final(m)) == mapping_len(*old(m)),
        stores_of(*final(m)) == stores_of(*old(m)).push((0int, data@)),
{
    m[..data.len()].copy_from_slice(data);
}

/// Relies on memmap's `Deref` of `MmapMut` to its bytes: copies out the first
/// `n` bytes. What they hold may have been stored by another process.
#[verifier::external_body]
pub(crate) fn load_prefix(m: &MmapMut, n: usize) -> (r: Vec<u8>)
    requires
        n <= mapping_len(*m),
    ensures
        r@.len() == n,
{
    m[..n].to_vec()
}

/// The bytes of `region` once `store` has been made to it.
pub open spec fn apply_store(region: Seq<u8>, store: (int, Seq<u8>)) -> Seq<u8> {
    Seq::new(
        region.len(),
        |k: int|
            if store.0 <= k < store.0 + store.1.len() {
                store.1[k - store.0]
            } else {
                region[k]
            },
    )
}

/// The bytes of `region` once `stores` have been made to it, in order.
pub open spec fn replay(region: Seq<u8>, stores: Seq<(int, Seq<u8>)>) -> Seq<u8>
    decreases stores.len(),
{
    if stores.len() == 0 {
        region
    } else {
        apply_store(replay(region, stores.drop_last()), stores.last())
    }
}

/// Making `a` and then `b` leaves the bytes that replaying `a` and then
/// replaying `b` on the result does.
pub proof fn lemma_replay_concat(region: Seq<u8>, a: Seq<(int, Seq<u8>)>, b: Seq<(int, Seq<u8>)>)
    ensures
        replay(region, a + b) == replay(replay(region, a), b),
    decreases b.len(),
{
    if b.len() == 0 {
        assert(a + b =~= a);
    } else {
        assert((a + b).drop_last() =~= a + b.drop_last());
        assert((a + b).last() == b.last());
        lemma_replay_concat(region, a, b.drop_last());
    }
}

/// Replaying keeps the length of the region.
pub proof fn lemma_replay_len(region: Seq<u8>, stores: Seq<(int, Seq<u8>)>)
    ensures
        replay(region, stores).len() == region.len(),
    decreases stores.len(),
{
    if stores.len() > 0 {
        lemma_replay_len(region, stores.drop_last());
    }
}

} // verus!
