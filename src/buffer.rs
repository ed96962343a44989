//! The transfer buffer: a payload slot of `size` bytes followed by a one-byte
//! ownership flag, in one shared mapping of `size + 1` bytes.

use crate::region::{
    load_byte, load_prefix, map_shared, mapping_len, store_byte, store_prefix, stores_of,
};
use memmap::MmapMut;
use vstd::prelude::*;

verus! {

/// Flag value while the sending side owns the slot.
pub const SENDER: u8 = 0;

/// Flag value while the receiving side owns the slot.
pub const RECEIVER: u8 = 1;

/// A value the ownership flag may hold.
pub open spec fn is_owner_flag(v: u8) -> bool {
    v == SENDER || v == RECEIVER
}

/// Why a channel could not be set up.
#[derive(Debug, Clone, Copy, PartialEq, Eq, Structural)]
pub enum ChannelError {
    /// The shared mapping could not be created.
    ResourceExhausted,
}

pub struct TransferBuffer {
    mmap: MmapMut,
    size: usize,
}

impl TransferBuffer {
    /// The mapping holds the slot and the flag, nothing more.
    pub closed spec fn wf(&self) -> bool {
        mapping_len(self.mmap) == self.size + 1
    }

    /// Number of payload bytes.
    pub closed spec fn payload_len(&self) -> nat {
        self.size as nat
    }

    /// The stores this process made to the mapping, oldest first.
    pub closed spec fn stores(&self) -> Seq<(int, Seq<u8>)> {
        stores_of(self.mmap)
    }

    /// Builds the buffer on `m`, the result of mapping `size + 1` shared
    /// bytes, and stores `owner` into the flag; a failed mapping is
    /// `ResourceExhausted`.
    pub fn from_mapping(m: Result<MmapMut, std::io::Error>, size: usize, owner: u8) -> (r: Result<
        TransferBuffer,
        ChannelError,
    >)
        requires
            is_owner_flag(owner),
            m matches Ok(mm) ==> mapping_len(mm) == size + 1 && stores_of(mm) == Seq::<
                (int, Seq<u8>),
            >::empty(),
        ensures
            r is Ok <==> m is Ok,
            r matches Ok(b) ==> {
                &&& b.wf()
                &&& b.payload_len() == size
                &&& b.stores() == seq![(size as int, seq![owner])]
            },
            r matches Err(e) ==> e == ChannelError::ResourceExhausted,
    {
        match m {
            Ok(mmap) => {
                let mut buf = TransferBuffer { mmap, size };
                buf.write_owner(owner);
                assert(buf.stores() =~= seq![(size as int, seq![owner])]);
                Ok(buf)
            },
            Err(_) => Err(ChannelError::ResourceExhausted),
        }
    }

    /// Maps `size + 1` shared bytes and stores `owner` into the flag.
    pub fn new(size: usize, owner: u8) -> (r: Result<TransferBuffer, ChannelError>)
        requires
            size < usize::MAX,
            is_owner_flag(owner),
        ensures
            r matches Ok(b) ==> {
                &&& b.wf()
                &&& b.payload_len() == size
                &&& b.stores() == seq![(size as int, seq![owner])]
            },
            r matches Err(e) ==> e == ChannelError::ResourceExhausted,
    {
        TransferBuffer::from_mapping(map_shared(size + 1), size, owner)
    }

    /// Number of payload bytes.
    pub fn size(&self) -> (r: usize)
        ensures
            r == self.payload_len(),
    {
        self.size
    }

    /// Stores `owner_id` into the flag, after a release fence: every payload
    /// store made before is visible to a peer that observes the new flag.
    pub fn write_owner(&mut self, owner_id: u8)
        requires
            old(self).wf(),
            is_owner_flag(owner_id),
        ensures
            final(self).wf(),
            final(self).payload_len() == old(self).payload_len(),
            final(self).stores() == old(self).stores().push((old(self).payload_len() as int, seq![owner_id])),
    {
        core::sync::atomic::fence(core::sync::atomic::Ordering::Release);
        store_byte(&mut self.mmap, self.size, owner_id);
    }

    /// Loads the flag, then an acquire fence: once the flag is seen in this
    /// side's favour, the peer's payload stores before it are visible. The
    /// value is whatever the shared byte holds, so nothing is promised of it.
    pub fn current_owner(&self) -> (r: u8)
        requires
            self.wf(),
    {
        let v = load_byte(&self.mmap, self.size);
        core::sync::atomic::fence(core::sync::atomic::Ordering::Acquire);
        v
    }

    /// Copies `data` to the start of the payload slot.
    pub fn write(&mut self, data: &[u8])
        requires
            old(self).wf(),
            data@.len() <= old(self).payload_len(),
        ensures
            final(self).wf(),
            final(self).payload_len() == old(self).payload_len(),
            final(self).stores() == old(self).stores().push((0int, data@)),
    {
        store_prefix(&mut self.mmap, data);
    }

    /// Copies out the whole payload slot.
    pub fn read(&self) -> (r: Vec<u8>)
        requires
            self.wf(),
        ensures
            r@.len() == self.payload_len(),
    {
        load_prefix(&self.mmap, self.size)
    }
}

} // verus!
