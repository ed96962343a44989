//! Typed endpoints over a transfer buffer, and the laws of the handoff.
//!
//! One poll of the flag is one step: `try_send` hands the slot to the receiver
//! only while the flag says the sender owns it, and `try_recv` takes the value
//! only while the flag says the receiver owns it. Waiting for the peer is
//! repeating the step until it succeeds.

use crate::buffer::{ChannelError, TransferBuffer, RECEIVER, SENDER};
use crate::payload::Payload;
use crate::region::{apply_store, lemma_replay_concat, lemma_replay_len, replay};
use std::marker::PhantomData;
use vstd::prelude::*;

verus! {

/// The stores of one send of `bytes` through a slot of `slot_len` bytes: the
/// payload, then the flag handed to the receiver.
pub open spec fn send_stores(slot_len: nat, bytes: Seq<u8>) -> Seq<(int, Seq<u8>)> {
    seq![(0int, bytes), (slot_len as int, seq![RECEIVER])]
}

/// The stores of one receive through a slot of `slot_len` bytes: the flag
/// handed back to the sender.
pub open spec fn recv_stores(slot_len: nat) -> Seq<(int, Seq<u8>)> {
    seq![(slot_len as int, seq![SENDER])]
}

/// The receiving side; it owns the buffer.
pub struct Receiver<T> {
    buffer: TransferBuffer,
    phantom_data: PhantomData<T>,
}

/// The sending side; it borrows the buffer of the receiver it was made from.
pub struct Sender<'a, T> {
    buffer: &'a mut TransferBuffer,
    phantom_data: PhantomData<T>,
}

impl<T: Payload> Receiver<T> {
    /// The buffer holds a slot of exactly one image of `T`.
    pub closed spec fn wf(&self) -> bool {
        &&& self.buffer.wf()
        &&& self.buffer.payload_len() == T::width()
    }

    /// The stores this side made to the shared mapping, oldest first.
    pub closed spec fn stores(&self) -> Seq<(int, Seq<u8>)> {
        self.buffer.stores()
    }

    /// The receiver over `b`, the result of making a buffer for one `T`
    /// owned by the sender at first; a failed buffer is passed on.
    pub fn from_buffer(b: Result<TransferBuffer, ChannelError>) -> (r: Result<Receiver<T>, ChannelError>)
        requires
            b matches Ok(buf) ==> {
                &&& buf.wf()
                &&& buf.payload_len() == T::width()
                &&& buf.stores() == seq![(T::width() as int, seq![SENDER])]
            },
        ensures
            r is Ok <==> b is Ok,
            r matches Ok(rx) ==> rx.wf() && rx.stores() == seq![(T::width() as int, seq![SENDER])],
            r matches Err(e) ==> b == Err::<TransferBuffer, ChannelError>(e),
    {
        match b {
            Ok(buffer) => Ok(Receiver { buffer, phantom_data: PhantomData }),
            Err(e) => Err(e),
        }
    }

    /// Maps a buffer for one `T`, owned by the sender at first.
    pub fn new() -> (r: Result<Receiver<T>, ChannelError>)
        requires
            T::width() < usize::MAX,
        ensures
            r matches Ok(rx) ==> rx.wf() && rx.stores() == seq![(T::width() as int, seq![SENDER])],
            r matches Err(e) ==> e == ChannelError::ResourceExhausted,
    {
        let size = T::byte_width();
        Receiver::from_buffer(TransferBuffer::new(size, SENDER))
    }

    /// A sender over this receiver's buffer.
    pub fn new_sender(&mut self) -> (s: Sender<'_, T>)
        requires
            old(self).wf(),
        ensures
            s.wf(),
            s.stores() == old(self).stores(),
    {
        Sender { buffer: &mut self.buffer, phantom_data: PhantomData }
    }

    /// The receiving step, given `flag`, the value just loaded from the
    /// ownership flag: if it names the receiver, copies the whole slot out and
    /// hands the flag back to the sender; otherwise does nothing.
    pub fn read_if_owner(&mut self, flag: u8) -> (r: Option<Vec<u8>>)
        requires
            old(self).wf(),
        ensures
            final(self).wf(),
            r is Some <==> flag == RECEIVER,
            r matches Some(b) ==> b@.len() == T::width() && final(self).stores() == old(self).stores()
                + recv_stores(T::width()),
            r is None ==> final(self).stores() == old(self).stores(),
    {
        if flag == RECEIVER {
            let bytes = self.buffer.read();
            self.buffer.write_owner(SENDER);
            Some(bytes)
        } else {
            None
        }
    }

    /// One poll: loads the flag and takes the receiving step on it.
    pub fn try_read(&mut self) -> (r: Option<Vec<u8>>)
        requires
            old(self).wf(),
        ensures
            final(self).wf(),
            r matches Some(b) ==> b@.len() == T::width() && final(self).stores() == old(self).stores()
                + recv_stores(T::width()),
            r is None ==> final(self).stores() == old(self).stores(),
    {
        let flag = self.buffer.current_owner();
        self.read_if_owner(flag)
    }

    /// The receiving step, given `flag`, the value just loaded from the
    /// ownership flag: if it names the receiver, copies the slot out as
    /// `read_if_owner` does, rebuilds the value from those bytes with
    /// `T::decode`, and hands the flag back to the sender; otherwise does
    /// nothing. Which value that is depends on the bytes loaded, which the
    /// peer stored: `lemma_send_then_recv` says what they are after a send.
    pub fn recv_if_owner(&mut self, flag: u8) -> (r: Option<T>)
        requires
            old(self).wf(),
        ensures
            final(self).wf(),
            r is Some <==> flag == RECEIVER,
            r is Some ==> final(self).stores() == old(self).stores() + recv_stores(T::width()),
            r is None ==> final(self).stores() == old(self).stores(),
    {
        match self.read_if_owner(flag) {
            Some(bytes) => {
                Some(T::decode(bytes.as_slice()))
            },
            None => None,
        }
    }

    /// One poll: loads the flag and takes the receiving step on it.
    pub fn try_recv(&mut self) -> (r: Option<T>)
        requires
            old(self).wf(),
        ensures
            final(self).wf(),
            r is Some ==> final(self).stores() == old(self).stores() + recv_stores(T::width()),
            r is None ==> final(self).stores() == old(self).stores(),
    {
        let flag = self.buffer.current_owner();
        self.recv_if_owner(flag)
    }
}

impl<'a, T: Payload> Sender<'a, T> {
    /// The buffer holds a slot of exactly one image of `T`.
    pub closed spec fn wf(&self) -> bool {
        &&& self.buffer.wf()
        &&& self.buffer.payload_len() == T::width()
    }

    /// The stores this side made to the shared mapping, oldest first.
    pub closed spec fn stores(&self) -> Seq<(int, Seq<u8>)> {
        self.buffer.stores()
    }

    /// The sending step, given `flag`, the value just loaded from the
    /// ownership flag: if it names the sender, copies `data` to the start of
    /// the slot and hands the flag to the receiver; otherwise does nothing.
    pub fn write_if_owner(&mut self, flag: u8, data: &[u8]) -> (sent: bool)
        requires
            old(self).wf(),
            data@.len() <= T::width(),
        ensures
            final(self).wf(),
            sent == (flag == SENDER),
            sent ==> final(self).stores() == old(self).stores() + send_stores(T::width(), data@),
            !sent ==> final(self).stores() == old(self).stores(),
    {
        if flag == SENDER {
            self.buffer.write(data);
            self.buffer.write_owner(RECEIVER);
            assert(self.buffer.stores() =~= old(self).stores() + send_stores(T::width(), data@));
            true
        } else {
            false
        }
    }

    /// One poll: loads the flag and takes the sending step for `data` on it.
    pub fn try_write(&mut self, data: &[u8]) -> (sent: bool)
        requires
            old(self).wf(),
            data@.len() <= T::width(),
        ensures
            final(self).wf(),
            sent ==> final(self).stores() == old(self).stores() + send_stores(T::width(), data@),
            !sent ==> final(self).stores() == old(self).stores(),
    {
        let flag = self.buffer.current_owner();
        self.write_if_owner(flag, data)
    }

    /// The sending step, given `flag`, the value just loaded from the
    /// ownership flag: if it names the sender, stores the image of `data`
    /// into the slot and hands the flag to the receiver; otherwise does
    /// nothing.
    pub fn send_if_owner(&mut self, flag: u8, data: &T) -> (sent: bool)
        requires
            old(self).wf(),
        ensures
            final(self).wf(),
            sent == (flag == SENDER),
            sent ==> final(self).stores() == old(self).stores() + send_stores(T::width(), data.image()),
            !sent ==> final(self).stores() == old(self).stores(),
    {
        if flag == SENDER {
            let bytes = data.encode();
            proof {
                data.lemma_image();
            }
            self.write_if_owner(flag, bytes.as_slice())
        } else {
            false
        }
    }

    /// One poll: loads the flag and takes the sending step for `data` on it.
    pub fn try_send(&mut self, data: &T) -> (sent: bool)
        requires
            old(self).wf(),
        ensures
            final(self).wf(),
            sent ==> final(self).stores() == old(self).stores() + send_stores(T::width(), data.image()),
            !sent ==> final(self).stores() == old(self).stores(),
    {
        let flag = self.buffer.current_owner();
        self.send_if_owner(flag, data)
    }
}

/// Sending `v` and then receiving it, on a region whose slot and flag may
/// hold anything: once the send's stores are made, the flag says the receiver
/// owns the slot and the slot holds the image of `v`, so the value rebuilt
/// from it is `v`; once the receive's store is made too, the flag says the
/// sender owns the slot again and the slot is unchanged.
pub proof fn lemma_send_then_recv<T: Payload>(region: Seq<u8>, v: T)
    requires
        region.len() == T::width() + 1,
    ensures
        ({
            let w = T::width() as int;
            let sent = replay(region, send_stores(T::width(), v.image()));
            let back = replay(sent, recv_stores(T::width()));
            &&& sent.len() == region.len()
            &&& sent[w] == RECEIVER
            &&& sent.subrange(0, w) == v.image()
            &&& forall|x: T| #[trigger] x.image() == sent.subrange(0, w) ==> x == v
            &&& back.len() == region.len()
            &&& back[w] == SENDER
            &&& back.subrange(0, w) == v.image()
        }),
{
    let w = T::width() as int;
    let img = v.image();
    v.lemma_image();
    let ss = send_stores(T::width(), img);
    let rs = recv_stores(T::width());
    assert(ss.drop_last() =~= seq![(0int, img)]);
    assert(ss.drop_last().drop_last() =~= Seq::<(int, Seq<u8>)>::empty());
    assert(rs.drop_last() =~= Seq::<(int, Seq<u8>)>::empty());
    let filled = apply_store(region, (0int, img));
    assert(replay(region, ss.drop_last().drop_last()) == region);
    assert(ss.drop_last().last() == (0int, img));
    assert(replay(region, ss.drop_last()) == filled);
    let sent = replay(region, ss);
    assert(sent == apply_store(filled, (w, seq![RECEIVER])));
    assert(sent.subrange(0, w) =~= img);
    let back = replay(sent, rs);
    assert(replay(sent, rs.drop_last()) == sent);
    assert(back == apply_store(sent, (w, seq![SENDER])));
    assert(back.subrange(0, w) =~= img);
}

/// The stores of a whole exchange of `vs`: each value sent, then received.
pub open spec fn exchange_stores<T: Payload>(vs: Seq<T>) -> Seq<(int, Seq<u8>)>
    decreases vs.len(),
{
    if vs.len() == 0 {
        Seq::empty()
    } else {
        exchange_stores(vs.drop_last()) + send_stores(T::width(), vs.last().image()) + recv_stores(
            T::width(),
        )
    }
}

/// The slot as the receiver finds it at its `k`-th receive of the exchange
/// of `vs`: after the first `k` values went through, and `vs[k]` was sent.
pub open spec fn slot_at_receive<T: Payload>(region: Seq<u8>, vs: Seq<T>, k: int) -> Seq<u8> {
    replay(region, exchange_stores(vs.take(k)) + send_stores(T::width(), vs[k].image())).subrange(
        0,
        T::width() as int,
    )
}

/// Values come out in the order they went in: at its `k`-th receive the
/// receiver finds the image of `vs[k]`, and rebuilds `vs[k]` from it.
pub proof fn lemma_in_order<T: Payload>(region: Seq<u8>, vs: Seq<T>)
    requires
        region.len() == T::width() + 1,
    ensures
        forall|k: int|
            0 <= k < vs.len() ==> #[trigger] slot_at_receive(region, vs, k) == vs[k].image(),
        forall|k: int, x: T|
            0 <= k < vs.len() && #[trigger] x.image() == #[trigger] slot_at_receive(region, vs, k)
                ==> x == vs[k],
{
    assert forall|k: int| 0 <= k < vs.len() implies #[trigger] slot_at_receive(region, vs, k)
        == vs[k].image() && forall|x: T| x.image() == slot_at_receive(region, vs, k) ==> x
        == vs[k] by {
        let before = exchange_stores(vs.take(k));
        let ss = send_stores(T::width(), vs[k].image());
        lemma_replay_concat(region, before, ss);
        lemma_replay_len(region, before);
        lemma_send_then_recv(replay(region, before), vs[k]);
    }
}

} // verus!
