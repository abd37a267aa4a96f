//! Rings in the memory of the process, for platforms without netmap.
use std::collections::VecDeque;
use std::sync::Arc;

use vstd::prelude::*;
use vstd::rwlock::{RwLock, RwLockPredicate};

use crate::error::Error;
use crate::frame::Frame;

verus! {

/// A queue of packets and its history: the packets that wait, all packets that were ever put
/// into it, and all that were ever taken out of it, each in order.
#[verifier::ext_equal]
pub struct QueueView {
    pub packets: Seq<Seq<u8>>,
    pub sent: Seq<Seq<u8>>,
    pub received: Seq<Seq<u8>>,
}

/// A queue that nothing was put into yet.
pub open spec fn fresh_queue() -> QueueView {
    QueueView { packets: seq![], sent: seq![], received: seq![] }
}

impl QueueView {
    /// At most `max_size` packets wait, and nothing was lost, repeated or reordered.
    pub open spec fn wf(self, max_size: usize) -> bool {
        &&& self.packets.len() <= max_size
        &&& self.sent == self.received + self.packets
    }

    /// There is room for one more packet.
    pub open spec fn has_room(self, max_size: usize) -> bool {
        self.packets.len() < max_size
    }

    /// What sending answers.
    pub open spec fn send_result(self, max_size: usize) -> Result<(), Error> {
        if self.has_room(max_size) {
            Ok(())
        } else {
            Err(Error::WouldBlock)
        }
    }

    /// The queue after sending.
    pub open spec fn after_send(self, max_size: usize, packet: Seq<u8>) -> QueueView {
        if self.has_room(max_size) {
            QueueView {
                packets: self.packets.push(packet),
                sent: self.sent.push(packet),
                received: self.received,
            }
        } else {
            self
        }
    }

    /// What receiving answers.
    pub open spec fn recv_result(self) -> Option<Seq<u8>> {
        if self.packets.len() > 0 {
            Some(self.packets[0])
        } else {
            None
        }
    }

    /// The queue after receiving.
    pub open spec fn after_recv(self) -> QueueView {
        if self.packets.len() > 0 {
            QueueView {
                packets: self.packets.skip(1),
                sent: self.sent,
                received: self.received.push(self.packets[0]),
            }
        } else {
            self
        }
    }
}

/// Packets on their way from a sender to a receiver.
pub struct PacketQueue {
    queue: VecDeque<Vec<u8>>,
    sent: Ghost<Seq<Seq<u8>>>,
    received: Ghost<Seq<Seq<u8>>>,
}

impl View for PacketQueue {
    type V = QueueView;

    closed spec fn view(&self) -> QueueView {
        QueueView {
            packets: self.queue@.map_values(|p: Vec<u8>| p@),
            sent: self.sent@,
            received: self.received@,
        }
    }
}

impl PacketQueue {
    /// An empty queue.
    pub fn new() -> (q: Self)
        ensures
            q@ == fresh_queue(),
    {
        let q = PacketQueue {
            queue: VecDeque::new(),
            sent: Ghost(Seq::empty()),
            received: Ghost(Seq::empty()),
        };
        assert(q@.packets =~= seq![]);
        q
    }

    /// Appends a copy of `buf`, unless `max_size` packets wait already.
    pub fn send(&mut self, max_size: usize, buf: &[u8]) -> (r: Result<(), Error>)
        ensures
            r == old(self)@.send_result(max_size),
            final(self)@ == old(self)@.after_send(max_size, buf@),
    {
        if self.queue.len() >= max_size {
            return Err(Error::WouldBlock);
        }
        let ghost before = self@;
        self.queue.push_back(vstd::slice::slice_to_vec(buf));
        self.sent = Ghost(self.sent@.push(buf@));
        assert(self@.packets =~= before.packets.push(buf@));
        Ok(())
    }

    /// Takes out the packet that has waited longest.
    pub fn recv(&mut self) -> (r: Option<Vec<u8>>)
        ensures
            match r {
                Some(packet) => old(self)@.recv_result() == Some(packet@),
                None => old(self)@.recv_result() is None,
            },
            final(self)@ == old(self)@.after_recv(),
    {
        let ghost before = self@;
        let ghost old_queue = self.queue@;
        match self.queue.pop_front() {
            Some(packet) => {
                self.received = Ghost(self.received@.push(packet@));
                assert(before.packets[0] == old_queue[0]@);
                assert(self@.packets =~= before.packets.skip(1));
                Some(packet)
            },
            None => None,
        }
    }
}

/// What holds of a shared queue whoever uses it: it is well formed, only packets that it is meant
/// to carry were ever put into it, without a sender none at all, and without a receiver nothing was
/// ever taken out.
pub struct QueueInv {
    pub max_size: usize,
    pub has_sender: bool,
    pub has_receiver: bool,
    pub carried: Ghost<Set<Seq<u8>>>,
}

impl RwLockPredicate<PacketQueue> for QueueInv {
    open spec fn inv(self, q: PacketQueue) -> bool {
        &&& q@.wf(self.max_size)
        &&& forall|i: int|
            0 <= i < q@.sent.len() ==> self.carried@.contains(#[trigger] q@.sent[i])
        &&& !self.has_sender ==> q@.sent.len() == 0
        &&& !self.has_receiver ==> q@.received.len() == 0
    }
}

struct SharedRing {
    queue: Arc<RwLock<PacketQueue, QueueInv>>,
    max_size: usize,
}

impl SharedRing {
    spec fn wf(self) -> bool {
        self.queue.pred().max_size == self.max_size
    }

    fn new(
        max_size: usize,
        Ghost(has_sender): Ghost<bool>,
        Ghost(has_receiver): Ghost<bool>,
        Ghost(carried): Ghost<Set<Seq<u8>>>,
    ) -> (r: Self)
        ensures
            r.wf(),
            r.max_size == max_size,
            r.queue.pred().has_sender == has_sender,
            r.queue.pred().has_receiver == has_receiver,
            r.queue.pred().carried@ == carried,
    {
        let ghost inv = QueueInv { max_size, has_sender, has_receiver, carried: Ghost(carried) };
        let q = PacketQueue::new();
        assert(q@.sent =~= q@.received + q@.packets);
        SharedRing { queue: Arc::new(RwLock::new(q, Ghost(inv))), max_size }
    }
}

/// Calls `Arc::clone`: the clone shares the queue of the original.
#[verifier::external_body]
fn share(queue: &Arc<RwLock<PacketQueue, QueueInv>>) -> (same: Arc<RwLock<PacketQueue, QueueInv>>)
    ensures
        same == *queue,
{
    Arc::clone(queue)
}

/// The sending end of a fallback ring.
pub struct FallbackTxRing(SharedRing);

/// The receiving end of a fallback ring.
pub struct FallbackRxRing(SharedRing);

impl FallbackTxRing {
    #[verifier::type_invariant]
    spec fn inv(self) -> bool {
        self.0.wf() && self.0.queue.pred().has_sender
    }

    /// How many packets can wait.
    pub closed spec fn max_size(self) -> usize {
        self.0.max_size
    }

    /// Whether a receiving end shares the queue.
    pub closed spec fn has_receiver(self) -> bool {
        self.0.queue.pred().has_receiver
    }

    /// Whether `packet` is one that the queue is meant to carry.
    pub closed spec fn carries(self, packet: Seq<u8>) -> bool {
        self.0.queue.pred().carried@.contains(packet)
    }

    /// The receiving end takes out what this end puts in.
    pub closed spec fn feeds(self, rx: FallbackRxRing) -> bool {
        self.0.queue == rx.0.queue
    }

    /// A sending end of its own, for up to `max_size` packets of any kind.
    pub fn new(max_size: usize) -> (tx: Self)
        ensures
            tx.max_size() == max_size,
            !tx.has_receiver(),
            forall|packet: Seq<u8>| tx.carries(packet),
    {
        FallbackTxRing(SharedRing::new(max_size, Ghost(true), Ghost(false), Ghost(Set::full())))
    }

    /// Sends a copy of `buf`, or answers that the queue is full: does to the shared queue what
    /// [`PacketQueue::send`] does.
    ///
    /// Other threads may use the queue at the same time: `q` is what it held when it was this
    /// call's turn.
    pub fn send(&self, buf: &[u8]) -> (r: Result<(), Error>)
        requires
            self.carries(buf@),
        ensures
            exists|q: QueueView|
                {
                    &&& q.wf(self.max_size())
                    &&& !self.has_receiver() ==> q.received.len() == 0
                    &&& r == #[trigger] q.send_result(self.max_size())
                },
    {
        proof {
            use_type_invariant(self);
        }
        let (mut queue, handle) = self.0.queue.acquire_write();
        let ghost before = queue@;
        let r = queue.send(self.0.max_size, buf);
        proof {
            law_send_keeps_queue(before, self.0.max_size, buf@);
        }
        handle.release_write(queue);
        assert(r == before.send_result(self.max_size()));
        r
    }
}

impl FallbackRxRing {
    #[verifier::type_invariant]
    spec fn inv(self) -> bool {
        self.0.wf() && self.0.queue.pred().has_receiver
    }

    /// How many packets can wait.
    pub closed spec fn max_size(self) -> usize {
        self.0.max_size
    }

    /// Whether a sending end shares the queue.
    pub closed spec fn has_sender(self) -> bool {
        self.0.queue.pred().has_sender
    }

    /// Whether `packet` is one that the queue is meant to carry.
    pub closed spec fn carries(self, packet: Seq<u8>) -> bool {
        self.0.queue.pred().carried@.contains(packet)
    }

    /// A receiving end of its own, for up to `max_size` packets of any kind.
    pub fn new(max_size: usize) -> (rx: Self)
        ensures
            rx.max_size() == max_size,
            !rx.has_sender(),
            forall|packet: Seq<u8>| rx.carries(packet),
    {
        FallbackRxRing(SharedRing::new(max_size, Ghost(false), Ghost(true), Ghost(Set::full())))
    }

    /// Receives the packet that has waited longest, if there is one: does to the shared queue
    /// what [`PacketQueue::recv`] does.
    ///
    /// Other threads may use the queue at the same time: `q` is what it held when it was this
    /// call's turn.
    pub fn recv(&self) -> (r: Option<Frame<'static>>)
        ensures
            !self.has_sender() ==> r is None,
            r matches Some(frame) ==> self.carries(frame@),
            exists|q: QueueView|
                {
                    &&& q.wf(self.max_size())
                    &&& match r {
                        Some(frame) => #[trigger] q.recv_result() == Some(frame@),
                        None => q.recv_result() is None,
                    }
                },
    {
        proof {
            use_type_invariant(self);
        }
        let (mut queue, handle) = self.0.queue.acquire_write();
        let ghost before = queue@;
        let taken = queue.recv();
        proof {
            law_recv_keeps_queue(before, self.0.max_size);
        }
        handle.release_write(queue);
        assert(before.wf(self.max_size()));
        match taken {
            Some(packet) => {
                assert(before.sent[before.received.len() as int] == packet@);
                let frame = Frame::new_owned(packet);
                assert(before.recv_result() == Some(frame@));
                Some(frame)
            },
            None => {
                assert(before.recv_result() is None);
                None
            },
        }
    }
}

/// Two connected ends: what is sent on the first is received on the second.
pub fn create_fallback_channel(max_size: usize) -> (r: (FallbackTxRing, FallbackRxRing))
    ensures
        r.0.feeds(r.1),
        r.0.has_receiver(),
        r.1.has_sender(),
        r.0.max_size() == max_size,
        r.1.max_size() == max_size,
        forall|packet: Seq<u8>| r.0.carries(packet),
        forall|packet: Seq<u8>| r.1.carries(packet),
{
    create_fallback_channel_of(max_size, Ghost(Set::full()))
}

/// Two connected ends for packets of `carried` only: whoever sends keeps to them, so nothing else
/// is ever received.
pub fn create_fallback_channel_of(
    max_size: usize,
    Ghost(carried): Ghost<Set<Seq<u8>>>,
) -> (r: (FallbackTxRing, FallbackRxRing))
    ensures
        r.0.feeds(r.1),
        r.0.has_receiver(),
        r.1.has_sender(),
        r.0.max_size() == max_size,
        r.1.max_size() == max_size,
        forall|packet: Seq<u8>| #[trigger] r.0.carries(packet) == carried.contains(packet),
        forall|packet: Seq<u8>| #[trigger] r.1.carries(packet) == carried.contains(packet),
{
    let shared = SharedRing::new(max_size, Ghost(true), Ghost(true), Ghost(carried));
    let tx = FallbackTxRing(SharedRing { queue: share(&shared.queue), max_size });
    (tx, FallbackRxRing(shared))
}

/// A queue is well formed exactly if no more than `max_size` packets wait and the packets sent are
/// those received and, behind them, those that wait.
pub proof fn law_queue_well_formed(q: QueueView, max_size: usize)
    ensures
        q.wf(max_size) <==> {
            &&& q.packets.len() <= max_size
            &&& q.sent.len() == q.received.len() + q.packets.len()
            &&& forall|i: int| 0 <= i < q.received.len() ==> #[trigger] q.received[i] == q.sent[i]
            &&& forall|i: int|
                0 <= i < q.packets.len() ==> #[trigger] q.packets[i] == q.sent[q.received.len() + i]
        },
{
    if q.sent == q.received + q.packets {
        assert forall|i: int| 0 <= i < q.packets.len() implies #[trigger] q.packets[i]
            == q.sent[q.received.len() + i] by {}
    }
    if q.sent.len() == q.received.len() + q.packets.len() && (forall|i: int|
        0 <= i < q.received.len() ==> #[trigger] q.received[i] == q.sent[i]) && (forall|i: int|
        0 <= i < q.packets.len() ==> #[trigger] q.packets[i] == q.sent[q.received.len() + i]) {
        assert forall|i: int| 0 <= i < q.sent.len() implies #[trigger] q.sent[i] == (q.received
            + q.packets)[i] by {
            if i < q.received.len() {
                assert(q.received[i] == q.sent[i]);
            } else {
                assert(q.packets[i - q.received.len()] == q.sent[i]);
            }
        }
        assert(q.sent =~= q.received + q.packets);
    }
}

/// Sending to a queue with fewer than `max_size` packets puts exactly `packet` behind them and
/// answers `Ok`; otherwise it changes nothing and answers `WouldBlock`.
pub proof fn law_queue_send(q: QueueView, max_size: usize, packet: Seq<u8>)
    ensures
        ({
            let next = q.after_send(max_size, packet);
            if q.packets.len() < max_size {
                &&& q.send_result(max_size) == Ok::<(), Error>(())
                &&& next.packets.len() == q.packets.len() + 1
                &&& next.packets[q.packets.len() as int] == packet
                &&& forall|i: int|
                    0 <= i < q.packets.len() ==> #[trigger] next.packets[i] == q.packets[i]
                &&& next.sent.len() == q.sent.len() + 1
                &&& next.sent[q.sent.len() as int] == packet
                &&& forall|i: int| 0 <= i < q.sent.len() ==> #[trigger] next.sent[i] == q.sent[i]
                &&& next.received == q.received
            } else {
                &&& q.send_result(max_size) == Err::<(), Error>(Error::WouldBlock)
                &&& next == q
            }
        }),
{
}

/// Receiving from a queue takes exactly its first packet and answers with it; from an empty queue it
/// takes nothing and answers that there is none.
pub proof fn law_queue_recv(q: QueueView)
    ensures
        ({
            let next = q.after_recv();
            if q.packets.len() > 0 {
                &&& q.recv_result() == Some(q.packets[0])
                &&& next.packets.len() == q.packets.len() - 1
                &&& forall|i: int|
                    0 <= i < next.packets.len() ==> #[trigger] next.packets[i] == q.packets[i + 1]
                &&& next.sent == q.sent
                &&& next.received.len() == q.received.len() + 1
                &&& next.received[q.received.len() as int] == q.packets[0]
                &&& forall|i: int|
                    0 <= i < q.received.len() ==> #[trigger] next.received[i] == q.received[i]
            } else {
                &&& q.recv_result() is None
                &&& next == q
            }
        }),
{
}

/// A fresh queue holds nothing and has no history.
pub proof fn law_fresh_queue()
    ensures
        fresh_queue().packets.len() == 0,
        fresh_queue().sent.len() == 0,
        fresh_queue().received.len() == 0,
{
}

/// Connected ends carry the same packets: what one end may send is what the other may receive, and
/// a packet that only another channel carries is never received here.
pub proof fn law_ends_carry_the_same(tx: FallbackTxRing, rx: FallbackRxRing, packet: Seq<u8>)
    requires
        tx.feeds(rx),
    ensures
        tx.carries(packet) == rx.carries(packet),
{
}

/// Sending keeps the queue well formed, and puts a packet at its end exactly where it answers
/// `Ok`.
pub proof fn law_send_keeps_queue(q: QueueView, max_size: usize, packet: Seq<u8>)
    requires
        q.wf(max_size),
    ensures
        q.after_send(max_size, packet).wf(max_size),
        q.send_result(max_size) is Ok ==> q.after_send(max_size, packet).sent == q.sent.push(
            packet,
        ),
        q.send_result(max_size) is Err ==> q.after_send(max_size, packet) == q,
        q.send_result(max_size) is Err <==> q.packets.len() == max_size,
{
    assert(q.received + q.packets.push(packet) =~= (q.received + q.packets).push(packet));
}

/// Receiving keeps the queue well formed, and the packets come out in the order in which they
/// were sent: the next one received is the first one sent that was not received yet.
pub proof fn law_recv_keeps_queue(q: QueueView, max_size: usize)
    requires
        q.wf(max_size),
    ensures
        q.after_recv().wf(max_size),
        q.received == q.sent.take(q.received.len() as int),
        q.recv_result() is None <==> q.received.len() == q.sent.len(),
        q.recv_result() matches Some(packet) ==> {
            &&& packet == q.sent[q.received.len() as int]
            &&& q.after_recv().received == q.received.push(packet)
        },
{
    assert(q.received =~= q.sent.take(q.received.len() as int));
    if q.packets.len() > 0 {
        assert(q.received.push(q.packets[0]) + q.packets.skip(1) =~= q.received + q.packets);
    }
}

/// A packet that is sent comes out once the packets before it have been received: after as many
/// receipts as packets waited, the next one gives it back.
pub proof fn law_sent_packet_comes_out(q: QueueView, max_size: usize, packet: Seq<u8>)
    requires
        q.wf(max_size),
        q.has_room(max_size),
    ensures
        after_receipts(q.after_send(max_size, packet), q.packets.len()).recv_result() == Some(
            packet,
        ),
    decreases q.packets.len(),
{
    let next = q.after_send(max_size, packet);
    if q.packets.len() > 0 {
        law_recv_keeps_queue(q, max_size);
        law_sent_packet_comes_out(q.after_recv(), max_size, packet);
        assert(next.after_recv().packets =~= q.after_recv().after_send(max_size, packet).packets);
        lemma_receipts_by_packets(
            next.after_recv(),
            q.after_recv().after_send(max_size, packet),
            (q.packets.len() - 1) as nat,
        );
    }
}

/// The queue after `n` receipts.
pub open spec fn after_receipts(q: QueueView, n: nat) -> QueueView
    decreases n,
{
    if n == 0 {
        q
    } else {
        after_receipts(q.after_recv(), (n - 1) as nat)
    }
}

/// The queue after `packets` were sent, one after the other.
pub open spec fn after_sends(q: QueueView, max_size: usize, packets: Seq<Seq<u8>>) -> QueueView
    decreases packets.len(),
{
    if packets.len() == 0 {
        q
    } else {
        after_sends(q, max_size, packets.drop_last()).after_send(max_size, packets.last())
    }
}

/// A fresh queue takes exactly `max_size` packets: up to then every packet is accepted and waits,
/// in order, and the next one is refused.
pub proof fn law_fresh_queue_takes_max_size(max_size: usize, packets: Seq<Seq<u8>>)
    requires
        packets.len() <= max_size,
    ensures
        ({
            let q = after_sends(fresh_queue(), max_size, packets);
            &&& q.packets == packets
            &&& q.sent == packets
            &&& q.received.len() == 0
            &&& packets.len() < max_size ==> q.send_result(max_size) == Ok::<(), Error>(())
            &&& packets.len() == max_size ==> q.send_result(max_size) == Err::<(), Error>(
                Error::WouldBlock,
            )
        }),
    decreases packets.len(),
{
    if packets.len() > 0 {
        law_fresh_queue_takes_max_size(max_size, packets.drop_last());
        assert(packets.drop_last().push(packets.last()) =~= packets);
    } else {
        assert(packets =~= seq![]);
    }
}

/// A call on one of the ends of a queue.
pub enum QueueCall {
    Send(Seq<u8>),
    Recv,
}

/// The queue after `calls`, in the order in which they had their turn.
pub open spec fn after_calls(q: QueueView, max_size: usize, calls: Seq<QueueCall>) -> QueueView
    decreases calls.len(),
{
    if calls.len() == 0 {
        q
    } else {
        let before = after_calls(q, max_size, calls.drop_last());
        match calls.last() {
            QueueCall::Send(packet) => before.after_send(max_size, packet),
            QueueCall::Recv => before.after_recv(),
        }
    }
}

/// How many of `calls` were sends that were accepted.
pub open spec fn accepted(q: QueueView, max_size: usize, calls: Seq<QueueCall>) -> nat
    decreases calls.len(),
{
    if calls.len() == 0 {
        0
    } else {
        let before = after_calls(q, max_size, calls.drop_last());
        let counts = calls.last() is Send && before.send_result(max_size) is Ok;
        accepted(q, max_size, calls.drop_last()) + if counts { 1nat } else { 0 }
    }
}

/// How many of `calls` were receipts that gave a packet.
pub open spec fn delivered(q: QueueView, max_size: usize, calls: Seq<QueueCall>) -> nat
    decreases calls.len(),
{
    if calls.len() == 0 {
        0
    } else {
        let before = after_calls(q, max_size, calls.drop_last());
        let counts = calls.last() is Recv && before.recv_result() is Some;
        delivered(q, max_size, calls.drop_last()) + if counts { 1nat } else { 0 }
    }
}

/// Whatever is called on the ends of a channel, in whatever order: what was received is what was
/// accepted, in order and from the start, and at most `max_size` packets more were accepted than
/// received.
pub proof fn law_calls_keep_queue(max_size: usize, calls: Seq<QueueCall>)
    ensures
        ({
            let q = after_calls(fresh_queue(), max_size, calls);
            let sends = accepted(fresh_queue(), max_size, calls);
            let receipts = delivered(fresh_queue(), max_size, calls);
            &&& q.wf(max_size)
            &&& q.sent.len() == sends
            &&& q.received.len() == receipts
            &&& q.received.is_prefix_of(q.sent)
            &&& 0 <= sends - receipts <= max_size
        }),
    decreases calls.len(),
{
    let q = after_calls(fresh_queue(), max_size, calls);
    if calls.len() == 0 {
        assert(q.received + q.packets =~= q.sent);
    } else {
        let before = after_calls(fresh_queue(), max_size, calls.drop_last());
        law_calls_keep_queue(max_size, calls.drop_last());
        match calls.last() {
            QueueCall::Send(packet) => law_send_keeps_queue(before, max_size, packet),
            QueueCall::Recv => law_recv_keeps_queue(before, max_size),
        }
    }
    law_recv_keeps_queue(q, max_size);
}

proof fn lemma_receipts_by_packets(a: QueueView, b: QueueView, n: nat)
    requires
        a.packets == b.packets,
    ensures
        after_receipts(a, n).packets == after_receipts(b, n).packets,
    decreases n,
{
    if n > 0 {
        lemma_receipts_by_packets(a.after_recv(), b.after_recv(), (n - 1) as nat);
    }
}

} // verus!
