//! The decisions behind asynchronous reading and writing.
//!
//! A poll alternates between work of the caller (a synchronisation, a question to the reactor)
//! and a decision made here from what came of that work and from the state of the ring.
use vstd::prelude::*;

use crate::error::Error;
use crate::ffi::netmap_slot;
use crate::ring::{copy_into, locate_buf, BlockView, RxRing, TxRing};

verus! {

/// What came of the work that a poll waited for.
#[derive(Clone, Copy, Debug, PartialEq, Eq, Structural)]
pub enum PollEvent {
    /// It is done.
    Ready,
    /// It is not done yet; the task will be woken.
    Pending,
    /// It failed.
    Failed,
}

/// What a reading poll waits for.
#[derive(Clone, Copy, Debug, PartialEq, Eq, Structural)]
pub enum ReadPoll {
    /// The synchronisation of the ring with the kernel.
    Sync,
    /// The file descriptor to become readable.
    Readable,
}

/// What a reading poll does next.
#[derive(Debug, PartialEq, Eq)]
pub enum ReadAction {
    /// Do this work and decide again.
    Await(ReadPoll),
    /// Answer that nothing is there yet; the task is registered for the wakeup already.
    Pending,
    /// Answer with the error of the work.
    Fail,
    /// Answer with these bytes.
    Deliver(Vec<u8>),
}

/// What a writing poll does next.
#[derive(Debug)]
pub enum WriteAction {
    /// Wait for the file descriptor to become writable and decide again.
    AwaitWritable,
    /// Answer that there is no room yet; the task is registered for the wakeup already.
    Pending,
    /// Answer with the error of the work.
    Fail,
    /// Answer that the packet is refused.
    Reject(Error),
    /// Answer that so many bytes were written.
    Wrote(usize),
}

/// What a reading poll does first: it synchronises the ring with the kernel.
pub fn start_read() -> (action: ReadAction)
    ensures
        action == ReadAction::Await(ReadPoll::Sync),
{
    ReadAction::Await(ReadPoll::Sync)
}

/// The event that a writing poll starts with: it waits for nothing before its first decision.
pub fn start_write() -> (event: PollEvent)
    ensures
        event == PollEvent::Ready,
{
    PollEvent::Ready
}

/// What came of a synchronisation that returned `ret`.
pub fn sync_event(ret: i32) -> (event: PollEvent)
    ensures
        event == if ret == -1 {
            PollEvent::Failed
        } else {
            PollEvent::Ready
        },
{
    if ret == -1 {
        PollEvent::Failed
    } else {
        PollEvent::Ready
    }
}

impl BlockView {
    /// There is no slot left to write: the one after `head` is `tail`.
    pub open spec fn is_full(self) -> bool {
        self.slot_at(self.header.head as int, 1) == self.header.tail
    }

    /// The ring with a packet of `len` bytes, and no flags, noted in slot `i`.
    pub open spec fn with_packet(self, i: int, len: u16) -> BlockView {
        BlockView {
            slot: self.slot.update(i, netmap_slot { len, flags: 0, ..self.slot[i] }),
            ..self
        }
    }
}

/// What is read of a packet into a buffer with room for `remaining` bytes.
pub open spec fn prefix_read(packet: Seq<u8>, remaining: usize) -> Seq<u8> {
    if packet.len() <= remaining {
        packet
    } else {
        packet.take(remaining as int)
    }
}

/// What a reading poll does once `event` came of the work that it waited for; where a packet
/// waits, it delivers that.
pub open spec fn read_action(event: PollEvent, ring: BlockView) -> Option<ReadAction> {
    match event {
        PollEvent::Failed => Some(ReadAction::Fail),
        PollEvent::Pending => Some(ReadAction::Pending),
        PollEvent::Ready => if ring.header.head == ring.header.tail {
            Some(ReadAction::Await(ReadPoll::Readable))
        } else {
            None
        },
    }
}

/// Decides what a reading poll does, after `event` came of the work that it waited for, for a
/// reader with room for `remaining` bytes; it starts with [`start_read`]. The packet that has
/// waited longest is taken off the ring, and what does not fit the reader is dropped. Where no
/// packet waits, the poll waits for the file descriptor, as often as it takes: it answers that
/// nothing is there only once the task is registered.
pub fn poll_read(ring: &mut RxRing<'_>, event: PollEvent, remaining: usize) -> (action: ReadAction)
    requires
        old(ring).can_recv(),
    ensures
        final(ring).0.wf(),
        old(ring).wf() ==> final(ring).wf(),
        final(ring).0.base == old(ring).0.base,
        final(ring).0.index == old(ring).0.index,
        *final(final(ring).0.ring) == *final(old(ring).0.ring),
        final(final(ring).0.mem)@ == final(old(ring).0.mem)@,
        final(ring).0.bytes() == old(ring).0.bytes(),
        ({
            let block = old(ring).0.block();
            let head = block.header.head as int;
            match read_action(event, block) {
                Some(expected) => {
                    &&& action == expected
                    &&& final(ring).0.block() == block
                },
                None => {
                    &&& action is Deliver
                    &&& action->Deliver_0@ == prefix_read(old(ring).packet(head), remaining)
                    &&& final(ring).0.block() == block.at(block.slot_at(head, 1) as u32)
                },
            }
        }),
{
    match event {
        PollEvent::Failed => {
            return ReadAction::Fail;
        },
        PollEvent::Pending => {
            return ReadAction::Pending;
        },
        PollEvent::Ready => {},
    }
    let head: u32 = ring.0.ring.header.head;
    if head == ring.0.ring.header.tail {
        return ReadAction::Await(ReadPoll::Readable);
    }
    let num_slots: u32 = ring.0.ring.header.num_slots;
    let slot_idx: usize = head as usize;
    proof {
        if ring.wf() {
            let size = ring.0.mem@.len();
            crate::ring::lemma_first_packet(ring.0.block(), ring.0.base, size);
            crate::ring::lemma_packets_left(ring.0.block(), ring.0.base, size, 1);
        }
    }
    let packet_len: usize = ring.0.ring.slot[slot_idx].len as usize;
    let len_to_copy: usize = if packet_len <= remaining { packet_len } else { remaining };
    let pos: usize = locate_buf(&*ring.0.ring, ring.0.base, slot_idx, Ghost(ring.0.mem@.len()));
    let ghost packet = ring.packet(slot_idx as int);
    let data: Vec<u8> = vstd::slice::slice_to_vec(
        vstd::slice::slice_subrange(&*ring.0.mem, pos, pos + len_to_copy),
    );
    assert(data@ =~= prefix_read(packet, remaining));
    let new_head: u32 = (head + 1) % num_slots;
    ring.0.ring.header.head = new_head;
    ring.0.ring.header.cur = new_head;
    ReadAction::Deliver(data)
}

/// Decides what a writing poll does, after `event` came of the work that it waited for; it
/// starts with [`start_write`]. Where there is room, `buf` is put on the ring.
pub fn poll_write(ring: &mut TxRing<'_>, event: PollEvent, buf: &[u8]) -> (action: WriteAction)
    requires
        old(ring).0.wf(),
    ensures
        final(ring).0.wf(),
        final(ring).0.base == old(ring).0.base,
        final(ring).0.index == old(ring).0.index,
        *final(final(ring).0.ring) == *final(old(ring).0.ring),
        final(final(ring).0.mem)@ == final(old(ring).0.mem)@,
        ({
            let block = old(ring).0.block();
            let head = block.header.head as int;
            let written = event is Ready && !block.is_full() && 0 < buf@.len()
                <= block.header.nr_buf_size;
            &&& action == if event is Failed {
                WriteAction::Fail
            } else if event is Pending {
                WriteAction::Pending
            } else if block.is_full() {
                WriteAction::AwaitWritable
            } else if buf@.len() > block.header.nr_buf_size {
                WriteAction::Reject(Error::PacketTooLarge(buf.len()))
            } else {
                WriteAction::Wrote(buf.len())
            }
            &&& final(ring).0.block() == if written {
                block.with_packet(head, crate::ring::slot_len(buf@.len())).at(
                    block.slot_at(head, 1) as u32,
                )
            } else {
                block
            }
            &&& final(ring).0.bytes() == if written {
                crate::ring::splice(
                    old(ring).0.bytes(),
                    old(ring).0.buf_pos(head),
                    buf@.len() as int,
                    buf@,
                )
            } else {
                old(ring).0.bytes()
            }
            &&& written && buf@.len() <= 65535 ==> final(ring).0.block().slot[head].len
                == buf@.len()
            &&& written ==> forall|k: int|
                0 <= k < buf@.len() ==> #[trigger] buf@[k] == final(ring).0.bytes()[block.addr
                    + block.header.buf_ofs + block.slot[head].buf_idx * block.header.nr_buf_size
                    - old(ring).0.base + k]
        }),
{
    match event {
        PollEvent::Failed => {
            return WriteAction::Fail;
        },
        PollEvent::Pending => {
            return WriteAction::Pending;
        },
        PollEvent::Ready => {},
    }
    let head: u32 = ring.0.ring.header.head;
    let num_slots: u32 = ring.0.ring.header.num_slots;
    let new_head: u32 = (head + 1) % num_slots;
    if new_head == ring.0.ring.header.tail {
        return WriteAction::AwaitWritable;
    }
    if buf.len() == 0 {
        return WriteAction::Wrote(0);
    }
    if buf.len() > ring.0.ring.header.nr_buf_size as usize {
        return WriteAction::Reject(Error::PacketTooLarge(buf.len()));
    }
    let slot_idx: usize = head as usize;
    let pos: usize = locate_buf(&*ring.0.ring, ring.0.base, slot_idx, Ghost(ring.0.mem@.len()));
    copy_into(&mut *ring.0.mem, pos, buf);
    let mut slot: netmap_slot = ring.0.ring.slot[slot_idx];
    slot.len = buf.len() as u16;
    slot.flags = 0;
    proof {
        crate::ring::lemma_slot_len(buf.len());
        crate::ring_laws::law_write(
            old(ring).0.block(),
            ring.0.base,
            old(ring).0.bytes(),
            buf@,
        );
    }
    ring.0.ring.slot[slot_idx] = slot;
    ring.0.ring.header.head = new_head;
    ring.0.ring.header.cur = new_head;
    WriteAction::Wrote(buf.len())
}

/// A reader gets as many bytes of a packet as fit, from its start: all of it where there is room.
pub proof fn law_read_is_prefix(packet: Seq<u8>, remaining: usize)
    ensures
        prefix_read(packet, remaining).is_prefix_of(packet),
        prefix_read(packet, remaining).len() == if packet.len() <= remaining {
            packet.len()
        } else {
            remaining as nat
        },
        packet.len() <= remaining ==> prefix_read(packet, remaining) == packet,
{
    assert(prefix_read(packet, remaining) =~= packet.take(
        prefix_read(packet, remaining).len() as int,
    ));
}

} // verus!
