//! What holds of the operations on a ring taken together.
use vstd::arithmetic::div_mod;
use vstd::prelude::*;

use crate::ffi::netmap_ring;
use crate::ring::{BatchReservation, BlockView, Ring, RingBlock, RxRing};
use crate::tokio_async::{PollEvent, ReadAction, ReadPoll};

verus! {

/// `(from + n) % size` without a division, for positions within the ring.
proof fn lemma_step(from: int, n: int, size: int)
    requires
        0 <= from < size,
        0 <= n <= size,
    ensures
        (from + n) % size == if from + n < size { from + n } else { from + n - size },
{
    if from + n < size {
        div_mod::lemma_small_mod((from + n) as nat, size as nat);
    } else if from + n - size < size {
        div_mod::lemma_mod_add_multiples_vanish(from + n - size, size);
        div_mod::lemma_small_mod((from + n - size) as nat, size as nat);
    }
}

/// Where the 32-bit count of `used_slots` does not wrap, it is the distance from `tail` to
/// `head` round the ring, and the free slots are all others but one.
pub proof fn law_free_slots(ring: BlockView)
    requires
        ring.header.head < ring.header.num_slots,
        ring.header.tail < ring.header.num_slots,
        ring.header.head - ring.header.tail + ring.header.num_slots <= u32::MAX,
    ensures
        ring.used_slots() == (ring.header.head - ring.header.tail) % (ring.header.num_slots as int),
        ring.free_slots() == ring.header.num_slots - 1 - ring.used_slots(),
        0 <= ring.free_slots() < ring.header.num_slots,
{
    let n = ring.header.num_slots as int;
    let d = ring.header.head - ring.header.tail;
    div_mod::lemma_small_mod((d + n) as nat, 0x1_0000_0000);
    div_mod::lemma_mod_add_multiples_vanish(d, n);
    div_mod::lemma_mod_bound(d, n);
}

/// Sending finds no space exactly where no packet can be sent any more, and a packet that is sent
/// takes one slot: from a ring with room for `k` packets, `k` can be sent before it refuses.
pub proof fn law_send_takes_slot(ring: BlockView, len: u16)
    requires
        ring.header.cur < ring.header.num_slots,
        ring.header.tail < ring.header.num_slots,
    ensures
        ring.header.cur == ring.header.tail <==> ring.sendable_slots() == 0,
        ring.header.cur != ring.header.tail ==> ring.with_len(ring.header.cur as int, len).at(
            ring.slot_at(ring.header.cur as int, 1) as u32,
        ).sendable_slots() == ring.sendable_slots() - 1,
{
    let n = ring.header.num_slots as int;
    let cur = ring.header.cur as int;
    let tail = ring.header.tail as int;
    lemma_step(cur, 1, n);
    lemma_distance(tail, cur, n);
    lemma_distance(tail, ring.slot_at(cur, 1), n);
}

/// A batch that is committed takes exactly its packets from the free slots: once all of them
/// are committed, no slot is free.
pub proof fn law_commit_takes_slots(ring: BlockView, taken: int)
    requires
        ring.header.head < ring.header.num_slots,
        ring.header.tail < ring.header.num_slots,
        ring.header.head - ring.header.tail + ring.header.num_slots <= u32::MAX,
        0 <= taken <= ring.free_slots(),
        ring.slot_at(ring.header.head as int, taken) - ring.header.tail + ring.header.num_slots
            <= u32::MAX,
    ensures
        ring.at(ring.slot_at(ring.header.head as int, taken) as u32).free_slots()
            == ring.free_slots() - taken,
{
    let n = ring.header.num_slots as int;
    let head = ring.header.head as int;
    let tail = ring.header.tail as int;
    law_free_slots(ring);
    lemma_step(head, taken, n);
    let to = ring.slot_at(head, taken);
    law_free_slots(ring.at(to as u32));
    lemma_distance(head, tail, n);
    lemma_distance(to, tail, n);
}

/// `(to - from) % size` without a division, for positions within the ring.
proof fn lemma_distance(to: int, from: int, size: int)
    requires
        0 <= from < size,
        0 <= to < size,
    ensures
        (to - from) % size == if from <= to { to - from } else { to - from + size },
{
    if from <= to {
        div_mod::lemma_small_mod((to - from) as nat, size as nat);
    } else {
        div_mod::lemma_mod_add_multiples_vanish(to - from, size);
        div_mod::lemma_small_mod((to - from + size) as nat, size as nat);
    }
}

/// No two packets of a batch share a slot.
pub proof fn law_batch_slots_distinct(ring: BlockView, start: int, i: int, j: int)
    requires
        0 <= start < ring.header.num_slots,
        0 <= i < j < ring.header.num_slots,
    ensures
        0 <= ring.slot_at(start, i) < ring.header.num_slots,
        0 <= ring.slot_at(start, j) < ring.header.num_slots,
        ring.slot_at(start, i) != ring.slot_at(start, j),
{
    let n = ring.header.num_slots as int;
    lemma_step(start, i, n);
    lemma_step(start, j, n);
}

/// A packet that was sent is what a receiver reads, byte for byte, from the buffer that it was
/// put in: slot `to` of `rx` refers to the buffer of slot `from` of `tx` and holds the length that
/// sending noted there.
pub proof fn law_sent_packet_is_received(
    tx: BlockView,
    from: int,
    rx: BlockView,
    to: int,
    base: usize,
    mem: Seq<u8>,
    buf: Seq<u8>,
)
    requires
        tx.wf(base, mem.len()),
        0 <= from < tx.slot.len(),
        buf.len() <= tx.header.nr_buf_size,
        buf.len() <= u16::MAX,
        rx.buf_addr(to) == tx.buf_addr(from),
        rx.slot[to].len == crate::ring::slot_len(buf.len()),
    ensures
        rx.packet(
            to,
            base,
            crate::ring::splice(mem, tx.buf_addr(from) - base, buf.len() as int, buf),
        ) == buf,
{
    assert(tx.slot[from] == tx.slot[from]);
    assert(tx.buf_within(from, tx.header.nr_buf_size as int, base, mem.len()));
    div_mod::lemma_small_mod(buf.len(), 0x1_0000);
    let pos = tx.buf_addr(from) - base;
    assert(crate::ring::splice(mem, pos, buf.len() as int, buf).subrange(pos, pos + buf.len())
        =~= buf);
}

/// Writing the buffer of one slot leaves the packets in all other buffers as they are.
pub proof fn law_packets_do_not_overlap(
    ring: BlockView,
    base: usize,
    mem: Seq<u8>,
    written: int,
    other: int,
    data: Seq<u8>,
)
    requires
        ring.wf(base, mem.len()),
        0 <= written < ring.slot.len(),
        0 <= other < ring.slot.len(),
        ring.slot[written].buf_idx != ring.slot[other].buf_idx,
        data.len() <= ring.header.nr_buf_size,
        ring.slot[other].len <= ring.header.nr_buf_size,
    ensures
        ring.packet(
            other,
            base,
            crate::ring::splice(mem, ring.buf_addr(written) - base, data.len() as int, data),
        ) == ring.packet(other, base, mem),
{
    let size = ring.header.nr_buf_size as int;
    let a = ring.slot[written].buf_idx as int;
    let b = ring.slot[other].buf_idx as int;
    assert(a < b ==> a * size + size <= b * size) by (nonlinear_arith)
        requires
            0 <= size,
    ;
    assert(b < a ==> b * size + size <= a * size) by (nonlinear_arith)
        requires
            0 <= size,
    ;
    assert(ring.buf_within(written, size, base, mem.len()));
    assert(ring.buf_within(other, size, base, mem.len()));
    let pos = ring.buf_addr(written) - base;
    let at = ring.buf_addr(other) - base;
    let len = ring.slot[other].len as int;
    let after = crate::ring::splice(mem, pos, data.len() as int, data);
    assert(after.subrange(at, at + len) =~= mem.subrange(at, at + len));
}

/// Receiving a batch of `count` packets is receiving one packet `count` times: after the first,
/// one packet fewer is ready, the following packets keep their slots, and both ways end at the
/// same position.
pub proof fn law_recv_batch_is_repeated_recv(ring: BlockView, count: int, i: int)
    requires
        ring.header.head < ring.header.num_slots,
        ring.header.tail < ring.header.num_slots,
        0 <= i < count <= ring.ready_slots(),
    ensures
        ({
            let head = ring.header.head as int;
            let next = ring.at(ring.slot_at(head, 1) as u32);
            let after = next.header.head as int;
            &&& next.ready_slots() == ring.ready_slots() - 1
            &&& next.slot_at(after, i) == ring.slot_at(head, i + 1)
            &&& next.at(next.slot_at(after, count - 1) as u32) == ring.at(
                ring.slot_at(head, count) as u32,
            )
        }),
{
    let n = ring.header.num_slots as int;
    let head = ring.header.head as int;
    let tail = ring.header.tail as int;
    let next = ring.slot_at(head, 1);
    lemma_step(head, 1, n);
    lemma_distance(tail, head, n);
    lemma_distance(tail, next, n);
    lemma_step(head, i + 1, n);
    lemma_step(next, i, n);
    lemma_step(head, count, n);
    lemma_step(next, count - 1, n);
}

/// A received batch leaves as many packets ready as it did not take; with all taken, `head` has
/// caught up with `tail` and there is nothing more to receive.
pub proof fn law_recv_takes_packets(ring: BlockView, count: int)
    requires
        ring.header.head < ring.header.num_slots,
        ring.header.tail < ring.header.num_slots,
        0 <= count <= ring.ready_slots(),
    ensures
        ({
            let rest = ring.at(ring.slot_at(ring.header.head as int, count) as u32);
            &&& rest.ready_slots() == ring.ready_slots() - count
            &&& count == ring.ready_slots() <==> rest.header.head == rest.header.tail
        }),
{
    let n = ring.header.num_slots as int;
    let head = ring.header.head as int;
    let tail = ring.header.tail as int;
    lemma_step(head, count, n);
    lemma_distance(tail, head, n);
    lemma_distance(tail, ring.slot_at(head, count), n);
}

/// A writer finds the ring full exactly where a batch finds no free slot.
pub proof fn law_full_without_free_slots(ring: BlockView)
    requires
        ring.header.head < ring.header.num_slots,
        ring.header.tail < ring.header.num_slots,
        ring.header.head - ring.header.tail + ring.header.num_slots <= u32::MAX,
    ensures
        ring.is_full() <==> ring.free_slots() == 0,
{
    let n = ring.header.num_slots as int;
    law_free_slots(ring);
    lemma_step(ring.header.head as int, 1, n);
    lemma_distance(ring.header.head as int, ring.header.tail as int, n);
}

/// What a ring shows of itself is what lies in memory: its address, header and slots, and the bytes
/// of its buffers.
pub proof fn law_ring_shows_memory(ring: Ring<'_>)
    ensures
        ring.block().addr == old(ring.ring).addr,
        ring.block().header == old(ring.ring).header,
        ring.block().slot == old(ring.ring).slot@,
        ring.bytes() == old(ring.mem)@,
        ring.wf() == ring.block().wf(ring.base, old(ring.mem)@.len()),
        ring.packets_within() == ring.block().packets_within(ring.base, old(ring.mem)@.len()),
        forall|i: int|
            #![trigger ring.buf_pos(i)]
            ring.buf_pos(i) == ring.block().buf_addr(i) - ring.base,
{
}

/// The contents of a ring in memory are its address, its header and its slots.
pub proof fn law_block_contents(ring: RingBlock)
    ensures
        ring@.addr == ring.addr,
        ring@.header == ring.header,
        ring@.slot == ring.slot@,
{
}

/// The packets of a receiving ring are those of the memory that it borrows; one can be received if
/// the one at `head` lies there, and all if all do.
pub proof fn law_rx_ring_shows_memory(rx: RxRing<'_>, i: int)
    ensures
        rx.packet(i) == rx.0.block().packet(i, rx.0.base, old(rx.0.mem)@),
        rx.can_recv() <==> {
            let ring = rx.0.block();
            let at = ring.addr + ring.header.buf_ofs + ring.slot[ring.header.head as int].buf_idx
                * ring.header.nr_buf_size;
            let end = at + ring.slot[ring.header.head as int].len;
            &&& rx.0.wf()
            &&& ring.header.head != ring.header.tail ==> rx.0.base <= at && end <= rx.0.base + old(
                rx.0.mem,
            )@.len()
        },
        rx.wf() <==> rx.can_recv() && rx.0.packets_within(),
{
}

/// Packet `index` of a batch stands `index` slots behind its start, going round the ring, and a
/// batch is well formed if its ring is and if it takes fewer slots than there are.
pub proof fn law_batch_slots(batch: BatchReservation<'_>, index: int)
    ensures
        batch.wf() <==> {
            &&& batch.ring.wf()
            &&& batch.start < batch.ring.block().header.num_slots
            &&& batch.count < batch.ring.block().header.num_slots
        },
        batch.wf() && 0 <= index < batch.count ==> batch.slot_of(index) == if batch.start + index
            < batch.ring.block().header.num_slots {
            batch.start + index
        } else {
            batch.start + index - batch.ring.block().header.num_slots
        },
{
    if batch.wf() && 0 <= index < batch.count {
        lemma_step(batch.start as int, index, batch.ring.block().header.num_slots as int);
    }
}

/// The buffer with number `b` starts `b` buffers behind the first one, which lies `buf_ofs` bytes
/// from the ring; a packet is the first `len` bytes of its buffer.
pub proof fn law_packet_bytes(ring: BlockView, i: int, base: usize, mem: Seq<u8>)
    requires
        ring.packet_within(i, base, mem.len()),
    ensures
        ({
            let slot = ring.slot[i];
            let pos = ring.addr + ring.header.buf_ofs + slot.buf_idx * ring.header.nr_buf_size
                - base;
            &&& 0 <= pos
            &&& pos + slot.len <= mem.len()
            &&& ring.packet(i, base, mem).len() == slot.len
            &&& forall|k: int|
                0 <= k < slot.len ==> #[trigger] ring.packet(i, base, mem)[k] == mem[pos + k]
        }),
{
}

/// A ring is well formed exactly if its positions name slots and every buffer lies in the memory,
/// which itself lies in the address space.
pub proof fn law_well_formed(ring: BlockView, base: usize, size: nat)
    ensures
        ring.wf(base, size) <==> {
            &&& ring.slot.len() == ring.header.num_slots
            &&& ring.header.head < ring.header.num_slots
            &&& ring.header.cur < ring.header.num_slots
            &&& ring.header.tail < ring.header.num_slots
            &&& 0 < base
            &&& base + size <= usize::MAX
            &&& forall|i: int|
                #![trigger ring.slot[i]]
                0 <= i < ring.slot.len() ==> {
                    let at = ring.addr + ring.header.buf_ofs + ring.slot[i].buf_idx
                        * ring.header.nr_buf_size;
                    base <= at && at + ring.header.nr_buf_size <= base + size
                }
        },
{
}

/// All packets that wait lie in the memory exactly if each of the `(tail - head) % num_slots` slots
/// from `head` on holds one that does.
pub proof fn law_waiting_packets(ring: BlockView, base: usize, size: nat)
    requires
        ring.header.head < ring.header.num_slots,
        ring.header.tail < ring.header.num_slots,
    ensures
        ring.packets_within(base, size) <==> forall|k: int|
            #![trigger ring.slot[(ring.header.head + k) % (ring.header.num_slots as int)]]
            0 <= k < (ring.header.tail - ring.header.head) % (ring.header.num_slots as int) ==> {
                let slot = ring.slot[(ring.header.head + k) % (ring.header.num_slots as int)];
                let at = ring.addr + ring.header.buf_ofs + slot.buf_idx * ring.header.nr_buf_size;
                base <= at && at + slot.len <= base + size
            },
{
    let n = ring.header.num_slots as int;
    let head = ring.header.head as int;
    if ring.packets_within(base, size) {
        assert forall|k: int|
            #![trigger ring.slot[(head + k) % n]]
            0 <= k < (ring.header.tail - head) % n implies {
            let slot = ring.slot[(head + k) % n];
            let at = ring.addr + ring.header.buf_ofs + slot.buf_idx * ring.header.nr_buf_size;
            base <= at && at + slot.len <= base + size
        } by {
            assert(ring.packet_within(ring.slot_at(head, k), base, size));
        }
    } else {
        let k = choose|k: int|
            0 <= k < ring.ready_slots() && !ring.packet_within(
                #[trigger] ring.slot_at(head, k),
                base,
                size,
            );
        assert(ring.slot[(head + k) % n] == ring.slot[ring.slot_at(head, k)]);
    }
}

/// Sending `buf` puts its bytes, and nothing else, at the start of the buffer of the slot at `cur`,
/// notes its length there as a number, and moves `cur` and `head` to the slot after it; all else of
/// the ring and of the memory stays as it was. Reading that slot gives `buf` back.
pub proof fn law_send(ring: BlockView, base: usize, mem: Seq<u8>, buf: Seq<u8>)
    requires
        ring.wf(base, mem.len()),
        buf.len() <= ring.header.nr_buf_size,
    ensures
        ({
            let cur = ring.header.cur as int;
            let next = ring.with_len(cur, crate::ring::slot_len(buf.len())).at(
                ring.slot_at(cur, 1) as u32,
            );
            let after = crate::ring::splice(
                mem,
                ring.buf_addr(cur) - base,
                buf.len() as int,
                buf,
            );
            let pos = ring.addr + ring.header.buf_ofs + ring.slot[cur].buf_idx
                * ring.header.nr_buf_size - base;
            let to = if cur + 1 == ring.header.num_slots {
                0
            } else {
                cur + 1
            };
            &&& 0 <= pos
            &&& pos + buf.len() <= mem.len()
            &&& after.len() == mem.len()
            &&& forall|k: int| 0 <= k < buf.len() ==> #[trigger] buf[k] == after[pos + k]
            &&& forall|k: int|
                0 <= k < mem.len() && !(pos <= k < pos + buf.len()) ==> #[trigger] after[k]
                    == mem[k]
            &&& next.addr == ring.addr
            &&& next.header == (netmap_ring { head: to as u32, cur: to as u32, ..ring.header })
            &&& next.slot.len() == ring.slot.len()
            &&& next.slot[cur].len == buf.len() % 0x1_0000
            &&& buf.len() <= 65535 ==> next.slot[cur].len == buf.len()
            &&& next.slot[cur].buf_idx == ring.slot[cur].buf_idx
            &&& next.slot[cur].flags == ring.slot[cur].flags
            &&& next.slot[cur].ptr == ring.slot[cur].ptr
            &&& forall|i: int|
                0 <= i < ring.slot.len() && i != cur ==> #[trigger] next.slot[i] == ring.slot[i]
            &&& buf.len() <= 65535 ==> next.packet(cur, base, after) == buf
        }),
{
    let cur = ring.header.cur as int;
    let n = ring.header.num_slots as int;
    lemma_step(cur, 1, n);
    assert(ring.slot[cur] == ring.slot[cur]);
    assert(ring.buf_within(cur, ring.header.nr_buf_size as int, base, mem.len()));
    let pos = ring.buf_addr(cur) - base;
    let after = crate::ring::splice(mem, pos, buf.len() as int, buf);
    let next = ring.with_len(cur, crate::ring::slot_len(buf.len())).at(ring.slot_at(cur, 1) as u32);
    assert(forall|k: int| 0 <= k < buf.len() ==> #[trigger] buf[k] == after[pos + k]);
    if buf.len() <= 65535 {
        div_mod::lemma_small_mod(buf.len(), 0x1_0000);
        assert(next.packet(cur, base, after) =~= buf);
    }
}

/// Asking for packet `index` of a batch that starts at slot `start` notes `len`, as a number, in the
/// slot `index` steps behind, going round the ring, and changes nothing else of the ring. Writing
/// `data` through the access that it gives puts `data`, and nothing else, at the start of that
/// slot's buffer.
pub proof fn law_batch_packet(
    ring: BlockView,
    base: usize,
    mem: Seq<u8>,
    start: int,
    index: int,
    data: Seq<u8>,
)
    requires
        ring.slot.len() == ring.header.num_slots,
        0 <= start < ring.header.num_slots,
        0 <= index < ring.header.num_slots,
        ring.buf_within(ring.slot_at(start, index), data.len() as int, base, mem.len()),
    ensures
        ({
            let i = if start + index < ring.header.num_slots {
                start + index
            } else {
                start + index - ring.header.num_slots
            };
            let at = ring.slot_at(start, index);
            let next = ring.with_len(at, crate::ring::slot_len(data.len()));
            let after = crate::ring::splice(
                mem,
                ring.buf_addr(at) - base,
                data.len() as int,
                data,
            );
            let pos = ring.addr + ring.header.buf_ofs + ring.slot[i].buf_idx
                * ring.header.nr_buf_size - base;
            &&& next.addr == ring.addr
            &&& next.header == ring.header
            &&& next.slot.len() == ring.slot.len()
            &&& next.slot[i].len == data.len() % 0x1_0000
            &&& data.len() <= 65535 ==> next.slot[i].len == data.len()
            &&& next.slot[i].buf_idx == ring.slot[i].buf_idx
            &&& next.slot[i].flags == ring.slot[i].flags
            &&& next.slot[i].ptr == ring.slot[i].ptr
            &&& forall|k: int|
                0 <= k < ring.slot.len() && k != i ==> #[trigger] next.slot[k] == ring.slot[k]
            &&& 0 <= pos
            &&& pos + data.len() <= mem.len()
            &&& after.len() == mem.len()
            &&& forall|k: int| 0 <= k < data.len() ==> #[trigger] data[k] == after[pos + k]
            &&& forall|k: int|
                0 <= k < mem.len() && !(pos <= k < pos + data.len()) ==> #[trigger] after[k]
                    == mem[k]
            &&& data.len() <= 65535 ==> next.packet(i, base, after) == data
        }),
{
    let n = ring.header.num_slots as int;
    lemma_step(start, index, n);
    let i = ring.slot_at(start, index);
    let pos = ring.buf_addr(i) - base;
    let after = crate::ring::splice(mem, pos, data.len() as int, data);
    let next = ring.with_len(i, crate::ring::slot_len(data.len()));
    assert(forall|k: int| 0 <= k < data.len() ==> #[trigger] data[k] == after[pos + k]);
    if data.len() <= 65535 {
        div_mod::lemma_small_mod(data.len(), 0x1_0000);
        assert(next.packet(i, base, after) =~= data);
    }
}

/// Moving on by `n` slots from position `from`, for a commit or a receipt, moves `head` and `cur`
/// that far round the ring and changes nothing else.
pub proof fn law_move_on(ring: BlockView, from: int, n: int)
    requires
        0 <= from < ring.header.num_slots,
        0 <= n <= ring.header.num_slots,
    ensures
        ({
            let next = ring.at(ring.slot_at(from, n) as u32);
            let to = if from + n < ring.header.num_slots {
                from + n
            } else {
                from + n - ring.header.num_slots
            };
            &&& next.addr == ring.addr
            &&& next.slot == ring.slot
            &&& next.header == (netmap_ring { head: to as u32, cur: to as u32, ..ring.header })
            &&& 0 <= to < ring.header.num_slots
            &&& ring.slot_at(from, n) == to
        }),
{
    lemma_step(from, n, ring.header.num_slots as int);
}

/// The free slots as they are counted where the count wraps: in 32 bits.
pub proof fn law_free_slots_in_32_bits(ring: BlockView)
    requires
        ring.header.num_slots > 0,
    ensures
        ring.free_slots() == ring.header.num_slots - 1 - ((ring.header.head - ring.header.tail
            + ring.header.num_slots) % 0x1_0000_0000) % (ring.header.num_slots as int),
        0 <= ring.free_slots() < ring.header.num_slots,
{
    div_mod::lemma_mod_bound(
        (ring.header.head - ring.header.tail + ring.header.num_slots) % 0x1_0000_0000,
        ring.header.num_slots as int,
    );
}

/// The free slots are as many as it takes from `head` to the slot before `tail`, going round the
/// ring; of a ring whose `head` has caught up with `tail` they are all but one.
pub proof fn law_free_slots_counted(ring: BlockView)
    requires
        ring.header.head < ring.header.num_slots,
        ring.header.tail < ring.header.num_slots,
        ring.header.head - ring.header.tail + ring.header.num_slots <= u32::MAX,
    ensures
        ring.free_slots() == if ring.header.tail > ring.header.head {
            ring.header.tail - ring.header.head - 1
        } else {
            ring.header.num_slots - 1 - (ring.header.head - ring.header.tail)
        },
{
    law_free_slots(ring);
    lemma_distance(
        ring.header.head as int,
        ring.header.tail as int,
        ring.header.num_slots as int,
    );
}

/// The packets that wait are those from `head` to the slot before `tail`, going round the ring.
pub proof fn law_ready_slots_counted(ring: BlockView)
    requires
        ring.header.head < ring.header.num_slots,
        ring.header.tail < ring.header.num_slots,
    ensures
        ring.ready_slots() == if ring.header.tail >= ring.header.head {
            ring.header.tail - ring.header.head
        } else {
            ring.header.num_slots - ring.header.head + ring.header.tail
        },
{
    lemma_distance(
        ring.header.tail as int,
        ring.header.head as int,
        ring.header.num_slots as int,
    );
}

/// Writing `buf` from a task puts its bytes, and nothing else, at the start of the buffer of the
/// slot at `head`, notes its length there as a number and clears the flags, and moves `head` and
/// `cur` to the slot after it. Reading that slot gives `buf` back. It finds the ring full exactly
/// where that next slot is `tail`.
pub proof fn law_write(ring: BlockView, base: usize, mem: Seq<u8>, buf: Seq<u8>)
    requires
        ring.wf(base, mem.len()),
        buf.len() <= ring.header.nr_buf_size,
    ensures
        ({
            let head = ring.header.head as int;
            let next = ring.with_packet(head, crate::ring::slot_len(buf.len())).at(
                ring.slot_at(head, 1) as u32,
            );
            let after = crate::ring::splice(
                mem,
                ring.buf_addr(head) - base,
                buf.len() as int,
                buf,
            );
            let pos = ring.addr + ring.header.buf_ofs + ring.slot[head].buf_idx
                * ring.header.nr_buf_size - base;
            let to = if head + 1 == ring.header.num_slots {
                0
            } else {
                head + 1
            };
            &&& ring.is_full() <==> to == ring.header.tail
            &&& 0 <= pos
            &&& pos + buf.len() <= mem.len()
            &&& after.len() == mem.len()
            &&& forall|k: int| 0 <= k < buf.len() ==> #[trigger] buf[k] == after[pos + k]
            &&& forall|k: int|
                0 <= k < mem.len() && !(pos <= k < pos + buf.len()) ==> #[trigger] after[k]
                    == mem[k]
            &&& next.addr == ring.addr
            &&& next.header == (netmap_ring { head: to as u32, cur: to as u32, ..ring.header })
            &&& next.slot.len() == ring.slot.len()
            &&& next.slot[head].len == buf.len() % 0x1_0000
            &&& buf.len() <= 65535 ==> next.slot[head].len == buf.len()
            &&& next.slot[head].buf_idx == ring.slot[head].buf_idx
            &&& next.slot[head].flags == 0
            &&& next.slot[head].ptr == ring.slot[head].ptr
            &&& forall|i: int|
                0 <= i < ring.slot.len() && i != head ==> #[trigger] next.slot[i] == ring.slot[i]
            &&& buf.len() <= 65535 ==> next.packet(head, base, after) == buf
        }),
{
    let head = ring.header.head as int;
    lemma_step(head, 1, ring.header.num_slots as int);
    assert(ring.slot[head] == ring.slot[head]);
    assert(ring.buf_within(head, ring.header.nr_buf_size as int, base, mem.len()));
    let pos = ring.buf_addr(head) - base;
    let after = crate::ring::splice(mem, pos, buf.len() as int, buf);
    let next = ring.with_packet(head, crate::ring::slot_len(buf.len())).at(
        ring.slot_at(head, 1) as u32,
    );
    assert(forall|k: int| 0 <= k < buf.len() ==> #[trigger] buf[k] == after[pos + k]);
    if buf.len() <= 65535 {
        div_mod::lemma_small_mod(buf.len(), 0x1_0000);
        assert(next.packet(head, base, after) =~= buf);
    }
}

/// Reading from a task fails where the work failed, answers that nothing is there where it is not
/// done, waits for the file descriptor where no packet waits, and delivers in all other cases.
pub proof fn law_read_decision(event: PollEvent, ring: BlockView)
    ensures
        crate::tokio_async::read_action(event, ring) == Some(ReadAction::Fail) <==> event is Failed,
        crate::tokio_async::read_action(event, ring) == Some(ReadAction::Pending)
            <==> event is Pending,
        crate::tokio_async::read_action(event, ring) == Some(ReadAction::Await(ReadPoll::Readable))
            <==> event is Ready && ring.header.head == ring.header.tail,
        crate::tokio_async::read_action(event, ring) is None <==> event is Ready
            && ring.header.head != ring.header.tail,
{
}

} // verus!
