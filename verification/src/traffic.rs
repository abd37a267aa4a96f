//! A stream of test packets.
//!
//! A packet is 64 bytes of headers, kept as sixteen 32-bit lanes, in a buffer whose next 192
//! bytes hold a pattern.
use vstd::prelude::*;

use crate::ring::{BatchReservation, BlockView, TxRing};

verus! {

/// How far the stream counts.
pub const PACKET_COUNT: usize = 100_000;

/// The length of a packet.
pub const PACKET_LEN: usize = 64;

/// The part of a buffer that a packet and its pattern fill.
pub const BUFFER_FILL: usize = 256;

/// The headers of the first packet, from one Ethernet address to another.
pub open spec fn header_lanes(dst_mac: u64, src_mac: u64) -> Seq<u32> {
    seq![
        ((dst_mac / 0x1_0000) % 0x1_0000_0000) as u32,
        ((dst_mac % 0x1_0000) * 0x1_0000 + (src_mac / 0x1_0000_0000) % 0x1_0000) as u32,
        (src_mac % 0x1_0000_0000) as u32,
        0x4500_0800,
        0x0001_002E,
        0x4011_4000,
        0xC0A8_0005,
        0xC0A8_0101,
        0x0050_010A,
        0x001A_1F90,
        0,
        0,
        0,
        0,
        0,
        0,
    ]
}

/// The headers of the first packet, from one Ethernet address to another.
pub fn headers(dst_mac: u64, src_mac: u64) -> (lanes: [u32; 16])
    ensures
        lanes@ == header_lanes(dst_mac, src_mac),
{
    let dst_high: u32 = ((dst_mac >> 16) & 0xFFFF_FFFF) as u32;
    let middle: u32 = (((dst_mac & 0xFFFF) << 16) | ((src_mac >> 32) & 0xFFFF)) as u32;
    let src_low: u32 = (src_mac & 0xFFFF_FFFF) as u32;
    assert(((dst_mac >> 16) & 0xFFFF_FFFF) as u32 == (dst_mac / 0x1_0000) % 0x1_0000_0000)
        by (bit_vector);
    assert((((dst_mac & 0xFFFF) << 16) | ((src_mac >> 32) & 0xFFFF)) as u32 == (dst_mac % 0x1_0000)
        * 0x1_0000 + (src_mac / 0x1_0000_0000) % 0x1_0000) by (bit_vector);
    assert((src_mac & 0xFFFF_FFFF) as u32 == src_mac % 0x1_0000_0000) by (bit_vector);
    let lanes: [u32; 16] = [
        dst_high,
        middle,
        src_low,
        0x4500_0800,
        0x0001_002E,
        0x4011_4000,
        0xC0A8_0005,
        0xC0A8_0101,
        0x0050_010A,
        0x001A_1F90,
        0,
        0,
        0,
        0,
        0,
        0,
    ];
    assert(lanes@ =~= header_lanes(dst_mac, src_mac));
    lanes
}

/// What lane `i` gains from one packet to the next.
pub open spec fn lane_increment(i: int) -> int {
    if i == 8 || i == 9 {
        1
    } else {
        0
    }
}

/// What lane `i` loses from one packet to the next.
pub open spec fn lane_decrement(i: int) -> int {
    if i == 6 {
        0x1_0000
    } else {
        0
    }
}

/// The value that lane `i` steps over.
pub open spec fn lane_skipped(i: int) -> int {
    if i == 6 {
        0xC0A8
    } else {
        0
    }
}

/// Lane `i` one packet later, in 32 bits: where it would become the value to step over, it loses
/// its decrement once more.
pub open spec fn lane_step(i: int, lane: u32) -> u32 {
    let next = (lane + lane_increment(i) - lane_decrement(i)) % 0x1_0000_0000;
    if next == lane_skipped(i) {
        ((next - lane_decrement(i)) % 0x1_0000_0000) as u32
    } else {
        next as u32
    }
}

/// Lanes 4, 6 and 7 change from packet to packet; all others are those of the first.
pub open spec fn lane_changes(i: int) -> bool {
    i == 4 || i == 6 || i == 7
}

/// The headers of the packet after `current`.
pub open spec fn next_lanes(current: Seq<u32>, template: Seq<u32>) -> Seq<u32> {
    Seq::new(
        16,
        |i: int|
            if lane_changes(i) {
                lane_step(i, current[i])
            } else {
                template[i]
            },
    )
}

/// The headers of the packet `n` places after `current`.
pub open spec fn lanes_after(current: Seq<u32>, template: Seq<u32>, n: nat) -> Seq<u32>
    decreases n,
{
    if n == 0 {
        current
    } else {
        next_lanes(lanes_after(current, template, (n - 1) as nat), template)
    }
}

/// The headers of the packet after `current`.
pub fn next_headers(current: &[u32; 16], template: &[u32; 16]) -> (next: [u32; 16])
    ensures
        next@ == next_lanes(current@, template@),
{
    let mut next: [u32; 16] = [0u32;16];
    let mut i: usize = 0;
    while i < 16
        invariant
            i <= 16,
            forall|k: int| 0 <= k < i ==> next@[k] == next_lanes(current@, template@)[k],
        decreases 16 - i,
    {
        let gain: u32 = if i == 8 || i == 9 { 1 } else { 0 };
        let loss: u32 = if i == 6 { 0x1_0000 } else { 0 };
        let skipped: u32 = if i == 6 { 0xC0A8 } else { 0 };
        let lane: u32 = current[i].wrapping_add(gain).wrapping_sub(loss);
        let stepped: u32 = if lane == skipped { lane.wrapping_sub(loss) } else { lane };
        next[i] = if i == 4 || i == 6 || i == 7 { stepped } else { template[i] };
        i += 1;
    }
    assert(next@ =~= next_lanes(current@, template@));
    next
}

/// Byte `k` of a number, counted from the low end.
pub open spec fn byte_of(lane: u32, k: int) -> u8 {
    if k == 0 {
        (lane % 0x100) as u8
    } else if k == 1 {
        ((lane / 0x100) % 0x100) as u8
    } else if k == 2 {
        ((lane / 0x1_0000) % 0x100) as u8
    } else {
        (lane / 0x100_0000) as u8
    }
}

/// What a packet with these headers puts into its buffer: the lanes, low bytes first, and three
/// runs of a pattern.
pub open spec fn buffer_bytes(lanes: Seq<u32>) -> Seq<u8> {
    Seq::new(
        BUFFER_FILL as nat,
        |k: int|
            if k < 64 {
                byte_of(lanes[k / 4], k % 4)
            } else if k < 128 {
                0xAA
            } else if k < 192 {
                0xBB
            } else {
                0xCC
            },
    )
}

/// Fills the buffer of a packet.
pub fn write_packet(dst: &mut [u8], lanes: &[u32; 16])
    requires
        old(dst)@.len() == BUFFER_FILL,
    ensures
        final(dst)@ == buffer_bytes(lanes@),
        forall|i: int|
            0 <= i < 16 ==> #[trigger] lanes@[i] == final(dst)@[4 * i] + 0x100 * final(dst)@[4 * i
                + 1] + 0x1_0000 * final(dst)@[4 * i + 2] + 0x100_0000 * final(dst)@[4 * i + 3],
{
    let mut k: usize = 0;
    while k < BUFFER_FILL
        invariant
            k <= BUFFER_FILL,
            dst@.len() == BUFFER_FILL,
            forall|i: int| 0 <= i < k ==> dst@[i] == buffer_bytes(lanes@)[i],
        decreases BUFFER_FILL - k,
    {
        dst[k] = if k < 64 {
            let lane: u32 = lanes[k / 4];
            let place: usize = k % 4;
            if place == 0 {
                (lane % 0x100) as u8
            } else if place == 1 {
                ((lane / 0x100) % 0x100) as u8
            } else if place == 2 {
                ((lane / 0x1_0000) % 0x100) as u8
            } else {
                (lane / 0x100_0000) as u8
            }
        } else if k < 128 {
            0xAA
        } else if k < 192 {
            0xBB
        } else {
            0xCC
        };
        k += 1;
    }
    assert(dst@ =~= buffer_bytes(lanes@));
    assert forall|i: int| 0 <= i < 16 implies #[trigger] lanes@[i] == dst@[4 * i] + 0x100 * dst@[4
        * i + 1] + 0x1_0000 * dst@[4 * i + 2] + 0x100_0000 * dst@[4 * i + 3] by {
        crate::traffic_laws::law_written_packet(lanes@, i);
    }
}

/// `ring` with the length of a packet noted in `n` slots from `start` on.
pub open spec fn filled_ring(ring: BlockView, start: int, n: nat) -> BlockView
    decreases n,
{
    if n == 0 {
        ring
    } else {
        filled_ring(ring, start, (n - 1) as nat).with_len(
            ring.slot_at(start, n - 1),
            PACKET_LEN as u16,
        )
    }
}

/// `mem` with `n` packets of the stream, from `current` on, in the buffers of the slots from
/// `start` on.
pub open spec fn filled_bytes(
    ring: BlockView,
    base: usize,
    mem: Seq<u8>,
    start: int,
    current: Seq<u32>,
    template: Seq<u32>,
    n: nat,
) -> Seq<u8>
    decreases n,
{
    if n == 0 {
        mem
    } else {
        crate::ring::splice(
            filled_bytes(ring, base, mem, start, current, template, (n - 1) as nat),
            ring.buf_addr(ring.slot_at(start, n - 1)) - base,
            BUFFER_FILL as int,
            buffer_bytes(lanes_after(current, template, (n - 1) as nat)),
        )
    }
}

/// The buffers of the `n` slots from `start` on have room for a packet and its pattern.
pub open spec fn has_buffers(ring: BlockView, base: usize, size: nat, start: int, n: int) -> bool {
    forall|z: int|
        0 <= z < n ==> ring.buf_within(
            #[trigger] ring.slot_at(start, z),
            BUFFER_FILL as int,
            base,
            size,
        )
}

/// Noting lengths moves no buffer.
proof fn lemma_filled_ring(ring: BlockView, start: int, n: nat)
    requires
        ring.slot.len() == ring.header.num_slots,
        ring.header.num_slots > 0,
    ensures
        filled_ring(ring, start, n).header == ring.header,
        filled_ring(ring, start, n).addr == ring.addr,
        filled_ring(ring, start, n).slot.len() == ring.slot.len(),
        forall|i: int|
            0 <= i < ring.slot.len() ==> (#[trigger] filled_ring(ring, start, n).slot[i]).buf_idx
                == ring.slot[i].buf_idx,
    decreases n,
{
    if n > 0 {
        lemma_filled_ring(ring, start, (n - 1) as nat);
    }
}

/// Writes a packet of the stream, from `current` on, into each slot of the batch, and gives back
/// the headers of the packet after the last.
fn fill_batch(
    batch: &mut BatchReservation<'_>,
    current: &[u32; 16],
    template: &[u32; 16],
) -> (next: [u32; 16])
    requires
        old(batch).wf(),
        has_buffers(
            old(batch).ring.block(),
            old(batch).ring.base,
            old(batch).ring.bytes().len(),
            old(batch).start as int,
            old(batch).count as int,
        ),
    ensures
        final(batch).wf(),
        final(batch).start == old(batch).start,
        final(batch).count == old(batch).count,
        final(batch).ring.base == old(batch).ring.base,
        *final(final(batch).ring.ring) == *final(old(batch).ring.ring),
        final(final(batch).ring.mem)@ == final(old(batch).ring.mem)@,
        next@ == lanes_after(current@, template@, old(batch).count as nat),
        final(batch).ring.block() == filled_ring(
            old(batch).ring.block(),
            old(batch).start as int,
            old(batch).count as nat,
        ),
        final(batch).ring.bytes() == filled_bytes(
            old(batch).ring.block(),
            old(batch).ring.base,
            old(batch).ring.bytes(),
            old(batch).start as int,
            current@,
            template@,
            old(batch).count as nat,
        ),
{
    let ghost ring = batch.ring.block();
    let ghost mem = batch.ring.bytes();
    let ghost start = batch.start as int;
    let ghost base = batch.ring.base;
    let count: usize = batch.count;
    let mut lanes: [u32; 16] = *current;
    let mut z: usize = 0;
    while z < count
        invariant
            z <= count,
            batch.wf(),
            batch.start == start,
            batch.count == count,
            batch.ring.base == base,
            batch.ring.bytes().len() == mem.len(),
            ring.wf(base, mem.len()),
            has_buffers(ring, base, mem.len(), start, count as int),
            *final(batch.ring.ring) == *final(old(batch).ring.ring),
            final(batch.ring.mem)@ == final(old(batch).ring.mem)@,
            lanes@ == lanes_after(current@, template@, z as nat),
            batch.ring.block() == filled_ring(ring, start, z as nat),
            batch.ring.bytes() == filled_bytes(
                ring,
                base,
                mem,
                start,
                current@,
                template@,
                z as nat,
            ),
        decreases count - z,
    {
        let ghost slot = ring.slot_at(start, z as int);
        proof {
            lemma_filled_ring(ring, start, z as nat);
            assert(0 <= slot < ring.slot.len());
            assert(batch.ring.block().slot[slot].buf_idx == ring.slot[slot].buf_idx);
            assert(batch.ring.block().buf_addr(slot) == ring.buf_addr(slot));
        }
        let ghost before = batch.ring.block();
        match batch.packet(z, BUFFER_FILL) {
            Ok(dst) => {
                write_packet(dst, &lanes);
            },
            Err(_) => {},
        }
        let ghost written = batch.ring.bytes();
        proof {
            assert(batch.ring.block().buf_addr(slot) == ring.buf_addr(slot));
        }
        match batch.packet(z, PACKET_LEN) {
            Ok(_) => {},
            Err(_) => {},
        }
        proof {
            assert(batch.ring.bytes() =~= written);
            assert(batch.ring.block() =~= before.with_len(slot, PACKET_LEN as u16));
        }
        lanes = next_headers(&lanes, template);
        z += 1;
    }
    lanes
}

/// A stream of packets under way.
#[derive(Debug)]
pub struct Traffic {
    template: [u32; 16],
    current: [u32; 16],
    count: usize,
}

/// What a [`Traffic`] holds: the headers of the first and of the next packet, and how far the
/// stream has counted.
#[verifier::ext_equal]
pub struct TrafficView {
    pub template: Seq<u32>,
    pub current: Seq<u32>,
    pub count: usize,
}

impl View for Traffic {
    type V = TrafficView;

    closed spec fn view(&self) -> TrafficView {
        TrafficView { template: self.template@, current: self.current@, count: self.count }
    }
}

impl Traffic {
    /// A stream that has not started.
    pub fn new() -> (traffic: Self)
        ensures
            traffic@ == (TrafficView {
                template: header_lanes(0xDDCC_BBAA_2211, 0xFFEE_6655_4433),
                current: header_lanes(0xDDCC_BBAA_2211, 0xFFEE_6655_4433),
                count: 0,
            }),
    {
        let template: [u32; 16] = headers(0xDDCC_BBAA_2211, 0xFFEE_6655_4433);
        Traffic { template, current: template, count: 0 }
    }

    /// Whether the stream has counted to its end.
    pub fn is_done(&self) -> (yes: bool)
        ensures
            yes == (self@.count >= PACKET_COUNT),
    {
        self.count >= PACKET_COUNT
    }

    /// Sends a batch in all free slots of `tx`, and says whether there were any; the ring is to
    /// be synchronised then. A turn counts one, and a batch one more.
    pub fn step(&mut self, tx: &mut TxRing<'_>) -> (sent: bool)
        requires
            old(self)@.count < PACKET_COUNT,
            old(tx).0.wf(),
            has_buffers(
                old(tx).0.block(),
                old(tx).0.base,
                old(tx).0.bytes().len(),
                old(tx).0.block().header.head as int,
                old(tx).0.block().free_slots(),
            ),
        ensures
            final(tx).0.wf(),
            final(tx).0.base == old(tx).0.base,
            final(tx).0.index == old(tx).0.index,
            *final(final(tx).0.ring) == *final(old(tx).0.ring),
            final(final(tx).0.mem)@ == final(old(tx).0.mem)@,
            ({
                let ring = old(tx).0.block();
                let head = ring.header.head as int;
                let free = ring.free_slots();
                let current = old(self)@.current;
                let template = old(self)@.template;
                &&& sent == (free != 0)
                &&& final(self)@ == (TrafficView {
                    template,
                    current: lanes_after(current, template, free as nat),
                    count: (old(self)@.count + if sent { 2int } else { 1 }) as usize,
                })
                &&& final(tx).0.block() == if sent {
                    filled_ring(ring, head, free as nat).at(ring.slot_at(head, free) as u32)
                } else {
                    ring
                }
                &&& final(tx).0.bytes() == filled_bytes(
                    ring,
                    old(tx).0.base,
                    old(tx).0.bytes(),
                    head,
                    current,
                    template,
                    free as nat,
                )
            }),
    {
        let ghost ring = tx.0.block();
        let mut sent: bool = false;
        match tx.reserve_all() {
            Ok((batch, count)) => {
                let mut batch: BatchReservation<'_> = batch;
                let next: [u32; 16] = fill_batch(&mut batch, &self.current, &self.template);
                proof {
                    lemma_filled_ring(ring, ring.header.head as int, count as nat);
                    lemma_filled_len(
                        ring,
                        old(tx).0.base,
                        old(tx).0.bytes(),
                        ring.header.head as int,
                        self.current@,
                        self.template@,
                        count as nat,
                    );
                }
                batch.commit(count);
                self.current = next;
                sent = true;
            },
            Err(_) => {},
        }
        self.count = self.count + if sent { 2 } else { 1 };
        sent
    }
}

/// The packet `n` places into the stream differs from the first in one lane only: lane 6, whose
/// high half has counted down by `n`.
pub proof fn law_nth_packet(n: nat)
    ensures
        ({
            let first = header_lanes(0xDDCC_BBAA_2211, 0xFFEE_6655_4433);
            lanes_after(first, first, n) == first.update(
                6,
                ((0xC0A8_0005 - n * 0x1_0000) % 0x1_0000_0000) as u32,
            )
        }),
    decreases n,
{
    let first = header_lanes(0xDDCC_BBAA_2211, 0xFFEE_6655_4433);
    if n == 0 {
        assert(lanes_after(first, first, n) =~= first.update(6, 0xC0A8_0005));
    } else {
        let m = (n - 1) as nat;
        law_nth_packet(m);
        let lane = ((0xC0A8_0005 - m * 0x1_0000) % 0x1_0000_0000) as u32;
        let next = ((0xC0A8_0005 - n * 0x1_0000) % 0x1_0000_0000) as u32;
        let before = first.update(6, lane);
        lemma_lane_six(m);
        crate::traffic_laws::law_next_headers(before, first);
        let after = next_lanes(before, first);
        assert(after[6] == next);
        assert(after =~= first.update(6, next));
    }
}

/// Lane 6 never comes to the value that it would step over.
proof fn lemma_lane_six(m: nat)
    ensures
        ({
            let lane = (0xC0A8_0005 - m * 0x1_0000) % 0x1_0000_0000;
            let next = (0xC0A8_0005 - (m + 1) * 0x1_0000) % 0x1_0000_0000;
            &&& 0 <= lane < 0x1_0000_0000
            &&& next == if lane >= 0x1_0000 {
                lane - 0x1_0000
            } else {
                lane + 0xFFFF_0000
            }
            &&& next != 0xC0A8
        }),
{
    let lane = (0xC0A8_0005 - m * 0x1_0000) % 0x1_0000_0000;
    assert(lane % 0x1_0000 == 5);
}

/// Buffers of at least 256 bytes have room for a packet and its pattern.
pub proof fn law_large_buffers_suffice(ring: BlockView, base: usize, size: nat, start: int, n: int)
    requires
        ring.wf(base, size),
        ring.header.nr_buf_size >= BUFFER_FILL,
    ensures
        has_buffers(ring, base, size, start, n),
{
    assert forall|z: int| 0 <= z < n implies ring.buf_within(
        #[trigger] ring.slot_at(start, z),
        BUFFER_FILL as int,
        base,
        size,
    ) by {
        let i = ring.slot_at(start, z);
        vstd::arithmetic::div_mod::lemma_mod_bound(start + z, ring.header.num_slots as int);
        assert(ring.slot[i] == ring.slot[i]);
        assert(ring.buf_within(i, ring.header.nr_buf_size as int, base, size));
    }
}

/// Where the slots of a batch refer to different buffers, each buffer ends up with the packet
/// that was written into it, whole: writing one packet does not touch another.
pub proof fn law_batch_keeps_packets(
    ring: BlockView,
    base: usize,
    mem: Seq<u8>,
    start: int,
    current: Seq<u32>,
    template: Seq<u32>,
    n: nat,
    z: int,
)
    requires
        ring.wf(base, mem.len()),
        ring.header.nr_buf_size >= BUFFER_FILL,
        0 <= z < n,
        forall|i: int, j: int|
            0 <= i < j < n ==> (#[trigger] ring.slot[ring.slot_at(start, i)]).buf_idx != (
            #[trigger] ring.slot[ring.slot_at(start, j)]).buf_idx,
    ensures
        ({
            let pos = ring.buf_addr(ring.slot_at(start, z)) - base;
            let filled = filled_bytes(ring, base, mem, start, current, template, n);
            &&& filled.len() == mem.len()
            &&& filled.subrange(pos, pos + BUFFER_FILL) == buffer_bytes(
                lanes_after(current, template, z as nat),
            )
        }),
    decreases n,
{
    let m = (n - 1) as nat;
    let size = ring.header.nr_buf_size as int;
    let last = ring.slot_at(start, m as int);
    let this = ring.slot_at(start, z);
    law_large_buffers_suffice(ring, base, mem.len(), start, n as int);
    assert(ring.buf_within(last, BUFFER_FILL as int, base, mem.len()));
    assert(ring.buf_within(this, BUFFER_FILL as int, base, mem.len()));
    lemma_filled_len(ring, base, mem, start, current, template, m);
    let before = filled_bytes(ring, base, mem, start, current, template, m);
    let after = filled_bytes(ring, base, mem, start, current, template, n);
    let pos = ring.buf_addr(this) - base;
    if z == m {
        assert(after.subrange(pos, pos + BUFFER_FILL) =~= buffer_bytes(
            lanes_after(current, template, m),
        ));
    } else {
        law_batch_keeps_packets(ring, base, mem, start, current, template, m, z);
        assert(ring.slot[this].buf_idx != ring.slot[last].buf_idx);
        let a = ring.slot[this].buf_idx as int;
        let b = ring.slot[last].buf_idx as int;
        assert(a < b ==> a * size + size <= b * size) by (nonlinear_arith)
            requires
                0 <= size,
        ;
        assert(b < a ==> b * size + size <= a * size) by (nonlinear_arith)
            requires
                0 <= size,
        ;
        assert(after.subrange(pos, pos + BUFFER_FILL) =~= before.subrange(pos, pos + BUFFER_FILL));
    }
}

proof fn lemma_filled_len(
    ring: BlockView,
    base: usize,
    mem: Seq<u8>,
    start: int,
    current: Seq<u32>,
    template: Seq<u32>,
    n: nat,
)
    requires
        has_buffers(ring, base, mem.len(), start, n as int),
    ensures
        filled_bytes(ring, base, mem, start, current, template, n).len() == mem.len(),
    decreases n,
{
    if n > 0 {
        lemma_filled_len(ring, base, mem, start, current, template, (n - 1) as nat);
        assert(ring.buf_within(ring.slot_at(start, n - 1), BUFFER_FILL as int, base, mem.len()));
    }
}

} // verus!
