//! What holds of the stream of test packets.
use vstd::arithmetic::div_mod;
use vstd::prelude::*;

use crate::ring::BlockView;

verus! {

/// The stream counts to 100000, its packets are 64 bytes long, and each fills 256 bytes of its
/// buffer.
pub proof fn law_sizes()
    ensures
        crate::traffic::PACKET_COUNT == 100_000,
        crate::traffic::PACKET_LEN == 64,
        crate::traffic::BUFFER_FILL == 256,
{
}

/// The first lanes hold the two Ethernet addresses, one behind the other; the others are the same
/// for all addresses.
pub proof fn law_headers(dst_mac: u64, src_mac: u64)
    ensures
        ({
            let lanes = crate::traffic::header_lanes(dst_mac, src_mac);
            &&& lanes.len() == 16
            &&& lanes[0] * 0x1_0000 + lanes[1] / 0x1_0000 == dst_mac % 0x1_0000_0000_0000
            &&& (lanes[1] % 0x1_0000) * 0x1_0000_0000 + lanes[2] == src_mac % 0x1_0000_0000_0000
            &&& lanes[3] == 0x4500_0800
            &&& lanes[4] == 0x0001_002E
            &&& lanes[5] == 0x4011_4000
            &&& lanes[6] == 0xC0A8_0005
            &&& lanes[7] == 0xC0A8_0101
            &&& lanes[8] == 0x0050_010A
            &&& lanes[9] == 0x001A_1F90
            &&& forall|i: int| 10 <= i < 16 ==> #[trigger] lanes[i] == 0
        }),
{
    let high = (dst_mac / 0x1_0000) % 0x1_0000_0000;
    let low = dst_mac % 0x1_0000;
    assert(dst_mac % 0x1_0000_0000_0000 == high * 0x1_0000 + low);
    let top = (src_mac / 0x1_0000_0000) % 0x1_0000;
    let rest = src_mac % 0x1_0000_0000;
    assert(src_mac % 0x1_0000_0000_0000 == top * 0x1_0000_0000 + rest);
    let middle = low * 0x1_0000 + top;
    assert(middle / 0x1_0000 == low);
    assert(middle % 0x1_0000 == top);
}

/// From one packet to the next, lane 6 loses 0x10000, once more where it would come to 0xC0A8, in 32
/// bits; lanes 4 and 7 stay, and all others are those of the first packet.
pub proof fn law_next_headers(current: Seq<u32>, template: Seq<u32>)
    ensures
        ({
            let next = crate::traffic::next_lanes(current, template);
            let less = if current[6] >= 0x1_0000 {
                current[6] - 0x1_0000
            } else {
                current[6] + 0xFFFF_0000
            };
            &&& next.len() == 16
            &&& less != 0xC0A8 ==> next[6] == less
            &&& less == 0xC0A8 ==> next[6] == 0xFFFF_C0A8
            &&& next[4] == current[4]
            &&& next[7] == current[7]
            &&& forall|i: int|
                0 <= i < 16 && i != 4 && i != 6 && i != 7 ==> #[trigger] next[i] == template[i]
        }),
{
    let c = current[6];
    assert((c - 0x1_0000) % 0x1_0000_0000 == if c >= 0x1_0000 {
        c - 0x1_0000
    } else {
        c + 0xFFFF_0000
    });
    assert((0xC0A8 - 0x1_0000) % 0x1_0000_0000 == 0xFFFF_C0A8);
    let next = crate::traffic::next_lanes(current, template);
    assert(next[6] == crate::traffic::lane_step(6, c));
    assert(next[4] == crate::traffic::lane_step(4, current[4]));
    assert(next[7] == crate::traffic::lane_step(7, current[7]));
}

/// The packet `n + 1` places on is the one after the packet `n` places on.
pub proof fn law_packets_follow(current: Seq<u32>, template: Seq<u32>, n: nat)
    ensures
        crate::traffic::lanes_after(current, template, 0) == current,
        crate::traffic::lanes_after(current, template, n + 1) == crate::traffic::next_lanes(
            crate::traffic::lanes_after(current, template, n),
            template,
        ),
{
}

/// A written packet is 256 bytes: each lane as four bytes, the low one first, and then 64 bytes each
/// of 0xAA, 0xBB and 0xCC.
pub proof fn law_written_packet(lanes: Seq<u32>, i: int)
    requires
        0 <= i < 16,
    ensures
        ({
            let bytes = crate::traffic::buffer_bytes(lanes);
            &&& bytes.len() == 256
            &&& bytes[4 * i] + 0x100 * bytes[4 * i + 1] + 0x1_0000 * bytes[4 * i + 2] + 0x100_0000
                * bytes[4 * i + 3] == lanes[i]
            &&& forall|k: int| 64 <= k < 128 ==> #[trigger] bytes[k] == 0xAA
            &&& forall|k: int| 128 <= k < 192 ==> #[trigger] bytes[k] == 0xBB
            &&& forall|k: int| 192 <= k < 256 ==> #[trigger] bytes[k] == 0xCC
        }),
{
    let bytes = crate::traffic::buffer_bytes(lanes);
    let lane = lanes[i];
    assert((4 * i) / 4 == i && (4 * i) % 4 == 0);
    assert((4 * i + 1) / 4 == i && (4 * i + 1) % 4 == 1);
    assert((4 * i + 2) / 4 == i && (4 * i + 2) % 4 == 2);
    assert((4 * i + 3) / 4 == i && (4 * i + 3) % 4 == 3);
    assert(bytes[4 * i] == lane % 0x100);
    assert(bytes[4 * i + 1] == (lane / 0x100) % 0x100);
    assert(bytes[4 * i + 2] == (lane / 0x1_0000) % 0x100);
    assert(bytes[4 * i + 3] == lane / 0x100_0000);
}

/// Filling `n` slots from `start` on notes 64 as the length of each of them, and of no other, and
/// changes nothing else of the ring.
pub proof fn law_filled_slots(ring: BlockView, start: int, n: nat)
    requires
        ring.slot.len() == ring.header.num_slots,
        0 <= start < ring.header.num_slots,
        n <= ring.header.num_slots,
    ensures
        ({
            let filled = crate::traffic::filled_ring(ring, start, n);
            let slots = ring.header.num_slots as int;
            &&& filled.addr == ring.addr
            &&& filled.header == ring.header
            &&& filled.slot.len() == ring.slot.len()
            &&& forall|i: int|
                0 <= i < slots ==> {
                    let taken = (i - start) % slots < n;
                    &&& (#[trigger] filled.slot[i]).len == if taken {
                        64
                    } else {
                        ring.slot[i].len
                    }
                    &&& filled.slot[i].buf_idx == ring.slot[i].buf_idx
                    &&& filled.slot[i].flags == ring.slot[i].flags
                    &&& filled.slot[i].ptr == ring.slot[i].ptr
                }
        }),
    decreases n,
{
    let slots = ring.header.num_slots as int;
    let filled = crate::traffic::filled_ring(ring, start, n);
    if n == 0 {
        assert forall|i: int| 0 <= i < slots implies {
            &&& (i - start) % slots >= n
            &&& (#[trigger] filled.slot[i]) == ring.slot[i]
        } by {
            div_mod::lemma_mod_bound(i - start, slots);
        }
    } else {
        let m = (n - 1) as nat;
        law_filled_slots(ring, start, m);
        let before = crate::traffic::filled_ring(ring, start, m);
        let last = ring.slot_at(start, m as int);
        lemma_unround(start, m as int, slots);
        assert forall|i: int| 0 <= i < slots implies {
            &&& (#[trigger] filled.slot[i]).len == if (i - start) % slots < n {
                64
            } else {
                ring.slot[i].len
            }
            &&& filled.slot[i].buf_idx == ring.slot[i].buf_idx
            &&& filled.slot[i].flags == ring.slot[i].flags
            &&& filled.slot[i].ptr == ring.slot[i].ptr
        } by {
            lemma_round(start, i, slots);
            assert((i - start) % slots == m <==> i == last);
            assert(before.slot[i].buf_idx == ring.slot[i].buf_idx);
        }
    }
}

proof fn lemma_round(start: int, i: int, slots: int)
    requires
        0 <= start < slots,
        0 <= i < slots,
    ensures
        (i - start) % slots == if start <= i {
            i - start
        } else {
            i - start + slots
        },
{
    if start <= i {
        div_mod::lemma_small_mod((i - start) as nat, slots as nat);
    } else {
        div_mod::lemma_mod_add_multiples_vanish(i - start, slots);
        div_mod::lemma_small_mod((i - start + slots) as nat, slots as nat);
    }
}

proof fn lemma_unround(start: int, m: int, slots: int)
    requires
        0 <= start < slots,
        0 <= m < slots,
    ensures
        (start + m) % slots == if start + m < slots {
            start + m
        } else {
            start + m - slots
        },
{
    if start + m < slots {
        div_mod::lemma_small_mod((start + m) as nat, slots as nat);
    } else {
        div_mod::lemma_mod_add_multiples_vanish(start + m - slots, slots);
        div_mod::lemma_small_mod((start + m - slots) as nat, slots as nat);
    }
}

/// A batch writes nothing outside the first 256 bytes of the buffers of its slots.
pub proof fn law_batch_leaves_rest(
    ring: BlockView,
    base: usize,
    mem: Seq<u8>,
    start: int,
    current: Seq<u32>,
    template: Seq<u32>,
    n: nat,
    k: int,
)
    requires
        crate::traffic::has_buffers(ring, base, mem.len(), start, n as int),
        0 <= k < mem.len(),
        forall|z: int|
            #![trigger ring.slot[(start + z) % (ring.header.num_slots as int)]]
            0 <= z < n ==> {
                let slot = ring.slot[(start + z) % (ring.header.num_slots as int)];
                let pos = ring.addr + ring.header.buf_ofs + slot.buf_idx * ring.header.nr_buf_size
                    - base;
                !(pos <= k < pos + 256)
            },
    ensures
        ({
            let filled = crate::traffic::filled_bytes(
                ring,
                base,
                mem,
                start,
                current,
                template,
                n,
            );
            filled.len() == mem.len() && filled[k] == mem[k]
        }),
    decreases n,
{
    if n > 0 {
        let m = (n - 1) as nat;
        law_batch_leaves_rest(ring, base, mem, start, current, template, m, k);
        let last = ring.slot_at(start, m as int);
        assert(ring.buf_within(last, 256, base, mem.len()));
        assert(ring.slot[(start + m) % (ring.header.num_slots as int)] == ring.slot[last]);
    }
}

/// The buffers of slots have room for a packet and its pattern exactly if 256 bytes from the start of
/// each lie in the memory.
pub proof fn law_room_for_packets(ring: BlockView, base: usize, size: nat, start: int, n: int)
    ensures
        crate::traffic::has_buffers(ring, base, size, start, n) <==> forall|z: int|
            #![trigger ring.slot[(start + z) % (ring.header.num_slots as int)]]
            0 <= z < n ==> {
                let slot = ring.slot[(start + z) % (ring.header.num_slots as int)];
                let at = ring.addr + ring.header.buf_ofs + slot.buf_idx * ring.header.nr_buf_size;
                base <= at && at + 256 <= base + size
            },
{
    let slots = ring.header.num_slots as int;
    if crate::traffic::has_buffers(ring, base, size, start, n) {
        assert forall|z: int| #![trigger ring.slot[(start + z) % slots]] 0 <= z < n implies {
            let slot = ring.slot[(start + z) % slots];
            let at = ring.addr + ring.header.buf_ofs + slot.buf_idx * ring.header.nr_buf_size;
            base <= at && at + 256 <= base + size
        } by {
            assert(ring.buf_within(ring.slot_at(start, z), 256, base, size));
        }
    } else {
        let z = choose|z: int|
            0 <= z < n && !ring.buf_within(#[trigger] ring.slot_at(start, z), 256, base, size);
        assert(ring.slot[(start + z) % slots] == ring.slot[ring.slot_at(start, z)]);
    }
}

} // verus!
