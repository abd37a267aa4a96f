use net_helper::ring::RingBlock;
use net_helper::traffic::{headers, next_headers, write_packet, Traffic};
use net_helper::{netmap_ring, netmap_slot, timeval, TxRing};

const RING_ADDR: usize = 0x1000;
const BUF_OFS: i64 = 0x800;
const BASE: usize = 0x1800;

fn header(num_slots: u32, nr_buf_size: u32, head: u32, tail: u32) -> netmap_ring {
    netmap_ring {
        buf_ofs: BUF_OFS,
        num_slots,
        nr_buf_size,
        ringid: 0,
        dir: 0,
        head,
        cur: head,
        tail,
        flags: 0,
        ts: timeval { tv_sec: 0, tv_usec: 0 },
        sem: [0u8; 72],
    }
}

fn block(num_slots: u32, nr_buf_size: u32, head: u32, tail: u32) -> RingBlock {
    let slot = (0..num_slots)
        .map(|i| netmap_slot { buf_idx: num_slots - 1 - i, len: 0, flags: 0, ptr: 0 })
        .collect();
    RingBlock { addr: RING_ADDR, header: header(num_slots, nr_buf_size, head, tail), slot }
}

/// Where the buffer of a slot starts in the memory of a ring made by `block`.
fn pos(ring: &RingBlock, slot: usize) -> usize {
    ring.slot[slot].buf_idx as usize * ring.header.nr_buf_size as usize
}

const DST: u64 = 0xDDCCBBAA2211;
const SRC: u64 = 0xFFEE66554433;

#[test]
fn headers_hold_the_addresses() {
    let lanes = headers(DST, SRC);
    assert_eq!(lanes[0], 0xDDCCBBAA);
    assert_eq!(lanes[1], 0x2211FFEE);
    assert_eq!(lanes[2], 0x66554433);
    assert_eq!(&lanes[3..7], &[0x45000800, 0x0001002E, 0x40114000, 0xC0A80005]);
    assert_eq!(&lanes[7..10], &[0xC0A80101, 0x0050010A, 0x001A1F90]);
    assert_eq!(&lanes[10..], &[0; 6]);
}

#[test]
fn only_lane_six_counts() {
    let first = headers(DST, SRC);
    let mut lanes = first;
    for n in 1..=70_000u32 {
        lanes = next_headers(&lanes, &first);
        let mut expected = first;
        expected[6] = 0xC0A80005u32.wrapping_sub(n.wrapping_mul(0x10000));
        assert_eq!(lanes, expected);
    }
}

#[test]
fn skipped_value_is_stepped_over() {
    let template = [1u32; 16];
    let mut current = [2u32; 16];
    current[6] = 0x1C0A8;
    let next = next_headers(&current, &template);
    assert_eq!(next[6], 0xFFFFC0A8);
    assert_eq!((next[4], next[7]), (2, 2));
    assert_eq!((next[8], next[9], next[0]), (1, 1, 1));
}

#[test]
fn buffers_hold_headers_and_pattern() {
    let mut dst = vec![0u8; 256];
    write_packet(&mut dst, &headers(DST, SRC));
    assert_eq!(&dst[0..8], &[0xAA, 0xBB, 0xCC, 0xDD, 0xEE, 0xFF, 0x11, 0x22]);
    assert_eq!(&dst[24..28], &[0x05, 0x00, 0xA8, 0xC0]);
    assert_eq!(dst[63], 0);
    assert_eq!((dst[64], dst[127], dst[128], dst[191], dst[192], dst[255]), (0xAA, 0xAA, 0xBB, 0xBB, 0xCC, 0xCC));
}

#[test]
fn a_step_fills_all_free_slots() {
    let mut ring = block(4, 256, 2, 2);
    let mut mem = vec![0u8; 1024];
    let mut traffic = Traffic::new();
    let mut tx = TxRing::new(&mut ring, &mut mem, BASE, 0);
    assert!(traffic.step(&mut tx));
    assert!(!traffic.step(&mut tx));
    assert_eq!((ring.header.head, ring.header.cur), (1, 1));
    for (n, slot) in [2usize, 3, 0].iter().enumerate() {
        let at = pos(&ring, *slot);
        assert_eq!(ring.slot[*slot].len, 64);
        assert_eq!(&mem[at + 24..at + 28], &[0x05, 0x00, 0xA8 - n as u8, 0xC0]);
        assert_eq!(mem[at + 255], 0xCC);
    }
    assert_eq!(ring.slot[1].len, 0);
}

#[test]
fn stream_counts_turns_and_batches() {
    let mut ring = block(2, 256, 0, 0);
    let mut mem = vec![0u8; 512];
    let mut traffic = Traffic::new();
    let mut batches = 0;
    while !traffic.is_done() {
        let mut tx = TxRing::new(&mut ring, &mut mem, BASE, 0);
        if traffic.step(&mut tx) {
            batches += 1;
            ring.header.tail = ring.header.head;
        }
    }
    assert_eq!(batches, 50_000);
}
