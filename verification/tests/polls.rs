use net_helper::ring::RingBlock;
use net_helper::tokio_async::{
    poll_read, poll_write, start_read, start_write, sync_event, PollEvent, ReadAction, ReadPoll,
    WriteAction,
};
use net_helper::{netmap_ring, netmap_slot, timeval, Error, RxRing, TxRing};

const RING_ADDR: usize = 0x1000;
const BUF_OFS: i64 = 0x800;
const BASE: usize = 0x1800;

fn header(num_slots: u32, nr_buf_size: u32, head: u32, tail: u32) -> netmap_ring {
    netmap_ring {
        buf_ofs: BUF_OFS,
        num_slots,
        nr_buf_size,
        ringid: 0,
        dir: 0,
        head,
        cur: head,
        tail,
        flags: 0,
        ts: timeval { tv_sec: 0, tv_usec: 0 },
        sem: [0u8; 72],
    }
}

fn block(num_slots: u32, nr_buf_size: u32, head: u32, tail: u32) -> RingBlock {
    let slot = (0..num_slots)
        .map(|i| netmap_slot { buf_idx: num_slots - 1 - i, len: 0, flags: 0, ptr: 0 })
        .collect();
    RingBlock { addr: RING_ADDR, header: header(num_slots, nr_buf_size, head, tail), slot }
}

/// Where the buffer of a slot starts in the memory of a ring made by `block`.
fn pos(ring: &RingBlock, slot: usize) -> usize {
    ring.slot[slot].buf_idx as usize * ring.header.nr_buf_size as usize
}

#[test]
fn polls_start() {
    assert_eq!(start_read(), ReadAction::Await(ReadPoll::Sync));
    assert_eq!(start_write(), PollEvent::Ready);
}

#[test]
fn failed_synchronisation_ends_a_read() {
    let mut ring = block(4, 16, 1, 3);
    let mut mem = vec![0u8; 64];
    let mut rx = RxRing::new(&mut ring, &mut mem, BASE, 0);
    assert_eq!(sync_event(-1), PollEvent::Failed);
    assert_eq!(sync_event(0), PollEvent::Ready);
    assert_eq!(poll_read(&mut rx, sync_event(-1), 8), ReadAction::Fail);
    assert_eq!((ring.header.head, ring.header.cur, ring.header.tail), (1, 1, 3));
}

#[test]
fn empty_ring_waits_to_become_readable() {
    let mut ring = block(4, 16, 1, 1);
    let mut mem = vec![0u8; 64];
    let mut rx = RxRing::new(&mut ring, &mut mem, BASE, 0);
    let wait = ReadAction::Await(ReadPoll::Readable);
    assert_eq!(poll_read(&mut rx, PollEvent::Ready, 8), wait);
    // the descriptor was readable, but no packet came: the poll waits again
    assert_eq!(poll_read(&mut rx, PollEvent::Ready, 8), wait);
    assert_eq!(poll_read(&mut rx, PollEvent::Pending, 8), ReadAction::Pending);
    assert_eq!(poll_read(&mut rx, PollEvent::Failed, 8), ReadAction::Fail);
    assert_eq!((ring.header.head, ring.header.cur, ring.header.tail), (1, 1, 1));
}

#[test]
fn packets_that_came_while_waiting_are_delivered() {
    let mut ring = block(4, 16, 1, 1);
    ring.slot[1].len = 1;
    let mut mem = vec![0u8; 64];
    let at = pos(&ring, 1);
    mem[at] = 9;
    let mut rx = RxRing::new(&mut ring, &mut mem, BASE, 0);
    assert_eq!(
        poll_read(&mut rx, PollEvent::Ready, 8),
        ReadAction::Await(ReadPoll::Readable)
    );
    rx.0.ring.header.tail = 3;
    assert_eq!(poll_read(&mut rx, PollEvent::Ready, 8), ReadAction::Deliver(vec![9]));
    assert_eq!((ring.header.head, ring.header.cur, ring.header.tail), (2, 2, 3));
}

#[test]
fn read_takes_the_oldest_packet_and_what_fits() {
    let mut ring = block(4, 16, 3, 2);
    ring.slot[3].len = 5;
    ring.slot[0].len = 2;
    ring.slot[1].len = 4;
    ring.slot[2].len = 7;
    let mut mem = vec![0u8; 64];
    let at = pos(&ring, 3);
    mem[at..at + 5].copy_from_slice(&[1, 2, 3, 4, 5]);
    let at = pos(&ring, 0);
    mem[at..at + 2].copy_from_slice(&[6, 7]);
    let mut rx = RxRing::new(&mut ring, &mut mem, BASE, 0);
    assert_eq!(poll_read(&mut rx, PollEvent::Ready, 3), ReadAction::Deliver(vec![1, 2, 3]));
    assert_eq!((rx.0.ring.header.head, rx.0.ring.header.cur), (0, 0));
    assert_eq!(poll_read(&mut rx, PollEvent::Ready, 100), ReadAction::Deliver(vec![6, 7]));
    assert_eq!(poll_read(&mut rx, PollEvent::Ready, 0), ReadAction::Deliver(vec![]));
    assert_eq!(
        poll_read(&mut rx, PollEvent::Ready, 8),
        ReadAction::Await(ReadPoll::Readable)
    );
    assert_eq!((ring.header.head, ring.header.cur, ring.header.tail), (2, 2, 2));
}

#[test]
fn written_packet_is_read() {
    let mut ring = block(4, 16, 1, 0);
    let mut mem = vec![0u8; 64];
    let mut tx = TxRing::new(&mut ring, &mut mem, BASE, 0);
    assert!(matches!(poll_write(&mut tx, PollEvent::Ready, &[3, 1]), WriteAction::Wrote(2)));
    let mut other = block(4, 16, 1, 2);
    other.slot = ring.slot;
    let mut rx = RxRing::new(&mut other, &mut mem, BASE, 0);
    assert_eq!(poll_read(&mut rx, PollEvent::Ready, 16), ReadAction::Deliver(vec![3, 1]));
}

#[test]
fn write_fills_the_slot_at_head() {
    let mut ring = block(4, 16, 3, 2);
    ring.slot[3].flags = 7;
    let mut mem = vec![0u8; 64];
    let at = pos(&ring, 3);
    let mut tx = TxRing::new(&mut ring, &mut mem, BASE, 0);
    assert!(matches!(poll_write(&mut tx, PollEvent::Ready, &[6, 7]), WriteAction::Wrote(2)));
    assert_eq!((ring.header.head, ring.header.cur, ring.header.tail), (0, 0, 2));
    assert_eq!((ring.slot[3].len, ring.slot[3].flags), (2, 0));
    assert_eq!(&mem[at..at + 2], &[6, 7]);
}

#[test]
fn full_ring_waits_to_become_writable() {
    let mut ring = block(4, 16, 3, 0);
    let mut mem = vec![0u8; 64];
    let mut tx = TxRing::new(&mut ring, &mut mem, BASE, 0);
    assert!(tx.reserve_all().is_err());
    assert!(matches!(poll_write(&mut tx, PollEvent::Ready, &[]), WriteAction::AwaitWritable));
    assert!(matches!(poll_write(&mut tx, PollEvent::Pending, &[1]), WriteAction::Pending));
    assert!(matches!(poll_write(&mut tx, PollEvent::Failed, &[1]), WriteAction::Fail));
    assert_eq!(ring.header.head, 3);
}

#[test]
fn writes_of_no_or_too_many_bytes() {
    let mut ring = block(4, 16, 0, 2);
    let mut mem = vec![0u8; 64];
    let mut tx = TxRing::new(&mut ring, &mut mem, BASE, 0);
    assert!(matches!(poll_write(&mut tx, PollEvent::Ready, &[]), WriteAction::Wrote(0)));
    assert!(matches!(
        poll_write(&mut tx, PollEvent::Ready, &[0u8; 17]),
        WriteAction::Reject(Error::PacketTooLarge(17))
    ));
    assert_eq!(ring.header.head, 0);
}
