use net_helper::ring::{BatchReservation, RingBlock, SyncCall};
use net_helper::{netmap_ring, netmap_slot, timeval, Error, Frame, Ring, RxRing, TxRing};

const RING_ADDR: usize = 0x1000;
const BUF_OFS: i64 = 0x800;
const BASE: usize = 0x1800;

fn header(num_slots: u32, nr_buf_size: u32, head: u32, tail: u32) -> netmap_ring {
    netmap_ring {
        buf_ofs: BUF_OFS,
        num_slots,
        nr_buf_size,
        ringid: 0,
        dir: 0,
        head,
        cur: head,
        tail,
        flags: 0,
        ts: timeval { tv_sec: 0, tv_usec: 0 },
        sem: [0u8; 72],
    }
}

fn block(num_slots: u32, nr_buf_size: u32, head: u32, tail: u32) -> RingBlock {
    let slot = (0..num_slots)
        .map(|i| netmap_slot { buf_idx: num_slots - 1 - i, len: 0, flags: 0, ptr: 0 })
        .collect();
    RingBlock { addr: RING_ADDR, header: header(num_slots, nr_buf_size, head, tail), slot }
}

/// Where the buffer of a slot starts in the memory of a ring made by `block`.
fn pos(ring: &RingBlock, slot: usize) -> usize {
    ring.slot[slot].buf_idx as usize * ring.header.nr_buf_size as usize
}

#[test]
fn ring_reports_number_and_size() {
    let mut ring = block(8, 64, 0, 0);
    let mut mem = vec![0u8; 512];
    let handle = Ring::new(&mut ring, &mut mem, BASE, 3);
    assert_eq!(handle.index(), 3);
    assert_eq!(handle.num_slots(), 8);
    let tx = TxRing(handle);
    assert_eq!(tx.max_payload_size(), 64);
}

#[test]
fn send_fills_the_current_slot_and_moves_on() {
    let mut ring = block(4, 64, 1, 0);
    let mut mem = vec![0u8; 256];
    let at = pos(&ring, 1);
    let mut tx = TxRing::new(&mut ring, &mut mem, BASE, 0);
    assert!(tx.send(&[9, 8, 7]).is_ok());
    assert_eq!(ring.header.head, 2);
    assert_eq!(ring.header.cur, 2);
    assert_eq!(ring.header.tail, 0);
    assert_eq!(ring.slot[1].len, 3);
    assert_eq!(&mem[at..at + 4], &[9, 8, 7, 0]);
    assert_eq!(mem.iter().filter(|b| **b != 0).count(), 3);
}

#[test]
fn send_wraps_at_the_end_of_the_ring() {
    let mut ring = block(4, 64, 3, 2);
    let mut mem = vec![0u8; 256];
    let mut tx = TxRing::new(&mut ring, &mut mem, BASE, 0);
    assert!(tx.send(&[1]).is_ok());
    assert_eq!(ring.header.head, 0);
    assert_eq!(ring.header.cur, 0);
}

#[test]
fn send_refuses_large_packets_before_it_looks_for_room() {
    let mut ring = block(4, 64, 1, 1);
    let mut mem = vec![0u8; 256];
    let mut tx = TxRing::new(&mut ring, &mut mem, BASE, 0);
    assert!(matches!(tx.send(&[0u8; 65]), Err(Error::PacketTooLarge(65))));
    assert!(matches!(tx.send(&[0u8; 64]), Err(Error::InsufficientSpace)));
    assert_eq!(ring.header.head, 1);
}

#[test]
fn send_keeps_sixteen_bits_of_a_length() {
    let mut ring = block(2, 70_000, 0, 1);
    let mut mem = vec![0u8; 140_000];
    let mut tx = TxRing::new(&mut ring, &mut mem, BASE, 0);
    assert!(tx.send(&vec![5u8; 65_537]).is_ok());
    assert_eq!(ring.slot[0].len, 1);
    assert_eq!(mem[pos(&ring, 0) + 65_536], 5);
}

#[test]
fn each_packet_sent_takes_a_slot() {
    let mut ring = block(8, 64, 6, 3);
    let mut mem = vec![0u8; 512];
    let mut tx = TxRing::new(&mut ring, &mut mem, BASE, 0);
    let mut sent = 0;
    while tx.send(&[1]).is_ok() {
        sent += 1;
    }
    assert_eq!(sent, 5);
    assert!(matches!(tx.send(&[1]), Err(Error::InsufficientSpace)));
}

#[test]
fn reserve_batch_counts_free_slots() {
    // used = (2 - 6 + 8) % 8 = 4, free = 3
    let mut ring = block(8, 64, 2, 6);
    let mut mem = vec![0u8; 512];
    let mut tx = TxRing::new(&mut ring, &mut mem, BASE, 0);
    assert!(matches!(tx.reserve_batch(4), Err(Error::InsufficientSpace)));
    let batch = tx.reserve_batch(3).unwrap();
    assert_eq!(batch.start, 2);
    assert_eq!(batch.count, 3);
    batch.commit(3);
    assert_eq!(ring.header.head, 5);
    assert_eq!(ring.header.cur, 5);
}

#[test]
fn reserve_all_takes_all_but_one() {
    let mut ring = block(8, 64, 5, 5);
    let mut mem = vec![0u8; 512];
    let mut tx = TxRing::new(&mut ring, &mut mem, BASE, 0);
    let (batch, count) = tx.reserve_all().unwrap();
    assert_eq!(count, 7);
    batch.commit(count);
    assert!(matches!(tx.reserve_all(), Err(Error::InsufficientSpace)));
    assert_eq!(ring.header.head, 4);
}

#[test]
fn reserve_all_fails_on_a_full_ring() {
    let mut ring = block(8, 64, 4, 5);
    let mut mem = vec![0u8; 512];
    let mut tx = TxRing::new(&mut ring, &mut mem, BASE, 0);
    assert!(matches!(tx.reserve_all(), Err(Error::InsufficientSpace)));
    assert!(tx.reserve_batch(0).is_ok());
}

#[test]
fn batch_packets_wrap_and_do_not_overlap() {
    let mut ring = block(4, 8, 3, 3);
    let mut mem = vec![0u8; 32];
    let mut tx = TxRing::new(&mut ring, &mut mem, BASE, 0);
    {
        let (mut batch, count) = tx.reserve_all().unwrap();
        assert_eq!(count, 3);
        for i in 0..count {
            let bytes = batch.packet(i, 8).unwrap();
            assert_eq!(bytes.len(), 8);
            for b in bytes.iter_mut() {
                *b = i as u8 + 1;
            }
        }
        assert!(matches!(batch.packet(3, 8), Err(Error::InvalidRingIndex(3))));
        batch.commit(2);
    }
    assert_eq!(ring.header.head, 1);
    for (i, slot) in [3usize, 0, 1].iter().enumerate() {
        let at = pos(&ring, *slot);
        assert_eq!(ring.slot[*slot].len, 8);
        assert_eq!(&mem[at..at + 8], &[i as u8 + 1; 8]);
    }
}

#[test]
fn commit_takes_no_more_than_reserved_and_nothing_for_nothing() {
    let mut ring = block(8, 8, 1, 1);
    let mut mem = vec![0u8; 64];
    let mut tx = TxRing::new(&mut ring, &mut mem, BASE, 0);
    let batch: BatchReservation<'_> = tx.reserve_batch(2).unwrap();
    batch.commit(0);
    assert_eq!(tx.0.ring.header.head, 1);
    let batch = tx.reserve_batch(2).unwrap();
    batch.commit(100);
    assert_eq!(ring.header.head, 3);
}

#[test]
fn commit_takes_its_packets_from_the_free_slots() {
    let mut ring = block(16, 8, 14, 3);
    let mut mem = vec![0u8; 128];
    let mut tx = TxRing::new(&mut ring, &mut mem, BASE, 0);
    let free = tx.reserve_all().map(|(_, count)| count).unwrap();
    assert_eq!(free, 4);
    tx.reserve_batch(3).unwrap().commit(3);
    let left = tx.reserve_all().map(|(_, count)| count).unwrap();
    assert_eq!(left, 1);
}

#[test]
fn recv_reads_one_packet() {
    let mut ring = block(4, 64, 3, 1);
    ring.slot[3].len = 3;
    let mut mem = vec![0u8; 256];
    let at = pos(&ring, 3);
    mem[at..at + 3].copy_from_slice(&[4, 5, 6]);
    let mut rx = RxRing::new(&mut ring, &mut mem, BASE, 0);
    assert_eq!(rx.recv().unwrap().payload(), &[4, 5, 6]);
    // slot 0 holds an empty packet
    assert_eq!(rx.recv().unwrap().payload().len(), 0);
    assert!(rx.recv().is_none());
    assert_eq!(ring.header.head, 1);
    assert_eq!(ring.header.cur, 1);
}

#[test]
fn recv_batch_is_recv_again_and_again() {
    let mut first = block(4, 64, 2, 1);
    let mut second = block(4, 64, 2, 1);
    let mut mem = vec![0u8; 256];
    for i in 0..4usize {
        first.slot[i].len = i as u16 + 1;
        second.slot[i].len = i as u16 + 1;
        mem[pos(&first, i)] = 10 + i as u8;
    }
    let mut other_mem = mem.clone();
    let mut singles: Vec<Vec<u8>> = Vec::new();
    let mut rx = RxRing::new(&mut first, &mut mem, BASE, 0);
    while let Some(frame) = rx.recv() {
        singles.push(frame.payload().to_vec());
    }
    assert_eq!(singles.len(), 3);
    let mut rx = RxRing::new(&mut second, &mut other_mem, BASE, 0);
    {
        let mut batch: Vec<Frame<'_>> = (0..5).map(|_| Frame::new(&[])).collect();
        let count = rx.recv_batch(&mut batch);
        assert_eq!(count, 3);
        for i in 0..count {
            assert_eq!(batch[i].payload(), &singles[i][..]);
        }
    }
    assert_eq!(first.header.head, second.header.head);
    assert_eq!(second.header.cur, 1);
}

#[test]
fn recv_batch_stops_at_the_end_of_the_batch() {
    let mut ring = block(8, 64, 1, 6);
    let mut mem = vec![0u8; 512];
    let mut rx = RxRing::new(&mut ring, &mut mem, BASE, 0);
    {
        let mut batch: Vec<Frame<'_>> = vec![Frame::new(&[]), Frame::new(&[])];
        assert_eq!(rx.recv_batch(&mut batch), 2);
    }
    assert_eq!(ring.header.head, 3);
    let mut rx = RxRing::new(&mut ring, &mut mem, BASE, 0);
    assert_eq!(rx.recv_batch(&mut []), 0);
    assert_eq!(ring.header.head, 3);
}

#[test]
fn sent_packets_are_received() {
    let mut tx_ring = block(4, 64, 0, 3);
    let mut mem = vec![0u8; 256];
    let packets: [&[u8]; 3] = [&[1, 2, 3], &[], &[7; 64]];
    let mut tx = TxRing::new(&mut tx_ring, &mut mem, BASE, 0);
    for packet in packets {
        assert!(tx.send(packet).is_ok());
    }
    assert!(matches!(tx.send(&[1]), Err(Error::InsufficientSpace)));
    // the other end sees the same slots
    let mut rx_ring = RingBlock {
        addr: RING_ADDR,
        header: header(4, 64, 0, 3),
        slot: tx_ring.slot.clone(),
    };
    let mut rx = RxRing::new(&mut rx_ring, &mut mem, BASE, 0);
    for packet in packets {
        assert_eq!(rx.recv().unwrap().payload(), packet);
    }
    assert!(rx.recv().is_none());
}

#[test]
fn validity_of_a_ring_is_tested() {
    let ring = block(4, 64, 0, 3);
    assert!(ring.is_valid(BASE, 256));
    assert!(!ring.is_valid(BASE, 255));
    assert!(!ring.is_valid(BASE + 1, 256));
    assert!(ring.has_valid_packets(BASE, 256));
    let mut long = block(4, 64, 0, 3);
    long.slot[0].len = 65;
    assert!(!long.has_valid_packets(BASE, 256));
    // the kernel owns slot 0 then, and nothing there is read
    long.header.head = 1;
    assert!(long.has_valid_packets(BASE, 256));
    let mut out = block(4, 64, 0, 3);
    out.header.tail = 4;
    assert!(!out.is_valid(BASE, 256));
}

#[test]
fn first_packet_is_received_whatever_lies_behind_it() {
    let mut ring = block(4, 64, 2, 0);
    ring.slot[2].len = 1;
    ring.slot[3].len = u16::MAX;
    assert!(!ring.has_valid_packets(BASE, 256));
    let mut mem = vec![0u8; 256];
    let at = pos(&ring, 2);
    mem[at] = 7;
    let mut rx = RxRing::new(&mut ring, &mut mem, BASE, 0);
    assert_eq!(rx.recv().unwrap().payload(), &[7]);
    assert_eq!(ring.header.head, 3);
}

#[test]
fn buffers_may_lie_before_the_ring() {
    let mut ring = block(2, 16, 0, 1);
    ring.addr = BASE + 0x1000;
    ring.header.buf_ofs = -0x1000;
    ring.slot[0].len = 2;
    let mut mem = vec![0u8; 32];
    let at = pos(&ring, 0);
    mem[at..at + 2].copy_from_slice(&[8, 9]);
    assert!(ring.is_valid(BASE, 32));
    let mut rx = RxRing::new(&mut ring, &mut mem, BASE, 0);
    assert_eq!(rx.recv().unwrap().payload(), &[8, 9]);
}

#[test]
fn synchronisation_calls() {
    let mut ring = block(4, 64, 0, 3);
    let mut mem = vec![0u8; 256];
    let tx = TxRing::new(&mut ring, &mut mem, BASE, 0);
    assert_eq!(tx.sync(), SyncCall::PollOut { timeout_ms: 10 });
    assert_eq!(tx.sync_ioctl(), SyncCall::TxSync { request: 0x6994 });
    assert!(tx.sync().is_failure(-1, true));
    assert!(!tx.sync().is_failure(0, false));
    assert!(!tx.sync_ioctl().is_failure(-1, true));
    assert!(tx.sync_ioctl().is_failure(-1, false));
    let rx = RxRing::new(&mut ring, &mut mem, BASE, 0);
    assert_eq!(rx.sync(), SyncCall::RxSync { request: 0x6995 });
    assert!(rx.sync().is_failure(-1, true));
}
