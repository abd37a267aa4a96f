use net_helper::fallback::{create_fallback_channel, FallbackRxRing, FallbackTxRing, PacketQueue};
use net_helper::Error;

#[test]
fn packets_come_out_in_order() {
    let (tx, rx) = create_fallback_channel(3);
    assert!(rx.recv().is_none());
    tx.send(&[1]).unwrap();
    tx.send(&[2, 2]).unwrap();
    assert_eq!(rx.recv().unwrap().payload(), &[1]);
    tx.send(&[]).unwrap();
    assert_eq!(rx.recv().unwrap().payload(), &[2, 2]);
    assert_eq!(rx.recv().unwrap().payload().len(), 0);
    assert!(rx.recv().is_none());
}

#[test]
fn full_channel_would_block() {
    let (tx, rx) = create_fallback_channel(2);
    tx.send(&[1]).unwrap();
    tx.send(&[2]).unwrap();
    assert!(matches!(tx.send(&[3]), Err(Error::WouldBlock)));
    assert_eq!(rx.recv().unwrap().payload(), &[1]);
    tx.send(&[4]).unwrap();
    assert_eq!(rx.recv().unwrap().payload(), &[2]);
    assert_eq!(rx.recv().unwrap().payload(), &[4]);
}

#[test]
fn channel_without_room_takes_nothing() {
    let (tx, rx) = create_fallback_channel(0);
    assert!(matches!(tx.send(&[1]), Err(Error::WouldBlock)));
    assert!(rx.recv().is_none());
}

#[test]
fn unconnected_ends() {
    let rx = FallbackRxRing::new(4);
    assert!(rx.recv().is_none());
    let tx = FallbackTxRing::new(1);
    tx.send(&[1]).unwrap();
    assert!(matches!(tx.send(&[2]), Err(Error::WouldBlock)));
}

#[test]
fn queue_gives_back_what_it_was_sent() {
    let mut queue = PacketQueue::new();
    assert!(queue.recv().is_none());
    assert!(queue.send(2, &[5, 6]).is_ok());
    assert!(queue.send(2, &[7]).is_ok());
    assert!(matches!(queue.send(2, &[8]), Err(Error::WouldBlock)));
    assert_eq!(queue.recv().unwrap(), vec![5, 6]);
    assert_eq!(queue.recv().unwrap(), vec![7]);
    assert!(queue.recv().is_none());
}

#[test]
fn fresh_channel_takes_its_size() {
    for max_size in [0usize, 1, 5] {
        let (tx, rx) = create_fallback_channel(max_size);
        for i in 0..max_size {
            assert!(tx.send(&[i as u8]).is_ok());
        }
        assert!(matches!(tx.send(&[99]), Err(Error::WouldBlock)));
        for i in 0..max_size {
            assert_eq!(rx.recv().unwrap().payload(), &[i as u8]);
        }
        assert!(rx.recv().is_none());
    }
}

#[test]
fn channels_do_not_mix() {
    let (tx, rx) = create_fallback_channel(2);
    let (other_tx, other_rx) = create_fallback_channel(2);
    tx.send(&[1]).unwrap();
    assert!(other_rx.recv().is_none());
    other_tx.send(&[2]).unwrap();
    assert_eq!(rx.recv().unwrap().payload(), &[1]);
    assert!(rx.recv().is_none());
}
