use net_helper::netmap::{nm_desc, NETMAP_RXRING, NETMAP_TXRING};
use net_helper::ring::RingBlock;
use net_helper::{netmap_if, netmap_ring, netmap_slot, nmreq, timeval, Error, NetmapBuilder};

fn name_of(req: &nmreq) -> String {
    req.nr_name.iter().take_while(|b| **b != 0).map(|b| *b as u8 as char).collect()
}

fn ring(addr: usize) -> RingBlock {
    RingBlock {
        addr,
        header: netmap_ring {
            buf_ofs: (0x9000 - addr) as i64,
            num_slots: 2,
            nr_buf_size: 16,
            ringid: 0,
            dir: 0,
            head: 0,
            cur: 0,
            tail: 1,
            flags: 0,
            ts: timeval { tv_sec: 0, tv_usec: 0 },
            sem: [0u8; 72],
        },
        slot: vec![
            netmap_slot { buf_idx: 0, len: 0, flags: 0, ptr: 0 },
            netmap_slot { buf_idx: 1, len: 0, flags: 0, ptr: 0 },
        ],
    }
}

/// An interface at 0x1000 with two rings to send on and two to receive on.
fn descriptor(mem: &mut [u8]) -> nm_desc<'_> {
    nm_desc {
        fd: 5,
        nifp: netmap_if {
            addr: 0x1000,
            ni_tx_rings: 2,
            ni_rx_rings: 2,
            ni_host_tx_rings: 0,
            ni_host_rx_rings: 0,
            ring_ofs: vec![0x100, 0x200, 0x300, 0x400],
        },
        rings: vec![ring(0x1100), ring(0x1200), ring(0x1300), ring(0x1400)],
        base: 0x9000,
        mem,
    }
}

/// An interface at 0x1000 with two rings in each direction, and rings of the host stack, two to
/// send on and one to receive on. Only these are bound: the others have no offset.
fn host_descriptor(mem: &mut [u8]) -> nm_desc<'_> {
    nm_desc {
        fd: 6,
        nifp: netmap_if {
            addr: 0x1000,
            ni_tx_rings: 2,
            ni_rx_rings: 2,
            ni_host_tx_rings: 2,
            ni_host_rx_rings: 1,
            ring_ofs: vec![0, 0, 0x300, 0x400, 0, 0, 0x700],
        },
        rings: vec![ring(0x1300), ring(0x1400), ring(0x1700)],
        base: 0x9000,
        mem,
    }
}

#[test]
fn plain_names_get_the_prefix() {
    let builder = NetmapBuilder::new("eth0");
    assert_eq!(builder.raw_name(), "netmap:eth0");
    let req = builder.build_nmreq().unwrap();
    assert_eq!(name_of(&req), "eth0");
    assert_eq!(req.nr_flags, 1);
    assert_eq!((req.nr_tx_rings, req.nr_rx_rings), (0, 0));
    assert_eq!(req.nr_version, 14);
}

#[test]
fn prefix_is_optional() {
    for name in ["eth0", "em1^", "", "vale0:1", "pipe{x}"] {
        let plain = NetmapBuilder::new(name);
        let again = NetmapBuilder::new(plain.raw_name());
        assert_eq!(plain.raw_name(), again.raw_name());
        let (a, b) = (plain.build_nmreq().unwrap(), again.build_nmreq().unwrap());
        assert_eq!(a.nr_name, b.nr_name);
        assert_eq!(a.nr_flags, b.nr_flags);
        assert_eq!(a.nr_tx_rings, b.nr_tx_rings);
    }
}

#[test]
fn caret_asks_for_host_rings() {
    let builder = NetmapBuilder::new("netmap:em1^").num_tx_rings(3).num_rx_rings(2);
    assert_eq!(builder.raw_name(), "netmap:em1^");
    let req = builder.build_nmreq().unwrap();
    assert_eq!(name_of(&req), "em1");
    assert_eq!(req.nr_flags, 2);
    assert_eq!((req.nr_tx_rings, req.nr_rx_rings), (3, 2));
    let none = NetmapBuilder::new("em1^").build_nmreq().unwrap();
    assert_eq!((none.nr_tx_rings, none.nr_rx_rings), (0, 0));
}

#[test]
fn switch_ports_and_pipes_keep_their_names() {
    let vale = NetmapBuilder::new("vale0:myport");
    assert_eq!(vale.raw_name(), "vale0:myport");
    assert_eq!(name_of(&vale.build_nmreq().unwrap()), "vale0:myport");
    let pipe = NetmapBuilder::new("pipe{myipc}");
    assert_eq!(pipe.raw_name(), "pipe{myipc}");
    let req = pipe.build_nmreq().unwrap();
    assert_eq!(name_of(&req), "pipe{myipc}");
    assert_eq!(req.nr_flags, 0);
    assert_eq!((req.nr_tx_rings, req.nr_rx_rings), (1, 1));
    let open = NetmapBuilder::new("pipe{123");
    assert_eq!(open.raw_name(), "pipe{123");
    let req = open.build_nmreq().unwrap();
    assert_eq!(name_of(&req), "pipe{123");
    assert_eq!((req.nr_flags, req.nr_tx_rings, req.nr_rx_rings), (0, 1, 1));
    let prefixed = NetmapBuilder::new("netmap:pipe{a}");
    assert_eq!(prefixed.raw_name(), "netmap:pipe{a}");
    assert_eq!(prefixed.build_nmreq().unwrap().nr_rx_rings, 1);
}

#[test]
fn host_rings_or_a_pipe() {
    let host = NetmapBuilder::new("pipe{a}^").build_nmreq().unwrap();
    assert_eq!(name_of(&host), "pipe{a}");
    assert_eq!((host.nr_flags, host.nr_tx_rings), (2, 0));
    let pipe = NetmapBuilder::new("pipe{^}").build_nmreq().unwrap();
    assert_eq!(name_of(&pipe), "pipe{^}");
    assert_eq!((pipe.nr_flags, pipe.nr_tx_rings), (0, 1));
}

#[test]
fn ring_counts_go_into_the_request() {
    let req = NetmapBuilder::new("eth0").num_tx_rings(4).num_rx_rings(65_538).build_nmreq();
    let req = req.unwrap();
    assert_eq!((req.nr_tx_rings, req.nr_rx_rings), (4, 2));
    let pipe = NetmapBuilder::new("pipe{p}").num_tx_rings(0).num_rx_rings(3).build_nmreq();
    let pipe = pipe.unwrap();
    assert_eq!((pipe.nr_tx_rings, pipe.nr_rx_rings), (1, 3));
    let none = NetmapBuilder::new("eth0").num_tx_rings(7).num_tx_rings(0).build_nmreq();
    assert_eq!(none.unwrap().nr_tx_rings, 0);
}

#[test]
fn flags_are_kept() {
    let nic = NetmapBuilder::new("eth0").flags(0x104).build_nmreq().unwrap();
    assert_eq!(nic.nr_flags, 0x105);
    let host = NetmapBuilder::new("eth0^").flags(0x104).build_nmreq().unwrap();
    assert_eq!(host.nr_flags, 0x106);
    let pipe = NetmapBuilder::new("pipe{a}").flags(0x104).build_nmreq().unwrap();
    assert_eq!(pipe.nr_flags, 0x104);
}

#[test]
fn rest_of_the_request_is_zero() {
    let req = NetmapBuilder::new("eth0").build_nmreq().unwrap();
    assert_eq!((req.nr_offset, req.nr_memsize, req.nr_tx_slots, req.nr_rx_slots), (0, 0, 0, 0));
    assert_eq!((req.nr_ringid, req.nr_cmd, req.nr_arg1, req.nr_arg2), (0, 0, 0, 0));
    assert_eq!((req.nr_arg3, req.spare2), (0, [0]));
}

#[test]
fn long_names_are_refused() {
    let fits = NetmapBuilder::new("abcdefghijklmno");
    assert_eq!(name_of(&fits.build_nmreq().unwrap()), "abcdefghijklmno");
    assert_eq!(fits.build_nmreq().unwrap().nr_name[15], 0);
    let long = NetmapBuilder::new("abcdefghijklmnop");
    match long.build_nmreq() {
        Err(Error::BindFail(why)) => {
            assert_eq!(why, "Base interface name 'abcdefghijklmnop' is too long.")
        }
        _ => panic!("a name of 16 bytes does not fit"),
    }
    // the length counts bytes, and the caret does not count
    assert!(NetmapBuilder::new("abcdefghijklmno^").build_nmreq().is_ok());
    assert!(NetmapBuilder::new("\u{e9}\u{e9}\u{e9}\u{e9}\u{e9}\u{e9}\u{e9}\u{e9}").build_nmreq().is_err());
    let req = NetmapBuilder::new("\u{e9}").build_nmreq().unwrap();
    assert_eq!(&req.nr_name[0..3], &[-61, -87, 0]);
}

#[test]
fn names_with_nul_cannot_be_opened() {
    let builder = NetmapBuilder::new("a\0b");
    assert!(builder.build_nmreq().is_ok());
    match builder.open_request() {
        Err(Error::BindFail(why)) => assert_eq!(why, "Invalid raw interface name: netmap:a\0b"),
        _ => panic!("NUL ends a name"),
    }
    assert!(NetmapBuilder::new("ab").open_request().is_ok());
}

#[test]
fn failure_to_open_is_reported() {
    let builder = NetmapBuilder::new("eth9");
    match builder.build(Err("No such device (os error 19)".to_string())) {
        Err(Error::BindFail(why)) => assert_eq!(
            why,
            "Failed to open interface via nm_open for 'netmap:eth9'. Errno: No such device (os error 19)"
        ),
        _ => panic!("nothing was opened"),
    }
    let mut mem = vec![0u8; 32];
    let refused = NetmapBuilder::new("abcdefghijklmnop").build(Ok(descriptor(&mut mem)));
    assert!(matches!(refused, Err(Error::BindFail(_))));
}

#[test]
fn rings_are_counted_by_kind() {
    let mut mem = vec![0u8; 32];
    let nic = NetmapBuilder::new("eth0").build(Ok(descriptor(&mut mem))).ok().unwrap();
    assert_eq!((nic.num_tx_rings(), nic.num_rx_rings(), nic.is_host_if()), (2, 2, false));
    assert_eq!(nic.desc.fd, 5);
    let host = NetmapBuilder::new("eth0^").build(Ok(host_descriptor(&mut mem))).ok().unwrap();
    assert_eq!((host.num_tx_rings(), host.num_rx_rings(), host.is_host_if()), (2, 1, true));
    let pipe = NetmapBuilder::new("pipe{a}").build(Ok(descriptor(&mut mem))).ok().unwrap();
    assert_eq!((pipe.num_tx_rings(), pipe.num_rx_rings(), pipe.is_host_if()), (2, 2, false));
}

#[test]
fn ring_addresses_come_from_the_offsets() {
    let mut mem = vec![0u8; 32];
    let desc = descriptor(&mut mem);
    assert_eq!(NETMAP_TXRING(&desc.nifp, 0), 0x1100);
    assert_eq!(NETMAP_TXRING(&desc.nifp, 1), 0x1200);
    assert_eq!(NETMAP_RXRING(&desc.nifp, 0), 0x1300);
    assert_eq!(NETMAP_RXRING(&desc.nifp, 1), 0x1400);
}

#[test]
fn rings_are_found_by_index() {
    let mut mem = vec![0u8; 32];
    let mut nic = NetmapBuilder::new("eth0").build(Ok(descriptor(&mut mem))).ok().unwrap();
    assert!(nic.is_tx_ring_valid(1));
    assert!(nic.is_rx_ring_valid(1));
    assert!(!nic.is_rx_ring_valid(usize::MAX));
    let tx = nic.tx_ring(1).ok().unwrap();
    assert_eq!((tx.0.index(), tx.0.ring.addr), (1, 0x1200));
    let rx = nic.rx_ring(1).ok().unwrap();
    assert_eq!((rx.0.index(), rx.0.ring.addr), (1, 0x1400));
    assert!(matches!(nic.tx_ring(2), Err(Error::InvalidRingIndex(2))));
    assert!(matches!(nic.rx_ring(7), Err(Error::InvalidRingIndex(7))));
}

#[test]
fn host_rings_follow_the_others() {
    let mut mem = vec![0u8; 32];
    let mut host = NetmapBuilder::new("eth0^").build(Ok(host_descriptor(&mut mem))).ok().unwrap();
    assert!(host.is_tx_ring_valid(1));
    assert!(host.is_rx_ring_valid(0));
    assert_eq!(host.tx_ring(0).ok().unwrap().0.ring.addr, 0x1300);
    assert_eq!(host.tx_ring(1).ok().unwrap().0.ring.addr, 0x1400);
    assert_eq!(host.rx_ring(0).ok().unwrap().0.ring.addr, 0x1700);
    assert!(matches!(host.tx_ring(2), Err(Error::InvalidRingIndex(2))));
    assert!(matches!(host.rx_ring(1), Err(Error::InvalidRingIndex(1))));
    // the rings of the network card are not bound
    let nic = NetmapBuilder::new("eth0").build(Ok(host_descriptor(&mut mem))).ok().unwrap();
    assert!(!nic.is_tx_ring_valid(0));
}

#[test]
fn packets_go_through_the_rings_of_an_interface() {
    let mut mem = vec![0u8; 32];
    {
        let mut nm = NetmapBuilder::new("eth0").build(Ok(descriptor(&mut mem))).ok().unwrap();
        nm.tx_ring(0).ok().unwrap().send(&[1, 2]).ok().unwrap();
        assert_eq!(nm.desc.rings[0].header.head, 1);
        assert_eq!(nm.desc.rings[1].header.head, 0);
        nm.desc.rings[2].slot[0].len = 2;
        let mut rx = nm.rx_ring(0).ok().unwrap();
        assert_eq!(rx.recv().unwrap().payload(), &[1, 2]);
    }
    assert_eq!(&mem[0..3], &[1, 2, 0]);
}
