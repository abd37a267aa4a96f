use net_helper::netmap_ring;

#[test]
fn test_struct_sizes() {
    assert_eq!(std::mem::size_of::<netmap_ring>(), 128);
}
