use rocket_radio::symbol::{Packet, Symbol};

#[test]
fn symbol_keeps_its_parts() {
    let s = Symbol::new(17, 0x3f80_0000, 0xbe80_0000);
    assert_eq!(s.value, 17);
    assert_eq!(s.snr_bits, 0x3f80_0000);
    assert_eq!(s.adj_bits, 0xbe80_0000);
    assert_eq!(f32::from_bits(s.snr_bits), 1.0);
    assert_eq!(f32::from_bits(s.adj_bits), -0.25);
}

#[test]
fn packet_lists_its_values_in_order() {
    let p = Packet::new(vec![Symbol::new(3, 0, 0), Symbol::new(1, 0, 0), Symbol::new(255, 0, 0)]);
    assert_eq!(p.values(), vec![3, 1, 255]);
    assert_eq!(p.symbols.len(), 3);
    assert_eq!(Packet::new(Vec::new()).values(), Vec::<usize>::new());
}
