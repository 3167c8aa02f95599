use bitrange::example::Example;

#[test]
fn example_accessors() {
    let e = Example(0);
    assert!(!e.vblank());
    let e = e.with_raw(0b0000_0001);
    assert!(e.vblank());
    let e = e.with_hblank(true);
    assert_eq!(e.raw(), 0b0000_0011);
    let mut e = e.with_vcount_match(true);
    assert!(e.vcount_match());
    e.set_vcount_match(false);
    assert!(!e.vcount_match());
    let e = e.with_irq_mask(0b101);
    assert_eq!(e.irq_mask(), 0b101);
    assert_eq!(e.raw(), 0b0010_1011);
    let e = e.with_vcount_compare_low(0x9C);
    assert_eq!(e.vcount_compare_low(), 0x9C);
    assert_eq!(e.vcount_compare_high(), 0);
    assert_eq!(e.raw(), 0x9C2B);
}

#[test]
fn example_irq_mask_ignores_high_value_bits() {
    let e = Example(0xFFFF).with_irq_mask(0);
    assert_eq!(e.raw(), 0xFFC7);
    let e = Example(0).with_irq_mask(0xFF);
    assert_eq!(e.raw(), 0x0038);
}
