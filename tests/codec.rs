use ledcore::rmt::RmtItem;

#[test]
fn item_round_trip() {
    let cases: [(u16, bool, u16, bool); 6] = [
        (0, false, 0, false),
        (0x7fff, true, 0x7fff, true),
        (7, true, 16, false),
        (15, false, 12, true),
        (1, true, 0, false),
        (0x4000, false, 0x1234, true),
    ];
    for (d0, l0, d1, l1) in cases {
        let item = RmtItem::new(d0, l0, d1, l1);
        assert_eq!(item.duration0(), d0);
        assert_eq!(item.level0(), l0);
        assert_eq!(item.duration1(), d1);
        assert_eq!(item.level1(), l1);
    }
}

#[test]
fn item_bit_layout() {
    assert_eq!(RmtItem::new(7, true, 16, false).0, 7 | (1 << 15) | (16 << 16));
    assert_eq!(RmtItem::new(0, false, 0, true).0, 0x8000_0000);
    assert_eq!(RmtItem::new(0x7fff, true, 0x7fff, true).0, 0xffff_ffff);
}
