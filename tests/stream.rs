use ledcore::rmt::RmtItem;
use ledcore::ws2811::{Color, ColorGroup, PixelStream, Ws2811};

fn collect(mut s: PixelStream) -> Vec<RmtItem> {
    let mut out = Vec::new();
    while let Some(item) = s.next() {
        out.push(item);
    }
    out
}

#[test]
fn single_group_expansion() {
    let w = Ws2811::new(20_000_000).unwrap();
    let groups = vec![ColorGroup { num_leds: 3, color: Color(0x000001) }];
    let items = collect(w.show(groups));
    assert_eq!(items.len(), 72);
    for (i, item) in items.iter().enumerate() {
        if i % 24 == 23 {
            assert_eq!(*item, w.one_item);
        } else {
            assert_eq!(*item, w.zero_item);
        }
    }
}

#[test]
fn empty_sequence_yields_nothing() {
    let w = Ws2811::new(20_000_000).unwrap();
    let mut s = w.show(Vec::new());
    assert_eq!(s.next(), None);
    let mut dest = Vec::new();
    assert!(s.translate(&mut dest, 64));
    assert!(dest.is_empty());
}

#[test]
fn zero_length_groups_contribute_nothing() {
    let zero = RmtItem::new(1, true, 2, false);
    let one = RmtItem::new(3, true, 4, false);
    let groups = vec![
        ColorGroup { num_leds: 0, color: Color(0xffffff) },
        ColorGroup { num_leds: 1, color: Color(0x800000) },
        ColorGroup { num_leds: 0, color: Color(0x123456) },
        ColorGroup { num_leds: 2, color: Color(0x000000) },
        ColorGroup { num_leds: 0, color: Color(0xffffff) },
    ];
    let items = collect(PixelStream::new(groups, zero, one));
    assert_eq!(items.len(), 72);
    assert_eq!(items[0], one);
    assert!(items[1..].iter().all(|i| *i == zero));
}

#[test]
fn bits_most_significant_first() {
    let zero = RmtItem::new(1, true, 2, false);
    let one = RmtItem::new(3, true, 4, false);
    let color: u32 = 0xa5c30f;
    let items = collect(PixelStream::new(vec![ColorGroup { num_leds: 1, color: Color::from(color) }], zero, one));
    assert_eq!(items.len(), 24);
    for (i, item) in items.iter().enumerate() {
        let bit = (color >> (23 - i)) & 1;
        assert_eq!(*item, if bit == 1 { one } else { zero });
    }
}

#[test]
fn translate_in_chunks() {
    let zero = RmtItem::new(1, true, 2, false);
    let one = RmtItem::new(3, true, 4, false);
    let groups = vec![
        ColorGroup { num_leds: 2, color: Color(0xff00ff) },
        ColorGroup { num_leds: 1, color: Color(0x00ff00) },
    ];
    let expected: Vec<u32> = collect(PixelStream::new(groups.clone(), zero, one)).iter().map(|i| i.0).collect();
    assert_eq!(expected.len(), 72);
    let mut s = PixelStream::new(groups, zero, one);
    let mut dest = Vec::new();
    assert!(!s.translate(&mut dest, 64));
    assert_eq!(dest.len(), 64);
    assert!(s.translate(&mut dest, 64));
    assert_eq!(dest, expected);
}

#[test]
fn translate_exact_fit_finishes_on_next_call() {
    let zero = RmtItem::new(1, true, 2, false);
    let one = RmtItem::new(3, true, 4, false);
    let mut s = PixelStream::new(vec![ColorGroup { num_leds: 1, color: Color(0) }], zero, one);
    let mut dest = Vec::new();
    assert!(!s.translate(&mut dest, 24));
    assert_eq!(dest.len(), 24);
    assert!(s.translate(&mut dest, 24));
    assert_eq!(dest.len(), 24);
}
