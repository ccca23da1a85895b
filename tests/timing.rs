use ledcore::ws2811::{nanos_to_ticks, LedTimings, TimingError, Ws2811};
use ledcore::rmt::RmtItem;

#[test]
fn ticks_exact_counts() {
    assert_eq!(nanos_to_ticks(20_000_000, 350), Ok(7));
    assert_eq!(nanos_to_ticks(20_000_000, 800), Ok(16));
    assert_eq!(nanos_to_ticks(1_000_000_000, 0x7fff), Ok(0x7fff));
    assert_eq!(nanos_to_ticks(80_000_000, 0), Ok(0));
}

#[test]
fn ticks_round_to_nearest() {
    // 40 MHz: 1 ns is 0.04 ticks, 12 ns is 0.48, 13 ns is 0.52.
    assert_eq!(nanos_to_ticks(40_000_000, 12), Ok(0));
    assert_eq!(nanos_to_ticks(40_000_000, 13), Ok(1));
    // exactly half a tick rounds up
    assert_eq!(nanos_to_ticks(1_000_000, 500), Ok(1));
}

#[test]
fn ticks_monotonic_in_duration() {
    let mut last = 0u16;
    for d in 0..2000u32 {
        let t = nanos_to_ticks(13_333_333, d).unwrap();
        assert!(t >= last);
        last = t;
    }
}

#[test]
fn ticks_overflow() {
    assert_eq!(nanos_to_ticks(1_000_000_000, 1_000_000_000), Err(TimingError::Overflow));
    assert_eq!(nanos_to_ticks(1_000_000_000, 0x8000), Err(TimingError::Overflow));
    assert_eq!(nanos_to_ticks(u32::MAX, u32::MAX), Err(TimingError::Overflow));
}

#[test]
fn driver_items_for_neopixel() {
    let w = Ws2811::new(20_000_000).unwrap();
    assert_eq!(w.zero_item, RmtItem::new(7, true, 16, false));
    assert_eq!(w.one_item, RmtItem::new(15, true, 12, false));
}

#[test]
fn driver_set_timings() {
    let mut w = Ws2811::new(20_000_000).unwrap();
    w.set_led_timings(20_000_000, &LedTimings::ws2811_hs()).unwrap();
    assert_eq!(w.zero_item, RmtItem::new(6, true, 20, false));
    assert_eq!(w.one_item, RmtItem::new(14, true, 12, false));
}

#[test]
fn driver_overflow_keeps_items() {
    let mut w = Ws2811::new(20_000_000).unwrap();
    let before = w;
    let slow = LedTimings { t0h: 350, t0l: 800, t1h: 750, t1l: 2_000_000 };
    assert_eq!(w.set_led_timings(20_000_000, &slow), Err(TimingError::Overflow));
    assert_eq!(w.zero_item, before.zero_item);
    assert_eq!(w.one_item, before.one_item);
}
