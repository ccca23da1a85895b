use ledcore::backtrace::{is_pointer_executable, AddressRange, Backtrace, BacktraceFrame, MemoryMap};

fn map() -> MemoryMap {
    MemoryMap {
        dram: AddressRange { low: 0x3ffa_e000, high: 0x4000_0000 },
        irom: AddressRange { low: 0x400d_0000, high: 0x4040_0000 },
        iram: AddressRange { low: 0x4008_0000, high: 0x400a_0000 },
        irom_mask: AddressRange { low: 0x4000_0000, high: 0x4006_4f00 },
        cache_app: AddressRange { low: 0x4007_8000, high: 0x4008_0000 },
        cache_pro: AddressRange { low: 0x4007_0000, high: 0x4007_8000 },
        rtc_iram: AddressRange { low: 0x400c_0000, high: 0x400c_2000 },
    }
}

#[test]
fn real_pc_of_windowed_register() {
    assert_eq!(Backtrace::new(0x800d_1234, 0, 0).get_real_pc(), 0x400d_1231);
    assert_eq!(Backtrace::new(0xc008_0010, 0, 0).get_real_pc(), 0x4008_000d);
    assert_eq!(Backtrace::new(0x400d_1234, 0, 0).get_real_pc(), 0x400d_1231);
    assert_eq!(Backtrace::new(2, 0, 0).get_real_pc(), 0);
}

#[test]
fn executable_regions() {
    let m = map();
    assert!(is_pointer_executable(&m, 0x400d_0000));
    assert!(is_pointer_executable(&m, 0x4008_1000));
    assert!(!is_pointer_executable(&m, 0x4040_0000));
    assert!(!is_pointer_executable(&m, 0x3ffb_0000));
}

#[test]
fn frame_sanity() {
    let m = map();
    assert!(BacktraceFrame { pc: 0x400d_1000, sp: 0x3ffb_0000 }.is_sane(&m));
    assert!(!BacktraceFrame { pc: 0x400d_1000, sp: 0x3ffa_e008 }.is_sane(&m));
    assert!(!BacktraceFrame { pc: 0x400d_1000, sp: 0x3fff_fff8 }.is_sane(&m));
    assert!(!BacktraceFrame { pc: 0x1000, sp: 0x3ffb_0000 }.is_sane(&m));
    assert!(!BacktraceFrame { pc: 0x400d_1000, sp: 0 }.is_sane(&m));
}

#[test]
fn walk_ends_at_insane_frame() {
    let m = map();
    let mut bt = Backtrace::new(0x800d_1003, 0x3ffb_0000, 0x800d_2003);
    let f = bt.next(&m).unwrap();
    assert_eq!((f.pc, f.sp), (0x400d_1000, 0x3ffb_0000));
    assert!(!bt.is_last());
    bt.next_stack_frame(0, 0x3ffb_0100);
    let f = bt.next(&m).unwrap();
    assert_eq!((f.pc, f.sp), (0x400d_2000, 0x3ffb_0100));
    bt.next_stack_frame(0, 0);
    let f = bt.next(&m).unwrap();
    assert_eq!((f.pc, f.sp), (0, 0));
    assert!(bt.is_last());
    assert!(bt.next(&m).is_none());
}
