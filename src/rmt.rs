//! Waveform items of the remote-control peripheral and its channel settings.

use vstd::prelude::*;

verus! {

/// The size of a memory block of the peripheral, in [`RmtItem`]s.
pub const RMT_MEM_BLOCK_SIZE: usize = 64;

/// Amount of channels (equals the amount of memory blocks).
pub const CHANNEL_COUNT: usize = 8;

/// The largest duration that fits the 15-bit duration field of a half period.
pub const MAX_DURATION: u16 = 0x7fff;

/// Output level of a half period.
#[derive(Clone, Copy, PartialEq, Eq, Structural, Debug)]
pub enum Level {
    /// Low level
    Low,
    /// High level
    High,
}

/// Settings of a transmitting channel.
pub struct TxConfig {
    pub carrier_freq_hz: u32,
    pub carrier_level: Level,
    pub idle_level: Level,
    pub carrier_duty_percent: u8,
    pub carrier_en: bool,
    pub loop_en: bool,
    pub idle_output_en: bool,
}

/// Settings of a receiving channel.
pub struct RxConfig {
    pub idle_threshold: u16,
    pub filter_ticks_thresh: u8,
    pub filter_en: bool,
}

/// Direction of a channel, with its settings.
pub enum Mode {
    Tx(TxConfig),
    Rx(RxConfig),
}

/// Clock that drives a channel's counter.
#[derive(Clone, Copy, PartialEq, Eq, Structural, Debug)]
pub enum ClockSource {
    /// The peripheral bus clock.
    APB,
    /// The reference clock, which keeps its rate under frequency scaling.
    Ref,
}

/// Full configuration of a channel.
pub struct Config {
    pub mode: Mode,
    pub clk_div: u8,
    pub mem_block_count: u8,
    pub clock_src: ClockSource,
    pub always_on: bool,
}

/// One hardware waveform unit: two half periods, each a 15-bit duration in
/// ticks and a 1-bit level. Bits 0..15 hold the first duration, bit 15 its
/// level, bits 16..31 the second duration and bit 31 its level.
#[derive(Debug, PartialEq, Eq, Structural, Clone, Copy)]
pub struct RmtItem(pub u32);

pub open spec fn bit_value(b: bool) -> int {
    if b { 1 } else { 0 }
}

/// The 32-bit word that holds the two half periods.
pub open spec fn encode(d0: int, l0: bool, d1: int, l1: bool) -> int {
    d0 + bit_value(l0) * 0x8000 + d1 * 0x10000 + bit_value(l1) * 0x8000_0000
}

pub open spec fn decode_duration0(w: int) -> int {
    w % 0x8000
}

pub open spec fn decode_level0(w: int) -> bool {
    (w / 0x8000) % 2 == 1
}

pub open spec fn decode_duration1(w: int) -> int {
    (w / 0x10000) % 0x8000
}

pub open spec fn decode_level1(w: int) -> bool {
    w / 0x8000_0000 == 1
}

impl RmtItem {
    /// Packs two half periods into one item.
    pub fn new(duration0: u16, level0: bool, duration1: u16, level1: bool) -> (r: RmtItem)
        requires
            duration0 <= MAX_DURATION,
            duration1 <= MAX_DURATION,
        ensures
            r.0 == encode(duration0 as int, level0, duration1 as int, level1),
    {
        let l0: u32 = if level0 { 1 } else { 0 };
        let l1: u32 = if level1 { 1 } else { 0 };
        let d0 = duration0 as u32;
        let d1 = duration1 as u32;
        let half_period0: u32 = d0 | (l0 << 15u32);
        let half_period1: u32 = d1 | (l1 << 15u32);
        let w: u32 = half_period0 | (half_period1 << 16u32);
        assert(w == d0 + l0 * 0x8000 + d1 * 0x10000 + l1 * 0x8000_0000) by (bit_vector)
            requires
                d0 <= 0x7fff,
                d1 <= 0x7fff,
                l0 <= 1,
                l1 <= 1,
                half_period0 == d0 | (l0 << 15u32),
                half_period1 == d1 | (l1 << 15u32),
                w == half_period0 | (half_period1 << 16u32),
        ;
        RmtItem(w)
    }

    /// Duration of the first half period.
    pub fn duration0(self) -> (r: u16)
        ensures
            r == decode_duration0(self.0 as int),
    {
        let w = self.0;
        assert(w & 0x7fff == w % 0x8000) by (bit_vector);
        (w & 0x7fff) as u16
    }

    /// Level of the first half period.
    pub fn level0(self) -> (r: bool)
        ensures
            r == decode_level0(self.0 as int),
    {
        let w = self.0;
        assert((w & 0x8000 != 0) == ((w / 0x8000) % 2 == 1)) by (bit_vector);
        (w & 0x8000) != 0
    }

    /// Duration of the second half period.
    pub fn duration1(self) -> (r: u16)
        ensures
            r == decode_duration1(self.0 as int),
    {
        let w = self.0;
        assert((w >> 16u32) & 0x7fff == (w / 0x10000) % 0x8000) by (bit_vector);
        ((w >> 16u32) & 0x7fff) as u16
    }

    /// Level of the second half period.
    pub fn level1(self) -> (r: bool)
        ensures
            r == decode_level1(self.0 as int),
    {
        let w = self.0;
        assert((w & 0x8000_0000 != 0) == (w / 0x8000_0000 == 1)) by (bit_vector);
        (w & 0x8000_0000) != 0
    }
}

/// Decoding an encoded item gives back the two half periods it was built from.
pub proof fn lemma_item_round_trip(d0: u16, l0: bool, d1: u16, l1: bool)
    requires
        d0 <= MAX_DURATION,
        d1 <= MAX_DURATION,
    ensures
        ({
            let w = encode(d0 as int, l0, d1 as int, l1);
            &&& decode_duration0(w) == d0 as int
            &&& decode_level0(w) == l0
            &&& decode_duration1(w) == d1 as int
            &&& decode_level1(w) == l1
            &&& 0 <= w <= u32::MAX
        }),
{
    let a = bit_value(l0);
    let b = bit_value(l1);
    let x = d0 as int;
    let y = d1 as int;
    let w = encode(x, l0, y, l1);
    assert(w == x + a * 0x8000 + y * 0x10000 + b * 0x8000_0000);
    assert(w % 0x8000 == x && (w / 0x8000) % 2 == a && (w / 0x10000) % 0x8000 == y
        && w / 0x8000_0000 == b && 0 <= w <= u32::MAX) by (nonlinear_arith)
        requires
            0 <= x <= 0x7fff,
            0 <= y <= 0x7fff,
            0 <= a <= 1,
            0 <= b <= 1,
            w == x + a * 0x8000 + y * 0x10000 + b * 0x8000_0000,
    ;
}

} // verus!
