//! The single-wire LED protocol: timing profiles, the tick converter and the
//! lazy stream of waveform items for a sequence of color groups.

use vstd::prelude::*;
use crate::rmt::{RmtItem, MAX_DURATION, encode};

verus! {

/// A `0x00RRGGBB` color value.
#[derive(Debug, Clone, Copy, PartialEq, Eq, Structural)]
pub struct Color(pub u32);

impl From<u32> for Color {
    fn from(val: u32) -> (r: Self)
        ensures
            r.0 == val,
    {
        Color(val)
    }
}

impl vstd::std_specs::convert::FromSpecImpl<u32> for Color {
    open spec fn obeys_from_spec() -> bool {
        true
    }

    open spec fn from_spec(v: u32) -> Color {
        Color(v)
    }
}

impl Default for Color {
    fn default() -> (r: Self)
        ensures
            r.0 == 0,
    {
        Color(0)
    }
}

/// A run of consecutive LEDs that share one color.
#[derive(Debug, Clone, Copy)]
pub struct ColorGroup {
    /// The amount of consecutive LEDs with the same color.
    pub num_leds: u16,
    /// The color of these LEDs.
    pub color: Color,
}

/// The four half-period durations of one LED chip family, in nanoseconds.
#[derive(Debug, Clone, Copy)]
pub struct LedTimings {
    /// The high half period of a logic `0`.
    pub t0h: u32,
    /// The low half period of a logic `0`.
    pub t0l: u32,
    /// The high half period of a logic `1`.
    pub t1h: u32,
    /// The low half period of a logic `1`.
    pub t1l: u32,
}

impl LedTimings {
    /// Timings of NeoPixel (WS2812) LEDs.
    pub fn neopixel() -> (r: LedTimings)
        ensures
            r.t0h == 350 && r.t0l == 800 && r.t1h == 750 && r.t1l == 600,
    {
        LedTimings { t0h: 350, t0l: 800, t1h: 750, t1l: 600 }
    }

    /// Timings of WS2811 LEDs in high-speed mode.
    pub fn ws2811_hs() -> (r: LedTimings)
        ensures
            r.t0h == 300 && r.t0l == 1000 && r.t1h == 700 && r.t1l == 600,
    {
        LedTimings { t0h: 300, t0l: 1000, t1h: 700, t1l: 600 }
    }
}

/// Why a timing profile cannot be used with a channel clock.
#[derive(Debug, Clone, Copy, PartialEq, Eq, Structural)]
pub enum TimingError {
    /// A half period needs more ticks than the 15-bit duration field holds.
    Overflow,
}

pub const NANOSECONDS_PER_SECOND: u64 = 1_000_000_000;

/// The tick count of `duration_ns` nanoseconds at `clock_hz`, rounded to the
/// nearest tick (halves round up).
pub open spec fn ticks_of(clock_hz: int, duration_ns: int) -> int {
    (clock_hz * duration_ns + 500_000_000) / 1_000_000_000
}

/// Converts a duration into ticks of a clock running at `ticks_hz`, failing
/// when the count does not fit the hardware's 15-bit duration field.
pub fn nanos_to_ticks(ticks_hz: u32, duration: u32) -> (r: Result<u16, TimingError>)
    ensures
        ticks_of(ticks_hz as int, duration as int) <= MAX_DURATION as int ==> r == Ok::<
            u16,
            TimingError,
        >(ticks_of(ticks_hz as int, duration as int) as u16),
        ticks_of(ticks_hz as int, duration as int) > MAX_DURATION as int ==> r == Err::<
            u16,
            TimingError,
        >(TimingError::Overflow),
{
    let h = ticks_hz as u128;
    let d = duration as u128;
    assert(h * d <= 0xffff_ffff * 0xffff_ffff) by (nonlinear_arith)
        requires
            h <= 0xffff_ffff,
            d <= 0xffff_ffff,
    ;
    let product: u128 = h * d;
    let rounded: u128 = (product + (NANOSECONDS_PER_SECOND / 2) as u128) / (
    NANOSECONDS_PER_SECOND as u128);
    if rounded <= MAX_DURATION as u128 {
        Ok(rounded as u16)
    } else {
        Err(TimingError::Overflow)
    }
}

/// Rounded tick counts never decrease as the duration grows.
pub proof fn lemma_ticks_monotonic(clock_hz: u32, d1: u32, d2: u32)
    requires
        d1 <= d2,
    ensures
        ticks_of(clock_hz as int, d1 as int) <= ticks_of(clock_hz as int, d2 as int),
        ticks_of(clock_hz as int, d1 as int) > MAX_DURATION as int ==> ticks_of(
            clock_hz as int,
            d2 as int,
        ) > MAX_DURATION as int,
{
    let c = clock_hz as int;
    let a = d1 as int;
    let b = d2 as int;
    assert(c * a <= c * b) by (nonlinear_arith)
        requires
            0 <= c,
            a <= b,
    ;
    lemma_div_monotonic(c * a + 500_000_000, c * b + 500_000_000, 1_000_000_000);
}

proof fn lemma_div_monotonic(x: int, y: int, d: int)
    requires
        0 <= x <= y,
        0 < d,
    ensures
        x / d <= y / d,
{
    assert(x / d <= y / d) by (nonlinear_arith)
        requires
            0 <= x <= y,
            0 < d,
    ;
}

/// When the duration is a whole number of ticks, the conversion gives exactly
/// that number.
pub proof fn lemma_ticks_exact(clock_hz: u32, duration: u32)
    requires
        (clock_hz as int * duration as int) % 1_000_000_000 == 0,
    ensures
        ticks_of(clock_hz as int, duration as int) == (clock_hz as int * duration as int)
            / 1_000_000_000,
{
    let p = clock_hz as int * duration as int;
    let q = p / 1_000_000_000;
    assert(p == q * 1_000_000_000);
    assert((q * 1_000_000_000 + 500_000_000) / 1_000_000_000 == q) by (nonlinear_arith);
}


/// Whether bit `i` of a 24-bit color is set, counting from the most
/// significant bit (`i == 0`) to the least significant one (`i == 23`).
pub open spec fn color_bit(c: u32, i: int) -> bool {
    (c >> ((23 - i) as u32)) & 1u32 == 1u32
}

/// The 24 items of one pixel, most significant bit first.
pub open spec fn color_items(c: u32, zero: RmtItem, one: RmtItem) -> Seq<RmtItem> {
    Seq::new(24, |i: int| if color_bit(c, i) { one } else { zero })
}

/// `s` repeated `n` times.
pub open spec fn repeat_items(s: Seq<RmtItem>, n: nat) -> Seq<RmtItem>
    decreases n,
{
    if n == 0 {
        Seq::empty()
    } else {
        repeat_items(s, (n - 1) as nat) + s
    }
}

/// The items of every pixel of one group.
pub open spec fn group_items(g: ColorGroup, zero: RmtItem, one: RmtItem) -> Seq<RmtItem> {
    repeat_items(color_items(g.color.0, zero, one), g.num_leds as nat)
}

/// The full waveform for a sequence of groups: every pixel in order.
pub open spec fn stream_items(gs: Seq<ColorGroup>, zero: RmtItem, one: RmtItem) -> Seq<RmtItem>
    decreases gs.len(),
{
    if gs.len() == 0 {
        Seq::empty()
    } else {
        stream_items(gs.drop_last(), zero, one) + group_items(gs.last(), zero, one)
    }
}

proof fn lemma_repeat_len(s: Seq<RmtItem>, n: nat)
    ensures
        repeat_items(s, n).len() == s.len() * n,
    decreases n,
{
    if n > 0 {
        let m = (n - 1) as nat;
        lemma_repeat_len(s, m);
        let l = s.len() as int;
        assert(l * (m + 1) == l * m + l) by (nonlinear_arith);
        assert(repeat_items(s, n) == repeat_items(s, m) + s);
        assert(n == m + 1);
        assert(s.len() * n == l * (m + 1));
    } else {
        assert(s.len() * n == 0) by (nonlinear_arith)
            requires
                n == 0,
        ;
    }
}

proof fn lemma_repeat_split(s: Seq<RmtItem>, a: nat, b: nat)
    ensures
        repeat_items(s, a + b) == repeat_items(s, a) + repeat_items(s, b),
    decreases b,
{
    if b == 0 {
        assert(repeat_items(s, a) + repeat_items(s, 0) =~= repeat_items(s, a));
    } else {
        lemma_repeat_split(s, a, (b - 1) as nat);
        assert(repeat_items(s, a + b) == repeat_items(s, (a + b - 1) as nat) + s);
        assert(repeat_items(s, a) + repeat_items(s, b) =~= repeat_items(s, a) + repeat_items(
            s,
            (b - 1) as nat,
        ) + s);
    }
}

proof fn lemma_stream_concat(a: Seq<ColorGroup>, b: Seq<ColorGroup>, zero: RmtItem, one: RmtItem)
    ensures
        stream_items(a + b, zero, one) == stream_items(a, zero, one) + stream_items(b, zero, one),
    decreases b.len(),
{
    if b.len() == 0 {
        assert(a + b =~= a);
        assert(stream_items(a, zero, one) + stream_items(b, zero, one) =~= stream_items(
            a,
            zero,
            one,
        ));
    } else {
        lemma_stream_concat(a, b.drop_last(), zero, one);
        assert((a + b).drop_last() =~= a + b.drop_last());
        assert((a + b).last() == b.last());
        assert(stream_items(a, zero, one) + stream_items(b, zero, one) =~= stream_items(
            a,
            zero,
            one,
        ) + stream_items(b.drop_last(), zero, one) + group_items(b.last(), zero, one));
    }
}

/// The number of LEDs over all groups.
pub open spec fn total_leds(gs: Seq<ColorGroup>) -> nat
    decreases gs.len(),
{
    if gs.len() == 0 {
        0
    } else {
        total_leds(gs.drop_last()) + gs.last().num_leds as nat
    }
}

/// The waveform holds 24 items for every LED.
pub proof fn lemma_stream_len(gs: Seq<ColorGroup>, zero: RmtItem, one: RmtItem)
    ensures
        stream_items(gs, zero, one).len() == 24 * total_leds(gs),
    decreases gs.len(),
{
    if gs.len() > 0 {
        lemma_stream_len(gs.drop_last(), zero, one);
        lemma_repeat_len(color_items(gs.last().color.0, zero, one), gs.last().num_leds as nat);
        let a = total_leds(gs.drop_last()) as int;
        let b = gs.last().num_leds as int;
        assert(24 * (a + b) == 24 * a + 24 * b) by (nonlinear_arith);
    }
}

/// Number of items that come before group `g` of `gs`.
pub open spec fn items_before(gs: Seq<ColorGroup>, g: int, zero: RmtItem, one: RmtItem) -> int {
    stream_items(gs.take(g), zero, one).len() as int
}

proof fn lemma_items_before_step(gs: Seq<ColorGroup>, g: int, zero: RmtItem, one: RmtItem)
    requires
        0 <= g < gs.len(),
    ensures
        items_before(gs, g + 1, zero, one) == items_before(gs, g, zero, one) + 24
            * gs[g].num_leds,
{
    assert(gs.take(g + 1).drop_last() =~= gs.take(g));
    assert(gs.take(g + 1).last() == gs[g]);
    lemma_repeat_len(color_items(gs[g].color.0, zero, one), gs[g].num_leds as nat);
}

proof fn lemma_items_before_end(gs: Seq<ColorGroup>, zero: RmtItem, one: RmtItem)
    ensures
        items_before(gs, gs.len() as int, zero, one) == stream_items(gs, zero, one).len(),
{
    assert(gs.take(gs.len() as int) =~= gs);
}

/// Bit `bit` of pixel `led` of group `g` stands at its place in the stream.
proof fn lemma_item_at(
    gs: Seq<ColorGroup>,
    g: int,
    led: int,
    bit: int,
    zero: RmtItem,
    one: RmtItem,
)
    requires
        0 <= g < gs.len(),
        0 <= led < gs[g].num_leds,
        0 <= bit < 24,
    ensures
        ({
            let pos = items_before(gs, g, zero, one) + led * 24 + bit;
            &&& pos < stream_items(gs, zero, one).len()
            &&& stream_items(gs, zero, one)[pos] == color_items(gs[g].color.0, zero, one)[bit]
        }),
{
    let ci = color_items(gs[g].color.0, zero, one);
    let n = gs[g].num_leds as nat;
    let head = gs.take(g);
    let one_group = seq![gs[g]];
    let tail = gs.skip(g + 1);
    assert(gs =~= head + one_group + tail);
    lemma_stream_concat(head + one_group, tail, zero, one);
    lemma_stream_concat(head, one_group, zero, one);
    assert(one_group.drop_last() =~= Seq::<ColorGroup>::empty());
    assert(stream_items(one_group.drop_last(), zero, one) =~= Seq::<RmtItem>::empty());
    assert(one_group.last() == gs[g]);
    assert(stream_items(one_group, zero, one) =~= group_items(gs[g], zero, one));
    lemma_repeat_split(ci, led as nat, (n - led) as nat);
    lemma_repeat_split(ci, 1, (n - led - 1) as nat);
    assert(repeat_items(ci, 1) =~= ci) by {
        assert(repeat_items(ci, 0) =~= Seq::<RmtItem>::empty());
    }
    lemma_repeat_len(ci, led as nat);
    assert(ci.len() * led == led * 24) by (nonlinear_arith)
        requires
            ci.len() == 24,
    ;
    let rest = repeat_items(ci, (n - led - 1) as nat);
    let whole = stream_items(head, zero, one) + (repeat_items(ci, led as nat) + (ci + rest))
        + stream_items(tail, zero, one);
    assert(stream_items(gs, zero, one) == whole);
    let pos = items_before(gs, g, zero, one) + led * 24 + bit;
    assert(whole[pos] == ci[bit]);
}

/// The lazily produced waveform of a sequence of color groups. Items come out
/// one at a time, or in chunks through [`PixelStream::translate`]; the full
/// waveform is never stored.
pub struct PixelStream {
    groups: Vec<ColorGroup>,
    zero: RmtItem,
    one: RmtItem,
    group: usize,
    led: u16,
    bit: usize,
}

impl PixelStream {
    /// Every item that the stream yields, in order.
    pub closed spec fn items(&self) -> Seq<RmtItem> {
        stream_items(self.groups@, self.zero, self.one)
    }

    /// How many items have been yielded so far.
    pub closed spec fn position(&self) -> int {
        items_before(self.groups@, self.group as int, self.zero, self.one) + self.led as int * 24
            + self.bit as int
    }

    pub closed spec fn wf(&self) -> bool {
        &&& self.group <= self.groups.len()
        &&& self.group < self.groups.len() ==> {
            &&& self.led < self.groups@[self.group as int].num_leds
            &&& self.bit < 24
        }
        &&& self.group == self.groups.len() ==> self.led == 0 && self.bit == 0
    }

    /// A stream positioned at the start of the waveform for `groups`.
    pub fn new(groups: Vec<ColorGroup>, zero: RmtItem, one: RmtItem) -> (r: PixelStream)
        ensures
            r.wf(),
            r.items() == stream_items(groups@, zero, one),
            r.position() == 0,
    {
        let mut s = PixelStream { groups, zero, one, group: 0, led: 0, bit: 0 };
        assert(s.groups@.take(0) =~= Seq::<ColorGroup>::empty());
        s.skip_empty_groups();
        s
    }

    /// Moves past groups of length zero, which contribute no item.
    fn skip_empty_groups(&mut self)
        requires
            old(self).group <= old(self).groups.len(),
            old(self).led == 0,
            old(self).bit == 0,
        ensures
            final(self).wf(),
            final(self).items() == old(self).items(),
            final(self).position() == old(self).position(),
            final(self).groups == old(self).groups,
            final(self).zero == old(self).zero,
            final(self).one == old(self).one,
    {
        let ghost start = self.position();
        while self.group < self.groups.len() && self.groups[self.group].num_leds == 0
            invariant
                self.group <= self.groups.len(),
                self.led == 0,
                self.bit == 0,
                self.groups == old(self).groups,
                self.zero == old(self).zero,
                self.one == old(self).one,
                self.position() == start,
            decreases self.groups.len() - self.group,
        {
            proof {
                lemma_items_before_step(self.groups@, self.group as int, self.zero, self.one);
            }
            self.group = self.group + 1;
        }
    }

    /// The next item of the waveform, or `None` once every item was yielded.
    pub fn next(&mut self) -> (r: Option<RmtItem>)
        requires
            old(self).wf(),
        ensures
            final(self).wf(),
            final(self).items() == old(self).items(),
            old(self).position() < old(self).items().len() ==> r == Some(
                old(self).items()[old(self).position()],
            ) && final(self).position() == old(self).position() + 1,
            old(self).position() >= old(self).items().len() ==> r is None
                && final(self).position() == old(self).position(),
    {
        if self.group >= self.groups.len() {
            proof {
                lemma_items_before_end(self.groups@, self.zero, self.one);
            }
            return None;
        }
        proof {
            lemma_item_at(
                self.groups@,
                self.group as int,
                self.led as int,
                self.bit as int,
                self.zero,
                self.one,
            );
        }
        let color = self.groups[self.group].color.0;
        let shift = (23 - self.bit) as u32;
        let item = if (color >> shift) & 1u32 == 1u32 {
            self.one
        } else {
            self.zero
        };
        let ghost before = self.position();
        if self.bit + 1 < 24 {
            self.bit = self.bit + 1;
        } else {
            self.bit = 0;
            if self.led + 1 < self.groups[self.group].num_leds {
                self.led = self.led + 1;
            } else {
                proof {
                    lemma_items_before_step(self.groups@, self.group as int, self.zero, self.one);
                }
                self.led = 0;
                self.group = self.group + 1;
                self.skip_empty_groups();
            }
        }
        assert(self.position() == before + 1);
        Some(item)
    }

    /// Fills `dest` with up to `wanted` further items, as the peripheral's
    /// translation callback does. Returns `true` when the stream ran out before
    /// `wanted` items were written: the signal that the transfer is complete.
    pub fn translate(&mut self, dest: &mut Vec<u32>, wanted: usize) -> (finished: bool)
        requires
            old(self).wf(),
        ensures
            final(self).wf(),
            final(self).items() == old(self).items(),
            ({
                let pos = old(self).position();
                let len = old(self).items().len() as int;
                let k = if len - pos < wanted { len - pos } else { wanted as int };
                &&& final(self).position() == pos + k
                &&& final(dest)@ == old(dest)@ + old(self).items().subrange(pos, pos + k).map_values(
                    |it: RmtItem| it.0,
                )
                &&& finished == (len - pos < wanted)
            }),
    {
        proof {
            self.lemma_position_bounded();
        }
        let ghost pos = self.position();
        let ghost all = self.items();
        let ghost start = dest@;
        let mut i: usize = 0;
        let mut finished = false;
        while i < wanted && !finished
            invariant
                finished ==> i < wanted && pos + i == all.len(),
                self.wf(),
                self.items() == all,
                0 <= pos <= all.len(),
                i <= wanted,
                pos + i <= all.len(),
                self.position() == pos + i,
                dest@ == start + all.subrange(pos, pos + i).map_values(|it: RmtItem| it.0),
            decreases wanted - i + (if finished { 0int } else { 1int }),
        {
            match self.next() {
                Some(item) => {
                    dest.push(item.0);
                    i = i + 1;
                    assert(all.subrange(pos, pos + i).map_values(|it: RmtItem| it.0) =~= all.subrange(
                        pos,
                        pos + i - 1,
                    ).map_values(|it: RmtItem| it.0).push(item.0));
                },
                None => {
                    finished = true;
                },
            }
        }
        finished
    }

    proof fn lemma_position_bounded(&self)
        requires
            self.wf(),
        ensures
            0 <= self.position() <= self.items().len(),
    {
        if self.group < self.groups.len() {
            lemma_item_at(
                self.groups@,
                self.group as int,
                self.led as int,
                self.bit as int,
                self.zero,
                self.one,
            );
        } else {
            lemma_items_before_end(self.groups@, self.zero, self.one);
        }
    }
}

/// The item that encodes one bit: a high half period then a low one.
pub open spec fn bit_item(clock_hz: u32, high_ns: u32, low_ns: u32) -> RmtItem {
    RmtItem(
        encode(
            ticks_of(clock_hz as int, high_ns as int),
            true,
            ticks_of(clock_hz as int, low_ns as int),
            false,
        ) as u32,
    )
}

/// Whether every half period of `t` fits the duration field at `clock_hz`.
pub open spec fn timings_fit(clock_hz: u32, t: LedTimings) -> bool {
    &&& ticks_of(clock_hz as int, t.t0h as int) <= MAX_DURATION as int
    &&& ticks_of(clock_hz as int, t.t0l as int) <= MAX_DURATION as int
    &&& ticks_of(clock_hz as int, t.t1h as int) <= MAX_DURATION as int
    &&& ticks_of(clock_hz as int, t.t1l as int) <= MAX_DURATION as int
}

/// The encoding state of an LED strip driver: the items for a `0` bit and a
/// `1` bit, derived from a timing profile and the channel's clock.
#[derive(Debug, Clone, Copy)]
pub struct Ws2811 {
    pub zero_item: RmtItem,
    pub one_item: RmtItem,
}

impl Ws2811 {
    /// A driver state for NeoPixel timings at a channel clock of `clock_hz`.
    pub fn new(clock_hz: u32) -> (r: Result<Ws2811, TimingError>)
        ensures
            timings_fit(clock_hz, LedTimings::neopixel_spec()) ==> (r matches Ok(w) && w.zero_item
                == bit_item(clock_hz, 350, 800) && w.one_item == bit_item(clock_hz, 750, 600)),
            !timings_fit(clock_hz, LedTimings::neopixel_spec()) ==> r == Err::<
                Ws2811,
                TimingError,
            >(TimingError::Overflow),
    {
        let mut result = Ws2811 { zero_item: RmtItem(0), one_item: RmtItem(0) };
        match result.set_led_timings(clock_hz, &LedTimings::neopixel()) {
            Ok(()) => Ok(result),
            Err(e) => Err(e),
        }
    }

    /// Rebuilds the `0` and `1` items for `timings` at a channel clock of
    /// `clock_hz`. On overflow nothing changes.
    pub fn set_led_timings(&mut self, clock_hz: u32, timings: &LedTimings) -> (r: Result<
        (),
        TimingError,
    >)
        ensures
            timings_fit(clock_hz, *timings) ==> r is Ok && final(self).zero_item == bit_item(
                clock_hz,
                timings.t0h,
                timings.t0l,
            ) && final(self).one_item == bit_item(clock_hz, timings.t1h, timings.t1l),
            !timings_fit(clock_hz, *timings) ==> r == Err::<(), TimingError>(
                TimingError::Overflow,
            ) && *final(self) == *old(self),
    {
        let t0h = match nanos_to_ticks(clock_hz, timings.t0h) {
            Ok(t) => t,
            Err(e) => return Err(e),
        };
        let t0l = match nanos_to_ticks(clock_hz, timings.t0l) {
            Ok(t) => t,
            Err(e) => return Err(e),
        };
        let t1h = match nanos_to_ticks(clock_hz, timings.t1h) {
            Ok(t) => t,
            Err(e) => return Err(e),
        };
        let t1l = match nanos_to_ticks(clock_hz, timings.t1l) {
            Ok(t) => t,
            Err(e) => return Err(e),
        };
        self.zero_item = RmtItem::new(t0h, true, t0l, false);
        self.one_item = RmtItem::new(t1h, true, t1l, false);
        Ok(())
    }

    /// The waveform for `groups`: each group's color repeated for its LEDs,
    /// each color as 24 items, most significant bit first. The stream is
    /// handed to the peripheral, which pulls it in chunks.
    pub fn show(&self, groups: Vec<ColorGroup>) -> (r: PixelStream)
        ensures
            r.wf(),
            r.items() == stream_items(groups@, self.zero_item, self.one_item),
            r.position() == 0,
    {
        PixelStream::new(groups, self.zero_item, self.one_item)
    }
}

impl LedTimings {
    pub open spec fn neopixel_spec() -> LedTimings {
        LedTimings { t0h: 350, t0l: 800, t1h: 750, t1l: 600 }
    }
}

} // verus!
