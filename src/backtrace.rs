//! Stack walking arithmetic for crash reports: the real program counter of a
//! windowed frame, and the sanity checks that end a walk.
//!
//! Reading the registers and the saved words under a stack pointer is left to
//! the caller, which hands the values in.

use vstd::prelude::*;

verus! {

/// A half-open address range `[low, high)`.
#[derive(Debug, Clone, Copy)]
pub struct AddressRange {
    pub low: usize,
    pub high: usize,
}

impl AddressRange {
    pub open spec fn holds(self, ptr: int) -> bool {
        self.low <= ptr < self.high
    }

    /// Whether `ptr` lies in the range.
    pub fn contains(&self, ptr: usize) -> (r: bool)
        ensures
            r == self.holds(ptr as int),
    {
        ptr >= self.low && ptr < self.high
    }
}

/// The chip's memory map: data RAM and the regions that hold code.
#[derive(Debug, Clone, Copy)]
pub struct MemoryMap {
    pub dram: AddressRange,
    pub irom: AddressRange,
    pub iram: AddressRange,
    pub irom_mask: AddressRange,
    pub cache_app: AddressRange,
    pub cache_pro: AddressRange,
    pub rtc_iram: AddressRange,
}

pub open spec fn executable(map: MemoryMap, ptr: int) -> bool {
    map.irom.holds(ptr) || map.iram.holds(ptr) || map.irom_mask.holds(ptr) || map.cache_app.holds(ptr)
        || map.cache_pro.holds(ptr) || map.rtc_iram.holds(ptr)
}

/// Whether `ptr` is in an executable memory region.
pub fn is_pointer_executable(map: &MemoryMap, ptr: usize) -> (r: bool)
    ensures
        r == executable(*map, ptr as int),
{
    map.irom.contains(ptr) || map.iram.contains(ptr) || map.irom_mask.contains(ptr)
        || map.cache_app.contains(ptr) || map.cache_pro.contains(ptr) || map.rtc_iram.contains(ptr)
}

/// A frame in the backtrace.
#[derive(Debug, Clone, Copy)]
pub struct BacktraceFrame {
    /// The address of the last instruction in the frame (program counter).
    pub pc: u32,
    /// The address of the frame on the stack (stack pointer).
    pub sp: u32,
}

/// A stack pointer at least 16 bytes inside data RAM, a non-null stack
/// pointer and an executable program counter.
pub open spec fn frame_sane(map: MemoryMap, f: BacktraceFrame) -> bool {
    &&& map.dram.low + 0x10 <= f.sp <= map.dram.high - 0x10
    &&& f.sp != 0
    &&& executable(map, f.pc as int)
}

impl BacktraceFrame {
    /// Whether `pc` and `sp` are sane: the stack pointer lies in data RAM and
    /// the program counter in executable memory.
    pub fn is_sane(&self, map: &MemoryMap) -> (r: bool)
        ensures
            r == frame_sane(*map, *self),
    {
        let sp = self.sp as usize;
        let below = map.dram.low > usize::MAX - 0x10 || sp < map.dram.low + 0x10;
        let above = map.dram.high < 0x10 || sp > map.dram.high - 0x10;
        !below && !above && self.sp != 0 && is_pointer_executable(map, self.pc as usize)
    }
}

/// The address held by a windowed program counter register: the top two bits
/// hold the window increment and are replaced by the region bits `01`; the
/// result points 3 bytes before the return address, never below zero.
pub open spec fn real_pc(pc: u32) -> int {
    let p = if pc >= 0x8000_0000 {
        pc % 0x4000_0000 + 0x4000_0000
    } else {
        pc as int
    };
    if p >= 3 {
        p - 3
    } else {
        0
    }
}

/// A walk over the stack frames, from the innermost outward.
#[derive(Debug, Clone, Copy)]
pub struct Backtrace {
    pc: u32,
    sp: u32,
    next_pc: u32,
    last: bool,
}

impl Backtrace {
    pub closed spec fn pc_spec(&self) -> u32 {
        self.pc
    }

    pub closed spec fn sp_spec(&self) -> u32 {
        self.sp
    }

    pub closed spec fn next_pc_spec(&self) -> u32 {
        self.next_pc
    }

    pub closed spec fn last_spec(&self) -> bool {
        self.last
    }

    /// A walk that starts at the frame with registers `pc` and `sp`, whose
    /// caller's program counter is `next_pc`.
    pub fn new(pc: u32, sp: u32, next_pc: u32) -> (r: Backtrace)
        ensures
            r.pc_spec() == pc,
            r.sp_spec() == sp,
            r.next_pc_spec() == next_pc,
            !r.last_spec(),
    {
        Backtrace { pc, sp, next_pc, last: false }
    }

    /// Converts the PC register value of the current frame to its address.
    pub fn get_real_pc(&self) -> (r: u32)
        ensures
            r == real_pc(self.pc_spec()),
    {
        let mut pc = self.pc;
        if (pc & 0x8000_0000) > 0 {
            assert((pc & 0x8000_0000 > 0) == (pc >= 0x8000_0000)) by (bit_vector);
            assert((pc & 0x3fff_ffff) | 0x4000_0000 == pc % 0x4000_0000 + 0x4000_0000)
                by (bit_vector);
            pc = (pc & 0x3fff_ffff) | 0x4000_0000;
        } else {
            assert((pc & 0x8000_0000 > 0) == (pc >= 0x8000_0000)) by (bit_vector);
        }
        if pc >= 3 {
            pc - 3
        } else {
            0
        }
    }

    /// Moves to the caller's frame. `next_pc` and `sp` are the words saved in
    /// the base save area below the current stack pointer (16 and 12 bytes
    /// below it): the program counter of the caller's caller, and the caller's
    /// stack pointer.
    pub fn next_stack_frame(&mut self, next_pc: u32, sp: u32)
        ensures
            final(self).pc_spec() == old(self).next_pc_spec(),
            final(self).next_pc_spec() == next_pc,
            final(self).sp_spec() == sp,
            final(self).last_spec() == old(self).last_spec(),
    {
        self.pc = self.next_pc;
        self.next_pc = next_pc;
        self.sp = sp;
    }

    /// Whether the walk has ended.
    pub fn is_last(&self) -> (r: bool)
        ensures
            r == self.last_spec(),
    {
        self.last
    }

    /// The current frame, or `None` once the walk has ended. A frame that is
    /// not sane is still returned, and ends the walk. After a sane frame the
    /// caller moves on with [`Backtrace::next_stack_frame`].
    pub fn next(&mut self, map: &MemoryMap) -> (r: Option<BacktraceFrame>)
        ensures
            old(self).last_spec() ==> r is None && *final(self) == *old(self),
            !old(self).last_spec() ==> ({
                let f = BacktraceFrame { pc: real_pc(old(self).pc_spec()) as u32, sp: old(self).sp_spec() };
                &&& r == Some(f)
                &&& final(self).last_spec() == !frame_sane(*map, f)
                &&& final(self).pc_spec() == old(self).pc_spec()
                &&& final(self).sp_spec() == old(self).sp_spec()
                &&& final(self).next_pc_spec() == old(self).next_pc_spec()
            }),
    {
        if self.last {
            return None;
        }
        let res = BacktraceFrame { pc: self.get_real_pc(), sp: self.sp };
        if !res.is_sane(map) {
            self.last = true;
        }
        Some(res)
    }
}

} // verus!
