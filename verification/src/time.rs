//! Time sources: the programmable interval timer's counter, the time-stamp
//! counter and its frequency, and the local APIC timer.
use vstd::prelude::*;

verus! {

/// Input clock of the programmable interval timer, in Hz.
pub const PIT_FREQUENCY: u64 = 1193180;

/// PIT ticks in about 10 ms.
pub const PIT_CALIBRATION_TICKS: u64 = 11932;

/// Largest value of the PIT counter.
pub const PIT_COUNTER_MAX: u64 = 0xFFFF;

/// Mask of the physical base address in the APIC base register.
pub const APIC_BASE_MASK: u64 = 0xFFFFF000;

/// Global enable bit of the APIC base register.
pub const APIC_GLOBAL_ENABLE: u64 = 1 << 11;

/// Local APIC registers, by offset from the APIC base.
pub const LAPIC_EOI: u64 = 0xB0;
pub const LAPIC_SPURIOUS_INTERRUPT_VECTOR: u64 = 0xF0;
pub const LAPIC_LVT_TIMER: u64 = 0x320;
pub const LAPIC_INITIAL_COUNT: u64 = 0x380;
pub const LAPIC_CURRENT_COUNT: u64 = 0x390;
pub const LAPIC_DIVIDE_CONFIG: u64 = 0x3E0;

/// Divide configuration for a divisor of 16.
pub const LAPIC_DIVIDE_BY_16: u32 = 0x3;

/// Vector of the timer interrupt.
pub const TIMER_VECTOR: u32 = 0x30;

/// A write of `value` to local APIC register `reg`.
#[derive(Clone, Copy, Debug, PartialEq, Eq, Structural)]
pub struct LapicWrite {
    pub reg: u64,
    pub value: u32,
}

/// PIT command port.
pub const PIT_COMMAND: u16 = 0x43;

/// PIT channel 0 data port.
pub const PIT_CHANNEL0: u16 = 0x40;

/// The port writes that set the PIT up for polling: channel 0 in rate
/// generator mode, low byte then high byte, with the largest divisor.
pub fn pit_init() -> (ops: Vec<(u16, u8)>)
    ensures
        ops@ == seq![(0x43u16, 0x34u8), (0x40u16, 0xFFu8), (0x40u16, 0xFFu8)],
{
    let mut ops: Vec<(u16, u8)> = Vec::new();
    ops.push((PIT_COMMAND, 0x34));
    ops.push((PIT_CHANNEL0, 0xFF));
    ops.push((PIT_CHANNEL0, 0xFF));
    proof {
        assert(ops@ =~= seq![(0x43u16, 0x34u8), (0x40u16, 0xFFu8), (0x40u16, 0xFFu8)]);
    }
    ops
}

/// The port write that latches channel 0's counter before it is read.
pub fn pit_latch() -> (op: (u16, u8))
    ensures
        op == (0x43u16, 0x00u8),
{
    (PIT_COMMAND, 0x00)
}

/// The counter value read from the PIT as two bytes, low byte first.
pub fn pit_counter(low: u8, high: u8) -> (r: u16)
    ensures
        r == high as int * 0x100 + low as int,
{
    let r = ((high as u16) << 8u16) | (low as u16);
    proof {
        assert(((high as u16) << 8u16) | (low as u16) == high as u16 * 0x100 + low as u16) by (bit_vector);
    }
    r
}

/// The time-stamp counter from its two 32-bit halves.
pub fn tsc_from_parts(high: u32, low: u32) -> (r: u64)
    ensures
        r == high as int * 0x1_0000_0000 + low as int,
{
    let r = ((high as u64) << 32u64) | (low as u64);
    proof {
        assert(((high as u64) << 32u64) | (low as u64) == high as u64 * 0x1_0000_0000 + low as u64)
            by (bit_vector);
    }
    r
}

/// PIT ticks between two readings of the down-counting PIT, across one
/// wrap of the counter.
pub fn pit_delta(count1: u64, count2: u64) -> (d: u64)
    requires
        count2 <= PIT_COUNTER_MAX,
    ensures
        d == if count1 >= count2 { count1 - count2 } else { count1 + (PIT_COUNTER_MAX - count2) },
{
    if count1 >= count2 {
        count1 - count2
    } else {
        count1 + (PIT_COUNTER_MAX - count2)
    }
}

/// The TSC frequency in Hz from the TSC readings taken `pit_ticks` PIT
/// ticks apart.
pub fn tsc_frequency(tsc1: u64, tsc2: u64, pit_ticks: u64) -> (f: u64)
    requires
        tsc1 <= tsc2,
        pit_ticks > 0,
        (tsc2 - tsc1) * PIT_FREQUENCY <= u64::MAX,
    ensures
        f == (tsc2 - tsc1) * PIT_FREQUENCY / pit_ticks as int,
{
    (tsc2 - tsc1) * PIT_FREQUENCY / pit_ticks
}

/// Whether the calibration has waited long enough.
pub fn calibration_done(pit_ticks: u64) -> (r: bool)
    ensures
        r == (pit_ticks >= PIT_CALIBRATION_TICKS),
{
    pit_ticks >= PIT_CALIBRATION_TICKS
}

/// Milliseconds of a TSC reading at `freq` Hz.
pub fn read_millis(tsc: u64, freq: u64) -> (r: u64)
    requires
        freq > 0,
        tsc * 1000 <= u64::MAX,
    ensures
        r == tsc * 1000 / freq as int,
{
    tsc * 1000 / freq
}

/// Microseconds of a TSC reading at `freq` Hz.
pub fn read_micros(tsc: u64, freq: u64) -> (r: u64)
    requires
        freq > 0,
        tsc * 1_000_000 <= u64::MAX,
    ensures
        r == tsc * 1_000_000 / freq as int,
{
    tsc * 1_000_000 / freq
}

/// The four registers returned by one `cpuid` leaf.
#[derive(Clone, Copy, Debug, PartialEq, Eq, Structural)]
pub struct CpuidLeaf {
    pub eax: u32,
    pub ebx: u32,
    pub ecx: u32,
    pub edx: u32,
}

/// The TSC frequency that `cpuid` reports, if any: from leaf 0x15 (crystal
/// ratio, at 1 MHz per step), else from leaf 0x16, else, under a hypervisor
/// (leaf 1, bit 31 of ecx) whose highest leaf reaches 0x40000010, from that
/// leaf's kHz value.
pub open spec fn cpuid_tsc_frequency(
    l15: CpuidLeaf,
    l16: CpuidLeaf,
    l1: CpuidLeaf,
    hv: CpuidLeaf,
    hv10: CpuidLeaf,
) -> Option<u64> {
    if l15.eax != 0 && l15.ebx != 0 && l15.ecx != 0 {
        Some((l15.ebx as int * 1000000 / l15.eax as int) as u64)
    } else if l16.eax != 0 && l16.ebx != 0 && l16.ecx != 0 {
        Some((l16.ecx as int * l16.ebx as int / l16.eax as int) as u64)
    } else if l1.ecx & 0x8000_0000 != 0 && hv.eax >= 0x4000_0010 && hv10.eax != 0 {
        Some((hv10.eax as int * 1000) as u64)
    } else {
        None
    }
}

/// The TSC frequency that `cpuid` reports (see `cpuid_tsc_frequency`),
/// from the leaves 0x15, 0x16, 1, 0x40000000 and 0x40000010.
pub fn get_tsc_freq_from_cpuid(
    l15: CpuidLeaf,
    l16: CpuidLeaf,
    l1: CpuidLeaf,
    hv: CpuidLeaf,
    hv10: CpuidLeaf,
) -> (r: Option<u64>)
    ensures
        r == cpuid_tsc_frequency(l15, l16, l1, hv, hv10),
{
    if l15.eax != 0 && l15.ebx != 0 && l15.ecx != 0 {
        proof {
            assert(l15.ebx as u64 * 1000000 <= 0xFFFF_FFFFu64 * 1000000);
        }
        return Some((l15.ebx as u64 * 1000000) / l15.eax as u64);
    }
    if l16.eax != 0 && l16.ebx != 0 && l16.ecx != 0 {
        proof {
            assert(l16.ecx as u64 * l16.ebx as u64 <= 0xFFFF_FFFFu64 * 0xFFFF_FFFFu64) by (nonlinear_arith)
                requires l16.ecx <= 0xFFFF_FFFFu32, l16.ebx <= 0xFFFF_FFFFu32;
        }
        return Some(l16.ecx as u64 * l16.ebx as u64 / l16.eax as u64);
    }
    if l1.ecx & 0x8000_0000 != 0 {
        if hv.eax >= 0x4000_0010 {
            if hv10.eax != 0 {
                return Some(hv10.eax as u64 * 1000);
            }
        }
    }
    None
}

/// The local APIC base register with the global enable bit set, the APIC's
/// physical address, and the address at which it is reached through the
/// higher-half map at `hhdm_offset`.
pub fn apic_enable(apic_base_msr: u64, hhdm_offset: u64) -> (r: (u64, u64, u64))
    requires
        (apic_base_msr & APIC_BASE_MASK) + hhdm_offset <= u64::MAX,
    ensures
        r.0 == apic_base_msr | APIC_GLOBAL_ENABLE,
        r.1 == (apic_base_msr | APIC_GLOBAL_ENABLE) & APIC_BASE_MASK,
        r.2 == r.1 + hhdm_offset,
{
    let base = apic_base_msr | APIC_GLOBAL_ENABLE;
    let phys = base & APIC_BASE_MASK;
    proof {
        assert((apic_base_msr | APIC_GLOBAL_ENABLE) & APIC_BASE_MASK == apic_base_msr & APIC_BASE_MASK)
            by (bit_vector);
    }
    (base, phys, phys + hhdm_offset)
}

/// Address at which the APIC registers are reached.
pub fn get_base(apic_base_msr: u64, hhdm_offset: u64) -> (r: u64)
    requires
        (apic_base_msr & APIC_BASE_MASK) + hhdm_offset <= u64::MAX,
    ensures
        r == (apic_base_msr & APIC_BASE_MASK) + hhdm_offset,
{
    (apic_base_msr & APIC_BASE_MASK) + hhdm_offset
}

/// The spurious interrupt vector register with the APIC software-enabled.
pub fn spurious_enable(value: u32) -> (r: u32)
    ensures
        r == value | 0x100,
{
    value | 0x100
}

/// The spurious interrupt vector register with vector 0xFF.
pub fn spurious_vector(value: u32) -> (r: u32)
    ensures
        r == (value & 0xFFFF_FF00) | 0xFF,
{
    (value & 0xFFFF_FF00) | 0xFF
}

/// The timer's local vector table entry: vector `TIMER_VECTOR`, unmasked,
/// one-shot.
pub fn lvt_timer_oneshot(value: u32) -> (r: u32)
    ensures
        r == ((value & 0xFFFF_FF00) | TIMER_VECTOR) & !(1u32 << 16u32) & !(1u32 << 17u32),
        r & 0xFF == TIMER_VECTOR,
        r & (1u32 << 16u32) == 0,
        r & (1u32 << 17u32) == 0,
{
    let mut lvt = (value & 0xFFFF_FF00) | TIMER_VECTOR;
    lvt = lvt & !(1u32 << 16u32);
    lvt = lvt & !(1u32 << 17u32);
    proof {
        let v = value;
        assert((((v & 0xFFFF_FF00) | 0x30u32) & !(1u32 << 16u32) & !(1u32 << 17u32)) & 0xFF == 0x30u32)
            by (bit_vector);
        assert((((v & 0xFFFF_FF00) | 0x30u32) & !(1u32 << 16u32) & !(1u32 << 17u32)) & (1u32 << 16u32)
            == 0) by (bit_vector);
        assert((((v & 0xFFFF_FF00) | 0x30u32) & !(1u32 << 16u32) & !(1u32 << 17u32)) & (1u32 << 17u32)
            == 0) by (bit_vector);
    }
    lvt
}

/// The APIC timer: its ticks per millisecond, once calibrated.
#[derive(Clone, Copy, Debug, PartialEq, Eq, Structural)]
pub struct ApicTimer {
    pub ticks_rate_ms: u32,
}

impl ApicTimer {
    /// An uncalibrated timer.
    pub fn new() -> (t: ApicTimer)
        ensures
            t.ticks_rate_ms == 0,
    {
        ApicTimer { ticks_rate_ms: 0 }
    }

    /// The writes that start a calibration run: divider, then the largest
    /// initial count.
    pub fn calibration_start(divider: u32) -> (ops: Vec<LapicWrite>)
        ensures
            ops@ == seq![
                LapicWrite { reg: LAPIC_DIVIDE_CONFIG, value: divider },
                LapicWrite { reg: LAPIC_INITIAL_COUNT, value: 0xFFFF_FFFF },
            ],
    {
        let mut ops = Vec::new();
        ops.push(LapicWrite { reg: LAPIC_DIVIDE_CONFIG, value: divider });
        ops.push(LapicWrite { reg: LAPIC_INITIAL_COUNT, value: 0xFFFF_FFFF });
        proof {
            assert(ops@ =~= seq![
                LapicWrite { reg: LAPIC_DIVIDE_CONFIG, value: divider },
                LapicWrite { reg: LAPIC_INITIAL_COUNT, value: 0xFFFF_FFFF },
            ]);
        }
        ops
    }

    /// Records the ticks per millisecond from the current count read after
    /// `ms` milliseconds of counting down from the largest count.
    pub fn calibrate(&mut self, current_count: u32, ms: u32)
        requires
            ms > 0,
        ensures
            final(self).ticks_rate_ms == (0xFFFF_FFFFu32 - current_count) / ms as int,
    {
        let elapsed_ticks = 0xFFFF_FFFFu32 - current_count;
        self.ticks_rate_ms = elapsed_ticks / ms;
    }

    /// The write that starts a one-shot countdown of `ms` milliseconds.
    pub fn start_timer(&self, ms: u32) -> (w: LapicWrite)
        requires
            self.ticks_rate_ms * ms <= u32::MAX,
        ensures
            w == (LapicWrite { reg: LAPIC_INITIAL_COUNT, value: (self.ticks_rate_ms * ms) as u32 }),
    {
        LapicWrite { reg: LAPIC_INITIAL_COUNT, value: self.ticks_rate_ms * ms }
    }
}

/// The write that acknowledges the current APIC interrupt.
pub fn eoi() -> (w: LapicWrite)
    ensures
        w == (LapicWrite { reg: LAPIC_EOI, value: 0 }),
{
    LapicWrite { reg: LAPIC_EOI, value: 0 }
}

/// The write that stops the APIC timer.
pub fn reset() -> (w: LapicWrite)
    ensures
        w == (LapicWrite { reg: LAPIC_INITIAL_COUNT, value: 0 }),
{
    LapicWrite { reg: LAPIC_INITIAL_COUNT, value: 0 }
}

/// The writes that finish setting up the timer after calibration, given
/// the values read from the spurious interrupt vector and the timer's
/// local vector table entry: enable the APIC, set the spurious vector,
/// stop the timer, program the timer entry, and divide by 16.
pub fn timer_setup(spurious1: u32, spurious2: u32, lvt: u32) -> (ops: Vec<LapicWrite>)
    ensures
        ops@ == seq![
            LapicWrite { reg: LAPIC_SPURIOUS_INTERRUPT_VECTOR, value: spurious1 | 0x100 },
            LapicWrite { reg: LAPIC_SPURIOUS_INTERRUPT_VECTOR, value: (spurious2 & 0xFFFF_FF00) | 0xFF },
            LapicWrite { reg: LAPIC_INITIAL_COUNT, value: 0 },
            LapicWrite {
                reg: LAPIC_LVT_TIMER,
                value: ((lvt & 0xFFFF_FF00) | TIMER_VECTOR) & !(1u32 << 16u32) & !(1u32 << 17u32),
            },
            LapicWrite { reg: LAPIC_DIVIDE_CONFIG, value: LAPIC_DIVIDE_BY_16 },
        ],
{
    let mut ops = Vec::new();
    ops.push(LapicWrite { reg: LAPIC_SPURIOUS_INTERRUPT_VECTOR, value: spurious_enable(spurious1) });
    ops.push(LapicWrite { reg: LAPIC_SPURIOUS_INTERRUPT_VECTOR, value: spurious_vector(spurious2) });
    ops.push(reset());
    ops.push(LapicWrite { reg: LAPIC_LVT_TIMER, value: lvt_timer_oneshot(lvt) });
    ops.push(LapicWrite { reg: LAPIC_DIVIDE_CONFIG, value: LAPIC_DIVIDE_BY_16 });
    proof {
        assert(ops@ =~= seq![
            LapicWrite { reg: LAPIC_SPURIOUS_INTERRUPT_VECTOR, value: spurious1 | 0x100 },
            LapicWrite { reg: LAPIC_SPURIOUS_INTERRUPT_VECTOR, value: (spurious2 & 0xFFFF_FF00) | 0xFF },
            LapicWrite { reg: LAPIC_INITIAL_COUNT, value: 0 },
            LapicWrite {
                reg: LAPIC_LVT_TIMER,
                value: ((lvt & 0xFFFF_FF00) | TIMER_VECTOR) & !(1u32 << 16u32) & !(1u32 << 17u32),
            },
            LapicWrite { reg: LAPIC_DIVIDE_CONFIG, value: LAPIC_DIVIDE_BY_16 },
        ]);
    }
    ops
}

} // verus!
