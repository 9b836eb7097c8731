//! The global descriptor table: flat kernel and user segments and the task
//! state segment that holds the stack used on entry from user mode.
use vstd::prelude::*;

verus! {

/// Size in bytes of the task state segment.
pub const TSS_SIZE: u64 = 104;

/// Size in bytes of the table: six segment descriptors and one 16-byte
/// system descriptor.
pub const GDT_SIZE: u64 = 64;

/// Access bytes: present ring-0 code, ring-0 data, ring-3 code, ring-3
/// data, and an available 64-bit TSS.
pub const ACCESS_KERNEL_CODE: u8 = 0x9A;
pub const ACCESS_KERNEL_DATA: u8 = 0x92;
pub const ACCESS_USER_CODE: u8 = 0xFA;
pub const ACCESS_USER_DATA: u8 = 0xF2;
pub const ACCESS_TSS: u8 = 0x89;

/// Granularity bytes: 4 KiB granularity with the 64-bit code flag, and
/// 4 KiB granularity for data.
pub const GRAN_CODE64: u8 = 0xAF;
pub const GRAN_DATA: u8 = 0xCF;

/// Selector of the TSS descriptor.
pub const TSS_SELECTOR: u16 = 0x30;

/// A segment descriptor.
#[derive(Clone, Copy, Debug, PartialEq, Eq, Structural)]
pub struct GdtEntry {
    pub limit_low: u16,
    pub base_low: u16,
    pub base_mid: u8,
    pub access: u8,
    pub granularity: u8,
    pub base_high: u8,
}

/// The 16-byte descriptor of the task state segment.
#[derive(Clone, Copy, Debug, PartialEq, Eq, Structural)]
pub struct TssDescriptor {
    pub limit_low: u16,
    pub base_low: u16,
    pub base_mid: u8,
    pub access: u8,
    pub granularity: u8,
    pub base_high: u8,
    pub base_upper: u32,
    pub reserved: u32,
}

/// The 64-bit task state segment.
#[derive(Clone, Copy, Debug, PartialEq, Eq, Structural)]
pub struct Tss {
    pub reserved0: u32,
    pub rsp0: u64,
    pub rsp1: u64,
    pub rsp2: u64,
    pub reserved1: u64,
    pub ist1: u64,
    pub ist2: u64,
    pub ist3: u64,
    pub ist4: u64,
    pub ist5: u64,
    pub ist6: u64,
    pub ist7: u64,
    pub reserved2: u64,
    pub reserved3: u16,
    pub iomap_base: u16,
}

/// The table: null, kernel code, kernel data, user data (twice), user code,
/// then the TSS.
#[derive(Clone, Copy, Debug, PartialEq, Eq)]
pub struct Gdt {
    pub entries: [GdtEntry; 6],
    pub tss_desc: TssDescriptor,
}

/// The operand of `lgdt`.
#[derive(Clone, Copy, Debug, PartialEq, Eq, Structural)]
pub struct GdtPointer {
    pub limit: u16,
    pub base: u64,
}

/// Base address held by a TSS descriptor.
pub open spec fn tss_base(d: TssDescriptor) -> int {
    d.base_low as int + d.base_mid as int * 0x1_0000 + d.base_high as int * 0x100_0000 + d.base_upper as int
        * 0x1_0000_0000
}

/// A flat segment with the given access and granularity bytes.
pub open spec fn flat_segment(access: u8, granularity: u8) -> GdtEntry {
    GdtEntry { limit_low: 0xFFFF, base_low: 0, base_mid: 0, access, granularity, base_high: 0 }
}

/// The null descriptor.
pub open spec fn null_segment() -> GdtEntry {
    GdtEntry { limit_low: 0, base_low: 0, base_mid: 0, access: 0, granularity: 0, base_high: 0 }
}

impl Tss {
    /// A task state segment with every field zero.
    pub fn new() -> (t: Tss)
        ensures
            t == (Tss {
                reserved0: 0,
                rsp0: 0,
                rsp1: 0,
                rsp2: 0,
                reserved1: 0,
                ist1: 0,
                ist2: 0,
                ist3: 0,
                ist4: 0,
                ist5: 0,
                ist6: 0,
                ist7: 0,
                reserved2: 0,
                reserved3: 0,
                iomap_base: 0,
            }),
    {
        Tss {
            reserved0: 0,
            rsp0: 0,
            rsp1: 0,
            rsp2: 0,
            reserved1: 0,
            ist1: 0,
            ist2: 0,
            ist3: 0,
            ist4: 0,
            ist5: 0,
            ist6: 0,
            ist7: 0,
            reserved2: 0,
            reserved3: 0,
            iomap_base: 0,
        }
    }
}

/// Sets the stack used on entry to ring 0.
pub fn set_kernel_stack(tss: &mut Tss, stack_top: u64)
    ensures
        *final(tss) == (Tss { rsp0: stack_top, ..*old(tss) }),
{
    tss.rsp0 = stack_top;
}

/// The descriptor of a TSS at `tss_addr`: its base split across the four
/// base fields, its limit the TSS's last byte, available and present.
pub fn tss_descriptor(tss_addr: u64) -> (d: TssDescriptor)
    ensures
        tss_base(d) == tss_addr,
        d.limit_low == TSS_SIZE - 1,
        d.access == ACCESS_TSS,
        d.granularity == 0,
        d.reserved == 0,
{
    let base_low = (tss_addr & 0xFFFF) as u16;
    let base_mid = ((tss_addr >> 16) & 0xFF) as u8;
    let base_high = ((tss_addr >> 24) & 0xFF) as u8;
    let base_upper = (tss_addr >> 32) as u32;
    proof {
        assert(tss_addr == (tss_addr & 0xFFFF) + ((tss_addr >> 16) & 0xFF) * 0x1_0000 + ((tss_addr >> 24)
            & 0xFF) * 0x100_0000 + (tss_addr >> 32) * 0x1_0000_0000) by (bit_vector);
        assert((tss_addr & 0xFFFF) < 0x1_0000) by (bit_vector);
        assert(((tss_addr >> 16) & 0xFF) < 0x100) by (bit_vector);
        assert(((tss_addr >> 24) & 0xFF) < 0x100) by (bit_vector);
        assert((tss_addr >> 32) < 0x1_0000_0000) by (bit_vector);
    }
    TssDescriptor {
        limit_low: (TSS_SIZE - 1) as u16,
        base_low,
        base_mid,
        access: ACCESS_TSS,
        granularity: 0,
        base_high,
        base_upper,
        reserved: 0,
    }
}

/// Builds the table for a TSS at `tss_addr` and the `lgdt` operand for the
/// table at `gdt_addr`.
pub fn init(tss_addr: u64, gdt_addr: u64) -> (r: (Gdt, GdtPointer))
    ensures
        r.0.entries@ == seq![
            null_segment(),
            flat_segment(ACCESS_KERNEL_CODE, GRAN_CODE64),
            flat_segment(ACCESS_KERNEL_DATA, GRAN_DATA),
            flat_segment(ACCESS_USER_DATA, GRAN_DATA),
            flat_segment(ACCESS_USER_DATA, GRAN_DATA),
            flat_segment(ACCESS_USER_CODE, GRAN_CODE64),
        ],
        tss_base(r.0.tss_desc) == tss_addr,
        r.0.tss_desc.limit_low == TSS_SIZE - 1,
        r.0.tss_desc.access == ACCESS_TSS,
        r.0.tss_desc.granularity == 0,
        r.0.tss_desc.reserved == 0,
        r.1 == (GdtPointer { limit: (GDT_SIZE - 1) as u16, base: gdt_addr }),
{
    let null = GdtEntry { limit_low: 0, base_low: 0, base_mid: 0, access: 0, granularity: 0, base_high: 0 };
    let kernel_code = GdtEntry {
        limit_low: 0xFFFF,
        base_low: 0,
        base_mid: 0,
        access: ACCESS_KERNEL_CODE,
        granularity: GRAN_CODE64,
        base_high: 0,
    };
    let kernel_data = GdtEntry {
        limit_low: 0xFFFF,
        base_low: 0,
        base_mid: 0,
        access: ACCESS_KERNEL_DATA,
        granularity: GRAN_DATA,
        base_high: 0,
    };
    let user_code = GdtEntry {
        limit_low: 0xFFFF,
        base_low: 0,
        base_mid: 0,
        access: ACCESS_USER_CODE,
        granularity: GRAN_CODE64,
        base_high: 0,
    };
    let user_data = GdtEntry {
        limit_low: 0xFFFF,
        base_low: 0,
        base_mid: 0,
        access: ACCESS_USER_DATA,
        granularity: GRAN_DATA,
        base_high: 0,
    };
    let mut entries = [null; 6];
    entries[1] = kernel_code;
    entries[2] = kernel_data;
    entries[5] = user_code;
    entries[3] = user_data;
    entries[4] = user_data;
    let gdt = Gdt { entries, tss_desc: tss_descriptor(tss_addr) };
    proof {
        assert(gdt.entries@ =~= seq![
            null_segment(),
            flat_segment(ACCESS_KERNEL_CODE, GRAN_CODE64),
            flat_segment(ACCESS_KERNEL_DATA, GRAN_DATA),
            flat_segment(ACCESS_USER_DATA, GRAN_DATA),
            flat_segment(ACCESS_USER_DATA, GRAN_DATA),
            flat_segment(ACCESS_USER_CODE, GRAN_CODE64),
        ]);
    }
    (gdt, GdtPointer { limit: (GDT_SIZE - 1) as u16, base: gdt_addr })
}

} // verus!
