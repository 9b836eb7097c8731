//! Setting up address spaces: the template whose entries every address
//! space copies (it maps the kernel image), the kernel's own top-level
//! table (the template plus a direct map of physical memory), and the
//! user-accessible text that the kernel carries for its first user code.
use vstd::prelude::*;
use crate::paging::{
    PageTables, map_all_spec, get_or_create, can_step, run_spec, run_fits, zero_table,
    lemma_map_all_keeps_keys, tables_sound, lemma_low_flags, lemma_step, lemma_step_grows,
    lemma_map_all_grows, lemma_add_table_in_used_frame, lemma_copy_table_keeps,
    lemma_zero_table_keeps_tables_sound, lemma_mark_used_keeps_tables, law_map_all_keeps_tables_sound,
    levels_ok, levels_kept, lemma_step_levels, lemma_map_all_levels, lemma_zero_table_levels,
    lemma_copy_table_levels, tops_in_levels,
};
use crate::frames::{FrameBitmap, MemmapEntry, first_free_frame, frame_addr};

verus! {

/// Flags of the kernel's own pages: present and writable.
pub const KERNEL_MAP_FLAGS: u64 = 0x3;

/// Flags of the user-accessible text: present, writable, user.
pub const USER_TEXT_FLAGS: u64 = 0x7;

/// Top-level entry of the higher half, whose table is made in advance so
/// that every address space shares it.
pub const KERNEL_HALF_INDEX: usize = 256;

/// `x` rounded up to a page.
pub open spec fn page_up(x: nat) -> nat {
    ((x + 0xFFF) / 0x1000) * 0x1000
}

/// `x` rounded down to a page.
pub open spec fn page_down(x: nat) -> nat {
    (x / 0x1000) * 0x1000
}

/// Number of pages of the kernel image: page steps from `virt_base` while
/// below `kernel_end` rounded up to a page.
pub open spec fn kernel_pages(virt_base: u64, kernel_end: u64) -> nat {
    let end = page_up(kernel_end as nat);
    if virt_base < end {
        ((end - virt_base + 0xFFF) / 0x1000) as nat
    } else {
        0
    }
}

/// The tables, the frame use and the template's address after the
/// template is made: a zeroed table in the first free frame, the table
/// under its higher-half entry made in advance, then the kernel image
/// mapped from `virt_base` to `phys_base` (up to `kernel_end`).  Also
/// whether every step could be taken.
pub open spec fn kernel_mapping_spec(
    t: Map<u64, Seq<u64>>,
    f: Seq<bool>,
    phys_base: u64,
    virt_base: u64,
    kernel_end: u64,
) -> (Map<u64, Seq<u64>>, Seq<bool>, u64, bool) {
    let fc = first_free_frame(f)->0;
    let copy = frame_addr(fc as nat) as u64;
    let f1 = f.update(fc, true);
    let t1 = t.insert(copy, zero_table());
    let (t2, f2, pdpt) = get_or_create(t1, f1, copy, KERNEL_HALF_INDEX as int, KERNEL_MAP_FLAGS);
    let n = kernel_pages(virt_base, kernel_end);
    let (t3, f3, ok3) = map_all_spec(t2, f2, copy, run_spec(virt_base, phys_base, n), KERNEL_MAP_FLAGS);
    let ok = {
        &&& first_free_frame(f) is Some
        &&& can_step(t1, f1, copy, KERNEL_HALF_INDEX as int)
        &&& kernel_end + 0xFFF <= u64::MAX
        &&& run_fits(virt_base, phys_base, n)
        &&& ok3
    };
    (t3, f3, copy, ok)
}

/// The direct-map run of a memory map entry: its pages, rounded out to
/// whole pages, each mapped `hhdm` above its physical address; as the
/// first virtual page, the first physical page and the number of pages.
pub open spec fn entry_run(e: MemmapEntry, hhdm: u64) -> (u64, u64, nat) {
    let start = page_down(e.base as nat);
    let end = page_up((e.base + e.length) as nat);
    ((start + hhdm) as u64, start as u64, if start < end { ((end - start) / 0x1000) as nat } else { 0 })
}

/// The entry's rounded end and its direct-map run stay in range.
pub open spec fn entry_ok(e: MemmapEntry, hhdm: u64) -> bool {
    let (v, p, c) = entry_run(e, hhdm);
    &&& e.base + e.length + 0xFFF <= u64::MAX
    &&& page_down(e.base as nat) + hhdm <= u64::MAX
    &&& run_fits(v, p, c)
}

/// The tables and the frame use after the direct map of each entry is
/// added to `pml4` in turn, and whether every step could be taken.
pub open spec fn direct_map_spec(
    t: Map<u64, Seq<u64>>,
    f: Seq<bool>,
    pml4: u64,
    entries: Seq<MemmapEntry>,
    hhdm: u64,
) -> (Map<u64, Seq<u64>>, Seq<bool>, bool)
    decreases entries.len(),
{
    if entries.len() == 0 {
        (t, f, true)
    } else {
        let (t1, f1, ok1) = direct_map_spec(t, f, pml4, entries.drop_last(), hhdm);
        let e = entries.last();
        let (v, p, c) = entry_run(e, hhdm);
        let (t2, f2, ok2) = map_all_spec(t1, f1, pml4, run_spec(v, p, c), KERNEL_MAP_FLAGS);
        (t2, f2, ok1 && entry_ok(e, hhdm) && ok2)
    }
}

proof fn lemma_direct_map_ok_prefix(
    t: Map<u64, Seq<u64>>,
    f: Seq<bool>,
    pml4: u64,
    entries: Seq<MemmapEntry>,
    hhdm: u64,
    k: int,
)
    requires
        0 <= k <= entries.len(),
        direct_map_spec(t, f, pml4, entries, hhdm).2,
    ensures
        direct_map_spec(t, f, pml4, entries.take(k), hhdm).2,
    decreases entries.len() - k,
{
    if k == entries.len() {
        assert(entries.take(k) =~= entries);
    } else {
        lemma_direct_map_ok_prefix(t, f, pml4, entries, hhdm, k + 1);
        assert(entries.take(k + 1).drop_last() =~= entries.take(k));
    }
}

/// The tables, the frame use, the kernel's top-level table and the
/// template after the kernel's address space is set up: the kernel table
/// takes the first free frame, the template is made (see
/// `kernel_mapping_spec`), its entries are copied into the kernel table,
/// and the direct map of every memory map entry is added to it.  Also
/// whether every step could be taken.
pub open spec fn vmm_init_spec(
    t: Map<u64, Seq<u64>>,
    f: Seq<bool>,
    phys_base: u64,
    virt_base: u64,
    kernel_end: u64,
    entries: Seq<MemmapEntry>,
    hhdm: u64,
) -> (Map<u64, Seq<u64>>, Seq<bool>, u64, u64, bool) {
    let fk = first_free_frame(f)->0;
    let kpml4 = frame_addr(fk as nat) as u64;
    let f1 = f.update(fk, true);
    let (t2, f2, copy, ok2) = kernel_mapping_spec(t, f1, phys_base, virt_base, kernel_end);
    let t3 = t2.insert(kpml4, zero_table());
    let t4 = t3.insert(kpml4, t3[copy]);
    let (t5, f5, ok5) = direct_map_spec(t4, f2, kpml4, entries, hhdm);
    (t5, f5, kpml4, copy, first_free_frame(f) is Some && ok2 && ok5)
}

/// Adding the direct map of memory map entries keeps the tables sound.
pub proof fn law_direct_map_keeps_tables_sound(
    t: Map<u64, Seq<u64>>,
    f: Seq<bool>,
    pml4: u64,
    entries: Seq<MemmapEntry>,
    hhdm: u64,
)
    requires
        tables_sound(t, f),
        direct_map_spec(t, f, pml4, entries, hhdm).2,
    ensures
        tables_sound(direct_map_spec(t, f, pml4, entries, hhdm).0, direct_map_spec(t, f, pml4, entries, hhdm).1),
    decreases entries.len(),
{
    if entries.len() > 0 {
        law_direct_map_keeps_tables_sound(t, f, pml4, entries.drop_last(), hhdm);
        let (t1, f1, ok1) = direct_map_spec(t, f, pml4, entries.drop_last(), hhdm);
        let (v, p, c) = entry_run(entries.last(), hhdm);
        lemma_low_flags(KERNEL_MAP_FLAGS);
        law_map_all_keeps_tables_sound(t1, f1, pml4, run_spec(v, p, c), KERNEL_MAP_FLAGS);
    }
}

/// Setting up the kernel's address space keeps every table in a frame in
/// use: each table it makes takes a frame that it marks used.
pub proof fn law_vmm_init_keeps_tables_sound(
    t: Map<u64, Seq<u64>>,
    f: Seq<bool>,
    phys_base: u64,
    virt_base: u64,
    kernel_end: u64,
    entries: Seq<MemmapEntry>,
    hhdm: u64,
)
    requires
        tables_sound(t, f),
        vmm_init_spec(t, f, phys_base, virt_base, kernel_end, entries, hhdm).4,
    ensures
        ({
            let r = vmm_init_spec(t, f, phys_base, virt_base, kernel_end, entries, hhdm);
            tables_sound(r.0, r.1)
        }),
{
    lemma_low_flags(KERNEL_MAP_FLAGS);
    let fk = first_free_frame(f)->0;
    let k = choose|k: int| crate::frames::is_first_free(f, k);
    assert(crate::frames::is_first_free(f, k));
    let kpml4 = frame_addr(fk as nat) as u64;
    let f1 = f.update(fk, true);
    lemma_mark_used_keeps_tables(t, f, fk);
    // the template
    let fc = first_free_frame(f1)->0;
    let copy = frame_addr(fc as nat) as u64;
    let f1c = f1.update(fc, true);
    let t1 = t.insert(copy, zero_table());
    lemma_zero_table_keeps_tables_sound(t, f1);
    let (t2, f2, pdpt) = get_or_create(t1, f1c, copy, KERNEL_HALF_INDEX as int, KERNEL_MAP_FLAGS);
    lemma_step(t1, f1c, copy, KERNEL_HALF_INDEX as int, KERNEL_MAP_FLAGS);
    lemma_step_grows(t1, f1c, copy, KERNEL_HALF_INDEX as int, KERNEL_MAP_FLAGS);
    let n = kernel_pages(virt_base, kernel_end);
    let run = run_spec(virt_base, phys_base, n);
    let (t3, f3, ok3) = map_all_spec(t2, f2, copy, run, KERNEL_MAP_FLAGS);
    law_map_all_keeps_tables_sound(t2, f2, copy, run, KERNEL_MAP_FLAGS);
    lemma_map_all_grows(t2, f2, copy, run, KERNEL_MAP_FLAGS);
    lemma_map_all_keeps_keys(t2, f2, copy, run, KERNEL_MAP_FLAGS, copy);
    assert(kernel_mapping_spec(t, f1, phys_base, virt_base, kernel_end) == (t3, f3, copy, true));
    // the kernel's own table, then the direct map
    assert(f1c[fk]);
    assert(f2[fk]);
    assert(f3[fk]);
    lemma_add_table_in_used_frame(t3, f3, fk);
    let t4 = t3.insert(kpml4, zero_table());
    assert(t4.contains_key(copy));
    lemma_copy_table_keeps(t4, f3, copy, kpml4);
    let t5 = t4.insert(kpml4, t4[copy]);
    law_direct_map_keeps_tables_sound(t5, f3, kpml4, entries, hhdm);
}

/// Adding the direct map to a top-level table keeps the levels.
pub proof fn lemma_direct_map_levels(
    t: Map<u64, Seq<u64>>,
    f: Seq<bool>,
    pml4: u64,
    entries: Seq<MemmapEntry>,
    hhdm: u64,
    lvl: Map<u64, nat>,
) -> (lvl2: Map<u64, nat>)
    requires
        tables_sound(t, f),
        direct_map_spec(t, f, pml4, entries, hhdm).2,
        levels_ok(t, lvl),
        t.contains_key(pml4),
        lvl[pml4] == 4,
    ensures
        levels_ok(direct_map_spec(t, f, pml4, entries, hhdm).0, lvl2),
        levels_kept(t, lvl, lvl2),
        forall|a: u64| #[trigger] t.contains_key(a) ==> direct_map_spec(t, f, pml4, entries, hhdm).0.contains_key(a),
    decreases entries.len(),
{
    if entries.len() == 0 {
        lvl
    } else {
        let lvl1 = lemma_direct_map_levels(t, f, pml4, entries.drop_last(), hhdm, lvl);
        law_direct_map_keeps_tables_sound(t, f, pml4, entries.drop_last(), hhdm);
        let (t1, f1, ok1) = direct_map_spec(t, f, pml4, entries.drop_last(), hhdm);
        let (v, p, c) = entry_run(entries.last(), hhdm);
        lemma_low_flags(KERNEL_MAP_FLAGS);
        lemma_map_all_levels(t1, f1, pml4, run_spec(v, p, c), KERNEL_MAP_FLAGS, lvl1)
    }
}

/// Setting up the kernel's address space keeps the tables in levels, the
/// kernel's table and the template being top-level tables.
pub proof fn law_vmm_init_levels(
    t: Map<u64, Seq<u64>>,
    f: Seq<bool>,
    phys_base: u64,
    virt_base: u64,
    kernel_end: u64,
    entries: Seq<MemmapEntry>,
    hhdm: u64,
    lvl: Map<u64, nat>,
) -> (lvl5: Map<u64, nat>)
    requires
        tables_sound(t, f),
        levels_ok(t, lvl),
        vmm_init_spec(t, f, phys_base, virt_base, kernel_end, entries, hhdm).4,
    ensures
        ({
            let (t5, f5, kpml4, copy, ok) = vmm_init_spec(t, f, phys_base, virt_base, kernel_end, entries, hhdm);
            &&& levels_ok(t5, lvl5)
            &&& t5.contains_key(kpml4) && lvl5[kpml4] == 4
            &&& t5.contains_key(copy) && lvl5[copy] == 4
        }),
{
    lemma_low_flags(KERNEL_MAP_FLAGS);
    let fk = first_free_frame(f)->0;
    let k = choose|k: int| crate::frames::is_first_free(f, k);
    assert(crate::frames::is_first_free(f, k));
    let kpml4 = frame_addr(fk as nat) as u64;
    crate::paging::lemma_frame_addr_bits_pub(fk as u64);
    assert(!t.contains_key(kpml4)) by {
        if t.contains_key(kpml4) {
            assert(f[(kpml4 / 4096) as int]);
        }
    }
    let f1 = f.update(fk, true);
    lemma_mark_used_keeps_tables(t, f, fk);
    // the template
    let fc = first_free_frame(f1)->0;
    let kc = choose|k: int| crate::frames::is_first_free(f1, k);
    assert(crate::frames::is_first_free(f1, kc));
    let copy = frame_addr(fc as nat) as u64;
    crate::paging::lemma_frame_addr_bits_pub(fc as u64);
    assert(fc != fk);
    assert(!t.contains_key(copy)) by {
        if t.contains_key(copy) {
            assert(f1[(copy / 4096) as int]);
        }
    }
    let f1c = f1.update(fc, true);
    let t1 = t.insert(copy, zero_table());
    lemma_zero_table_keeps_tables_sound(t, f1);
    lemma_zero_table_levels(t, lvl, copy, 4);
    let lvl1 = lvl.insert(copy, 4);
    let (t2, f2, pdpt) = get_or_create(t1, f1c, copy, KERNEL_HALF_INDEX as int, KERNEL_MAP_FLAGS);
    lemma_step(t1, f1c, copy, KERNEL_HALF_INDEX as int, KERNEL_MAP_FLAGS);
    lemma_step_grows(t1, f1c, copy, KERNEL_HALF_INDEX as int, KERNEL_MAP_FLAGS);
    let lvl2 = lemma_step_levels(t1, f1c, copy, KERNEL_HALF_INDEX as int, KERNEL_MAP_FLAGS, lvl1);
    let n = kernel_pages(virt_base, kernel_end);
    let run = run_spec(virt_base, phys_base, n);
    let (t3, f3, ok3) = map_all_spec(t2, f2, copy, run, KERNEL_MAP_FLAGS);
    law_map_all_keeps_tables_sound(t2, f2, copy, run, KERNEL_MAP_FLAGS);
    lemma_map_all_grows(t2, f2, copy, run, KERNEL_MAP_FLAGS);
    let lvl3 = lemma_map_all_levels(t2, f2, copy, run, KERNEL_MAP_FLAGS, lvl2);
    assert(kernel_mapping_spec(t, f1, phys_base, virt_base, kernel_end) == (t3, f3, copy, true));
    // the kernel's own table is new
    assert(f1c[fk]);
    assert(f2[fk]);
    assert(!t1.contains_key(kpml4));
    assert(!t2.contains_key(kpml4));
    assert(!t3.contains_key(kpml4));
    let t4 = t3.insert(kpml4, zero_table());
    lemma_add_table_in_used_frame(t3, f3, fk);
    lemma_zero_table_levels(t3, lvl3, kpml4, 4);
    let lvl4 = lvl3.insert(kpml4, 4);
    assert(t4.contains_key(copy));
    lemma_copy_table_keeps(t4, f3, copy, kpml4);
    lemma_copy_table_levels(t4, lvl4, copy, kpml4);
    let t5 = t4.insert(kpml4, t4[copy]);
    assert(lvl2[copy] == 4);
    assert(t2.contains_key(copy));
    assert(lvl3[copy] == 4);
    assert(lvl4[copy] == 4 && lvl4[kpml4] == 4);
    assert(t5.contains_key(copy) && t5.contains_key(kpml4));
    law_direct_map_keeps_tables_sound(t5, f3, kpml4, entries, hhdm);
    let lvl5 = lemma_direct_map_levels(t5, f3, kpml4, entries, hhdm, lvl4);
    assert(vmm_init_spec(t, f, phys_base, virt_base, kernel_end, entries, hhdm).0 == direct_map_spec(
        t5,
        f3,
        kpml4,
        entries,
        hhdm,
    ).0);
    lvl5
}

/// Makes the template that every address space copies (see
/// `kernel_mapping_spec`) and returns its address.
pub fn init_kernel_mapping(
    tables: &mut PageTables,
    frames: &mut FrameBitmap,
    phys_base: u64,
    virt_base: u64,
    kernel_end: u64,
) -> (copy: u64)
    requires
        old(tables).wf(),
        old(frames).wf(),
        kernel_mapping_spec(old(tables)@, old(frames).frames(), phys_base, virt_base, kernel_end).3,
    ensures
        final(tables).wf(),
        final(frames).wf(),
        final(frames).size() == old(frames).size(),
        final(frames).addr() == old(frames).addr(),
        ({
            let (t, f, c, ok) = kernel_mapping_spec(old(tables)@, old(frames).frames(), phys_base, virt_base, kernel_end);
            &&& final(tables)@ == t
            &&& final(frames).frames() == f
            &&& copy == c
            &&& t.contains_key(c)
        }),
{
    let copy = match frames.alloc_frame() {
        Some(a) => a,
        None => {
            proof {
                assert(false);
            }
            0
        },
    };
    tables.add_zero_table(copy);
    let _pdpt = tables.get_or_create_table(frames, copy, KERNEL_HALF_INDEX, KERNEL_MAP_FLAGS);
    let y = kernel_end + 0xFFF;
    let end = y & !0xFFFu64;
    proof {
        assert(y & !0xFFFu64 == y - y % 0x1000) by (bit_vector);
        vstd::arithmetic::div_mod::lemma_fundamental_div_mod(y as int, 0x1000);
    }
    let count = if virt_base < end {
        (end - virt_base + 0xFFF) / 0x1000
    } else {
        0
    };
    let ghost t2 = tables@;
    let ghost f2 = frames.frames();
    tables.map_run(frames, copy, virt_base, phys_base, count, KERNEL_MAP_FLAGS);
    proof {
        lemma_map_all_keeps_keys(t2, f2, copy, run_spec(virt_base, phys_base, count as nat), KERNEL_MAP_FLAGS, copy);
    }
    copy
}

/// Whether `init_kernel_mapping` can run (see `kernel_mapping_spec`).
pub fn init_kernel_mapping_possible(
    tables: &PageTables,
    frames: &FrameBitmap,
    phys_base: u64,
    virt_base: u64,
    kernel_end: u64,
) -> (r: bool)
    requires
        tables.wf(),
        frames.wf(),
    ensures
        r == kernel_mapping_spec(tables@, frames.frames(), phys_base, virt_base, kernel_end).3,
{
    let mut t = tables.copy();
    let mut fr = frames.copy();
    let copy = match fr.alloc_frame() {
        Some(a) => a,
        None => {
            return false;
        },
    };
    t.add_zero_table(copy);
    proof {
        assert(t@[copy][KERNEL_HALF_INDEX as int] == 0u64);
        crate::paging::lemma_zero_entry_absent();
    }
    if !fr.has_free_frame() {
        return false;
    }
    let _pdpt = t.get_or_create_table(&mut fr, copy, KERNEL_HALF_INDEX, KERNEL_MAP_FLAGS);
    if kernel_end > u64::MAX - 0xFFF {
        return false;
    }
    let y = kernel_end + 0xFFF;
    let end = y & !0xFFFu64;
    proof {
        assert(y & !0xFFFu64 == y - y % 0x1000) by (bit_vector);
        vstd::arithmetic::div_mod::lemma_fundamental_div_mod(y as int, 0x1000);
    }
    proof {
        assert(y & !0xFFFu64 <= 0xFFFF_FFFF_FFFF_F000u64) by (bit_vector);
    }
    let count = if virt_base < end {
        (end - virt_base + 0xFFF) / 0x1000
    } else {
        0
    };
    proof {
        if virt_base < end {
            let w = end - virt_base + 0xFFF;
            assert(count * 0x1000 <= w) by (nonlinear_arith)
                requires count == w / 0x1000, w >= 0;
        }
    }
    let span = count * 0x1000;
    if virt_base > u64::MAX - span || phys_base > u64::MAX - span {
        return false;
    }
    t.can_map_run(&fr, copy, virt_base, phys_base, count, KERNEL_MAP_FLAGS)
}

/// Sets up the kernel's address space (see `vmm_init_spec`) and returns the
/// kernel's top-level table and the template.
pub fn init(
    tables: &mut PageTables,
    frames: &mut FrameBitmap,
    phys_base: u64,
    virt_base: u64,
    kernel_end: u64,
    entries: &Vec<MemmapEntry>,
    hhdm: u64,
) -> (r: (u64, u64))
    requires
        old(tables).wf(),
        old(frames).wf(),
        vmm_init_spec(old(tables)@, old(frames).frames(), phys_base, virt_base, kernel_end, entries@, hhdm).4,
    ensures
        final(tables).wf(),
        final(frames).wf(),
        final(frames).size() == old(frames).size(),
        final(frames).addr() == old(frames).addr(),
        ({
            let (t, f, kpml4, copy, ok) = vmm_init_spec(
                old(tables)@,
                old(frames).frames(),
                phys_base,
                virt_base,
                kernel_end,
                entries@,
                hhdm,
            );
            &&& final(tables)@ == t
            &&& final(frames).frames() == f
            &&& r == (kpml4, copy)
        }),
        tables_sound(old(tables)@, old(frames).frames()) ==> tables_sound(final(tables)@, final(frames).frames()),
        tables_sound(old(tables)@, old(frames).frames()) && old(tables)@ == Map::<u64, Seq<u64>>::empty()
            ==> tops_in_levels(final(tables)@, r.0, r.1),
{
    proof {
        if tables_sound(old(tables)@, old(frames).frames()) {
            law_vmm_init_keeps_tables_sound(
                old(tables)@,
                old(frames).frames(),
                phys_base,
                virt_base,
                kernel_end,
                entries@,
                hhdm,
            );
            if old(tables)@ == Map::<u64, Seq<u64>>::empty() {
                let lvl = law_vmm_init_levels(
                    old(tables)@,
                    old(frames).frames(),
                    phys_base,
                    virt_base,
                    kernel_end,
                    entries@,
                    hhdm,
                    Map::<u64, nat>::empty(),
                );
            }
        }
    }
    let kpml4 = match frames.alloc_frame() {
        Some(a) => a,
        None => {
            proof {
                assert(false);
            }
            0
        },
    };
    let copy = init_kernel_mapping(tables, frames, phys_base, virt_base, kernel_end);
    tables.add_zero_table(kpml4);
    tables.copy_kernel_mapping(copy, kpml4);
    let ghost t4 = tables@;
    let ghost f2 = frames.frames();
    let n = entries.len();
    let mut i: usize = 0;
    proof {
        assert(entries@.take(0) =~= Seq::<MemmapEntry>::empty());
    }
    while i < n
        invariant
            n == entries@.len(),
            0 <= i <= n,
            tables.wf(),
            frames.wf(),
            frames.size() == old(frames).size(),
            frames.addr() == old(frames).addr(),
            direct_map_spec(t4, f2, kpml4, entries@, hhdm).2,
            ({
                let (t, f, ok) = direct_map_spec(t4, f2, kpml4, entries@.take(i as int), hhdm);
                &&& tables@ == t
                &&& frames.frames() == f
            }),
        decreases n - i,
    {
        proof {
            lemma_direct_map_ok_prefix(t4, f2, kpml4, entries@, hhdm, i as int + 1);
            assert(entries@.take(i as int + 1).drop_last() =~= entries@.take(i as int));
            assert(entries@.take(i as int + 1).last() == entries@[i as int]);
        }
        let e = entries[i];
        let b = e.base;
        let y = e.base + e.length + 0xFFF;
        let start = b & !0xFFFu64;
        let end = y & !0xFFFu64;
        proof {
            assert(b & !0xFFFu64 == b - b % 0x1000) by (bit_vector);
            assert(y & !0xFFFu64 == y - y % 0x1000) by (bit_vector);
            vstd::arithmetic::div_mod::lemma_fundamental_div_mod(b as int, 0x1000);
            vstd::arithmetic::div_mod::lemma_fundamental_div_mod(y as int, 0x1000);
        }
        let count = if start < end {
            (end - start) / 0x1000
        } else {
            0
        };
        tables.map_run(frames, kpml4, start + hhdm, start, count, KERNEL_MAP_FLAGS);
        i = i + 1;
    }
    proof {
        assert(entries@.take(n as int) =~= entries@);
    }
    (kpml4, copy)
}

/// Whether `init` can run (see `vmm_init_spec`).
pub fn init_possible(
    tables: &PageTables,
    frames: &FrameBitmap,
    phys_base: u64,
    virt_base: u64,
    kernel_end: u64,
    entries: &Vec<MemmapEntry>,
    hhdm: u64,
) -> (r: bool)
    requires
        tables.wf(),
        frames.wf(),
    ensures
        r == vmm_init_spec(tables@, frames.frames(), phys_base, virt_base, kernel_end, entries@, hhdm).4,
{
    let mut t = tables.copy();
    let mut fr = frames.copy();
    let kpml4 = match fr.alloc_frame() {
        Some(a) => a,
        None => {
            return false;
        },
    };
    if !init_kernel_mapping_possible(&t, &fr, phys_base, virt_base, kernel_end) {
        return false;
    }
    let copy = init_kernel_mapping(&mut t, &mut fr, phys_base, virt_base, kernel_end);
    t.add_zero_table(kpml4);
    t.copy_kernel_mapping(copy, kpml4);
    let ghost t4 = t@;
    let ghost f2 = fr.frames();
    proof {
        assert(vmm_init_spec(tables@, frames.frames(), phys_base, virt_base, kernel_end, entries@, hhdm).4
            == direct_map_spec(t4, f2, kpml4, entries@, hhdm).2);
    }
    let n = entries.len();
    let mut i: usize = 0;
    proof {
        assert(entries@.take(0) =~= Seq::<MemmapEntry>::empty());
    }
    while i < n
        invariant
            n == entries@.len(),
            0 <= i <= n,
            t.wf(),
            fr.wf(),
            vmm_init_spec(tables@, frames.frames(), phys_base, virt_base, kernel_end, entries@, hhdm).4
                == direct_map_spec(t4, f2, kpml4, entries@, hhdm).2,
            ({
                let (tt, f, ok) = direct_map_spec(t4, f2, kpml4, entries@.take(i as int), hhdm);
                &&& t@ == tt
                &&& fr.frames() == f
                &&& ok
            }),
        decreases n - i,
    {
        proof {
            assert(entries@.take(i as int + 1).drop_last() =~= entries@.take(i as int));
            assert(entries@.take(i as int + 1).last() == entries@[i as int]);
        }
        let e = entries[i];
        if e.base > u64::MAX - 0xFFF || e.length > u64::MAX - 0xFFF - e.base {
            proof {
                if direct_map_spec(t4, f2, kpml4, entries@, hhdm).2 {
                    lemma_direct_map_ok_prefix(t4, f2, kpml4, entries@, hhdm, i as int + 1);
                }
            }
            return false;
        }
        let b = e.base;
        let y = e.base + e.length + 0xFFF;
        let start = b & !0xFFFu64;
        let end = y & !0xFFFu64;
        proof {
            assert(b & !0xFFFu64 == b - b % 0x1000) by (bit_vector);
            assert(y & !0xFFFu64 == y - y % 0x1000) by (bit_vector);
            vstd::arithmetic::div_mod::lemma_fundamental_div_mod(b as int, 0x1000);
            vstd::arithmetic::div_mod::lemma_fundamental_div_mod(y as int, 0x1000);
        }
        let count = if start < end {
            (end - start) / 0x1000
        } else {
            0
        };
        proof {
            assert(count * 0x1000 <= end - start || count == 0) by (nonlinear_arith)
                requires start < end ==> count == (end - start) / 0x1000, start >= end ==> count == 0;
        }
        let span = count * 0x1000;
        if start > u64::MAX - span || hhdm > u64::MAX - span - start || !t.can_map_run(
            &fr,
            kpml4,
            start + hhdm,
            start,
            count,
            KERNEL_MAP_FLAGS,
        ) {
            proof {
                if direct_map_spec(t4, f2, kpml4, entries@, hhdm).2 {
                    lemma_direct_map_ok_prefix(t4, f2, kpml4, entries@, hhdm, i as int + 1);
                }
            }
            return false;
        }
        t.map_run(&mut fr, kpml4, start + hhdm, start, count, KERNEL_MAP_FLAGS);
        i = i + 1;
    }
    proof {
        assert(entries@.take(n as int) =~= entries@);
    }
    true
}

/// The run of the user-accessible text `[text_start, text_end)` of the
/// kernel image: its pages from `text_start`, backed by the physical pages
/// at the same offset from `phys_base` as from `virt_base`.
pub open spec fn user_text_run(phys_base: u64, virt_base: u64, text_start: u64, text_end: u64) -> (u64, int, nat) {
    (text_start, text_start + phys_base - virt_base, ((text_end - text_start + 0xFFF) / 0x1000) as nat)
}

/// Whether the user text can be mapped: it is not reversed, and its pages
/// and their physical pages stay in range.
pub open spec fn user_text_ok(phys_base: u64, virt_base: u64, text_start: u64, text_end: u64) -> bool {
    let (v, p, c) = user_text_run(phys_base, virt_base, text_start, text_end);
    &&& text_start <= text_end
    &&& text_end - text_start + 0xFFF <= u64::MAX
    &&& 0 <= p
    &&& p <= u64::MAX
    &&& run_fits(v, p as u64, c)
}

/// Maps the user-accessible text into the address space `pml4t`, user
/// accessible (see `user_text_run`).
pub fn map_user_process(
    tables: &mut PageTables,
    frames: &mut FrameBitmap,
    phys_base: u64,
    virt_base: u64,
    text_start: u64,
    text_end: u64,
    pml4t: u64,
)
    requires
        old(tables).wf(),
        old(frames).wf(),
        user_text_ok(phys_base, virt_base, text_start, text_end),
        ({
            let (v, p, c) = user_text_run(phys_base, virt_base, text_start, text_end);
            map_all_spec(old(tables)@, old(frames).frames(), pml4t, run_spec(v, p as u64, c), USER_TEXT_FLAGS).2
        }),
    ensures
        final(tables).wf(),
        final(frames).wf(),
        final(frames).size() == old(frames).size(),
        final(frames).addr() == old(frames).addr(),
        ({
            let (v, p, c) = user_text_run(phys_base, virt_base, text_start, text_end);
            let (t, f, ok) = map_all_spec(old(tables)@, old(frames).frames(), pml4t, run_spec(v, p as u64, c), USER_TEXT_FLAGS);
            &&& final(tables)@ == t
            &&& final(frames).frames() == f
        }),
{
    let size = text_end - text_start;
    let num_pages = (size + 0xFFF) / 0x1000;
    let phys = if text_start >= virt_base {
        phys_base + (text_start - virt_base)
    } else {
        phys_base - (virt_base - text_start)
    };
    tables.map_run(frames, pml4t, text_start, phys, num_pages, USER_TEXT_FLAGS);
}

/// Whether `map_user_process` can map the user text into `pml4t`.
pub fn map_user_process_possible(
    tables: &PageTables,
    frames: &FrameBitmap,
    phys_base: u64,
    virt_base: u64,
    text_start: u64,
    text_end: u64,
    pml4t: u64,
) -> (r: bool)
    requires
        tables.wf(),
        frames.wf(),
    ensures
        r == (user_text_ok(phys_base, virt_base, text_start, text_end) && {
            let (v, p, c) = user_text_run(phys_base, virt_base, text_start, text_end);
            map_all_spec(tables@, frames.frames(), pml4t, run_spec(v, p as u64, c), USER_TEXT_FLAGS).2
        }),
{
    if text_start > text_end || text_end - text_start > u64::MAX - 0xFFF {
        return false;
    }
    let size = text_end - text_start;
    let num_pages = (size + 0xFFF) / 0x1000;
    let phys = if text_start >= virt_base {
        if text_start - virt_base > u64::MAX - phys_base {
            return false;
        }
        phys_base + (text_start - virt_base)
    } else {
        if virt_base - text_start > phys_base {
            return false;
        }
        phys_base - (virt_base - text_start)
    };
    proof {
        assert(num_pages * 0x1000 <= size + 0xFFF) by (nonlinear_arith)
            requires num_pages == (size + 0xFFF) / 0x1000;
    }
    let span = num_pages * 0x1000;
    if text_start > u64::MAX - span || phys > u64::MAX - span {
        return false;
    }
    tables.can_map_run(frames, pml4t, text_start, phys, num_pages, USER_TEXT_FLAGS)
}

} // verus!
