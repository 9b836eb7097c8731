//! Four-level x86-64 page tables held in physical frames: creating missing
//! tables on the way down, mapping a page, walking a virtual address, and
//! giving a new address space a copy of the kernel's top-level entries.
use vstd::prelude::*;
use crate::frames::{FrameBitmap, first_free_frame, frame_addr};

verus! {

/// Entries per table.
pub const ENTRIES_PER_TABLE: usize = 512;

/// Bits of an entry that hold the physical address of the next table or page.
pub const ADDR_MASK: u64 = 0x000F_FFFF_FFFF_F000;

/// Present bit of an entry.
pub const PRESENT: u64 = 0x1;

/// Flags always set on an entry that points to a table: present, writable.
pub const TABLE_FLAGS: u64 = 0x3;

/// Page tables, each a frame of 512 entries, by physical address.
pub struct PageTables {
    addrs: Vec<u64>,
    data: Vec<u64>,
}

/// A table of 512 zero entries.
pub open spec fn zero_table() -> Seq<u64> {
    Seq::new(512, |i: int| 0u64)
}

/// Index into the table of level `level` (3 = top) for virtual address `v`.
pub open spec fn table_index(v: u64, level: u64) -> int {
    ((v >> ((12 + 9 * level) as u64)) & 0x1FFu64) as int
}

/// The entry is present.
pub open spec fn present(e: u64) -> bool {
    e & PRESENT != 0
}

/// Physical address held by an entry.
pub open spec fn entry_addr(e: u64) -> u64 {
    e & ADDR_MASK
}

/// One step down: the tables, the frames and the next table after the
/// entry `index` of `table` is made present.  A missing entry gets a fresh
/// zeroed table in the first free frame, linked with `flags` and the table
/// flags; a present entry gets `flags` added.
pub open spec fn get_or_create(
    m: Map<u64, Seq<u64>>,
    fr: Seq<bool>,
    table: u64,
    index: int,
    flags: u64,
) -> (Map<u64, Seq<u64>>, Seq<bool>, u64) {
    let e = m[table][index];
    if !present(e) {
        let f = first_free_frame(fr)->0;
        let new = frame_addr(f as nat) as u64;
        let ne = (new | flags | TABLE_FLAGS) as u64;
        let m1 = m.insert(new, zero_table());
        (m1.insert(table, m1[table].update(index, ne)), fr.update(f, true), entry_addr(ne))
    } else {
        let ne = (e | flags) as u64;
        (m.insert(table, m[table].update(index, ne)), fr, entry_addr(ne))
    }
}

/// What a step down needs: the table is known and, when its entry is
/// missing, a frame is free.
pub open spec fn can_step(m: Map<u64, Seq<u64>>, fr: Seq<bool>, table: u64, index: int) -> bool {
    &&& m.contains_key(table)
    &&& m[table].len() == 512
    &&& 0 <= index < 512
    &&& !present(m[table][index]) ==> first_free_frame(fr) is Some
}

/// The tables visited when mapping `virt` from `pml4`: the top table and
/// the three below it, with the tables and frames after each step.
pub open spec fn map_walk(
    m: Map<u64, Seq<u64>>,
    fr: Seq<bool>,
    pml4: u64,
    virt: u64,
    flags: u64,
) -> (Map<u64, Seq<u64>>, Seq<bool>, u64, u64, u64) {
    let (m1, f1, pdpt) = get_or_create(m, fr, pml4, table_index(virt, 3), flags);
    let (m2, f2, pd) = get_or_create(m1, f1, pdpt, table_index(virt, 2), flags);
    let (m3, f3, pt) = get_or_create(m2, f2, pd, table_index(virt, 1), flags);
    (m3, f3, pdpt, pd, pt)
}

/// What `map_page` needs: each table on the way down is known, and a frame
/// is free for each missing entry.
pub open spec fn can_map(m: Map<u64, Seq<u64>>, fr: Seq<bool>, pml4: u64, virt: u64, flags: u64) -> bool {
    let (m1, f1, pdpt) = get_or_create(m, fr, pml4, table_index(virt, 3), flags);
    let (m2, f2, pd) = get_or_create(m1, f1, pdpt, table_index(virt, 2), flags);
    let (m3, f3, pt) = get_or_create(m2, f2, pd, table_index(virt, 1), flags);
    &&& can_step(m, fr, pml4, table_index(virt, 3))
    &&& can_step(m1, f1, pdpt, table_index(virt, 2))
    &&& can_step(m2, f2, pd, table_index(virt, 1))
    &&& m3.contains_key(pt)
    &&& m3[pt].len() == 512
}

/// The tables and frames after `virt` is mapped to `phys` with `flags`.
pub open spec fn map_page_spec(
    m: Map<u64, Seq<u64>>,
    fr: Seq<bool>,
    pml4: u64,
    virt: u64,
    phys: u64,
    flags: u64,
) -> (Map<u64, Seq<u64>>, Seq<bool>) {
    let (m3, f3, pdpt, pd, pt) = map_walk(m, fr, pml4, virt, flags);
    (m3.insert(pt, m3[pt].update(table_index(virt, 0), (phys | flags) as u64)), f3)
}

/// Every table on the way down to `virt` from `pml4` is known.
pub open spec fn walk_known(m: Map<u64, Seq<u64>>, pml4: u64, virt: u64) -> bool {
    &&& m.contains_key(pml4) && m[pml4].len() == 512
    &&& {
        let e4 = m[pml4][table_index(virt, 3)];
        present(e4) ==> {
            let t3 = entry_addr(e4);
            &&& m.contains_key(t3) && m[t3].len() == 512
            &&& {
                let e3 = m[t3][table_index(virt, 2)];
                present(e3) ==> {
                    let t2 = entry_addr(e3);
                    &&& m.contains_key(t2) && m[t2].len() == 512
                    &&& {
                        let e2 = m[t2][table_index(virt, 1)];
                        present(e2) ==> {
                            let t1 = entry_addr(e2);
                            m.contains_key(t1) && m[t1].len() == 512
                        }
                    }
                }
            }
        }
    }
}

/// The physical address that `virt` translates to from `pml4`, if every
/// entry on the way down is present.
pub open spec fn translate(m: Map<u64, Seq<u64>>, pml4: u64, virt: u64) -> Option<u64> {
    let e4 = m[pml4][table_index(virt, 3)];
    if !present(e4) {
        None
    } else {
        let e3 = m[entry_addr(e4)][table_index(virt, 2)];
        if !present(e3) {
            None
        } else {
            let e2 = m[entry_addr(e3)][table_index(virt, 1)];
            if !present(e2) {
                None
            } else {
                let e1 = m[entry_addr(e2)][table_index(virt, 0)];
                if !present(e1) {
                    None
                } else {
                    Some((entry_addr(e1) + (virt & 0xFFF)) as u64)
                }
            }
        }
    }
}

proof fn lemma_table_index_bound(v: u64, level: u64)
    requires
        level <= 3,
    ensures
        0 <= table_index(v, level) < 512,
{
    let s = (12 + 9 * level) as u64;
    assert((v >> s) & 0x1FFu64 < 512) by (bit_vector);
}

// ----- laws -----------------------------------------------------------------

/// Every table sits in a frame marked used, at a page-aligned address that
/// an entry can hold, and has 512 entries.
pub open spec fn tables_in_used_frames(m: Map<u64, Seq<u64>>, fr: Seq<bool>) -> bool {
    forall|a: u64|
        #[trigger] m.contains_key(a) ==> {
            &&& a & ADDR_MASK == a
            &&& a % 4096 == 0
            &&& (a / 4096) < fr.len()
            &&& fr[(a / 4096) as int]
            &&& m[a].len() == 512
        }
}

proof fn lemma_entry_bits(e: u64, new: u64, flags: u64, phys: u64)
    requires
        flags & ADDR_MASK == 0,
    ensures
        new & ADDR_MASK == new ==> ((new | flags | TABLE_FLAGS) & PRESENT != 0 && (new | flags | TABLE_FLAGS)
            & ADDR_MASK == new),
        e & PRESENT != 0 ==> ((e | flags) & PRESENT != 0 && (e | flags) & ADDR_MASK == e & ADDR_MASK),
        phys & ADDR_MASK == phys && flags & PRESENT != 0 ==> ((phys | flags) & PRESENT != 0 && (phys
            | flags) & ADDR_MASK == phys),
{
    assert(new & ADDR_MASK == new ==> ((new | flags | TABLE_FLAGS) & PRESENT != 0 && (new | flags | TABLE_FLAGS)
        & ADDR_MASK == new)) by (bit_vector)
        requires
            flags & ADDR_MASK == 0,
    ;
    assert(e & PRESENT != 0 ==> ((e | flags) & PRESENT != 0 && (e | flags) & ADDR_MASK == e & ADDR_MASK))
        by (bit_vector)
        requires
            flags & ADDR_MASK == 0,
    ;
    assert(phys & ADDR_MASK == phys && flags & PRESENT != 0 ==> ((phys | flags) & PRESENT != 0 && (phys
        | flags) & ADDR_MASK == phys)) by (bit_vector)
        requires
            flags & ADDR_MASK == 0,
    ;
}

/// The address of a frame below `MAX_FRAMES` is page-aligned, fits the
/// address bits of an entry, and gives the frame back.
pub proof fn lemma_frame_addr_bits_pub(f: u64)
    requires
        f < 0x100_0000_0000,
    ensures
        (f * 4096) as u64 & ADDR_MASK == (f * 4096) as u64,
        (f * 4096) as u64 % 4096 == 0,
        (f * 4096) as u64 / 4096 == f,
{
    lemma_frame_addr_bits(f);
}

proof fn lemma_frame_addr_bits(f: u64)
    requires
        f < 0x100_0000_0000,
    ensures
        (f * 4096) as u64 & ADDR_MASK == (f * 4096) as u64,
        (f * 4096) as u64 % 4096 == 0,
        (f * 4096) as u64 / 4096 == f,
{
    assert(f * 4096 < 0x10_0000_0000_0000) by (nonlinear_arith)
        requires f < 0x100_0000_0000;
    let a = (f * 4096) as u64;
    assert(a == f * 4096);
    assert(a & ADDR_MASK == a) by (bit_vector)
        requires
            a == f * 4096,
            f < 0x100_0000_0000,
    ;
}

/// One step down keeps the tables in used frames, leaves the entry present
/// and pointing to the next table, and changes no other known table.
pub proof fn lemma_step(m: Map<u64, Seq<u64>>, fr: Seq<bool>, table: u64, index: int, flags: u64)
    requires
        can_step(m, fr, table, index),
        tables_in_used_frames(m, fr),
        flags & ADDR_MASK == 0,
        fr.len() <= 0x100_0000_0000,
    ensures
        ({
            let (m1, f1, next) = get_or_create(m, fr, table, index, flags);
            &&& tables_in_used_frames(m1, f1)
            &&& f1.len() == fr.len()
            &&& m1.contains_key(table)
            &&& present(m1[table][index])
            &&& entry_addr(m1[table][index]) == next
            &&& forall|b: u64| #[trigger] m.contains_key(b) && b != table ==> m1.contains_key(b) && m1[b] == m[b]
        }),
{
    let e = m[table][index];
    lemma_entry_bits(e, 0, flags, 0);
    if !present(e) {
        let f = first_free_frame(fr)->0;
        let k = choose|k: int| crate::frames::is_first_free(fr, k);
        assert(crate::frames::is_first_free(fr, k));
        assert(f == k);
        let new = frame_addr(f as nat) as u64;
        lemma_frame_addr_bits(f as u64);
        lemma_entry_bits(e, new, flags, 0);
        assert(!m.contains_key(new)) by {
            if m.contains_key(new) {
                assert(fr[(new / 4096) as int]);
            }
        }
        let (m1, f1, next) = get_or_create(m, fr, table, index, flags);
        assert forall|a: u64| #[trigger] m1.contains_key(a) implies {
            &&& a & ADDR_MASK == a
            &&& a % 4096 == 0
            &&& (a / 4096) < f1.len()
            &&& f1[(a / 4096) as int]
            &&& m1[a].len() == 512
        } by {
            if a != new {
                assert(m.contains_key(a));
            }
        }
    }
}

/// Mapping a page keeps every table in a used frame: the tables made on
/// the way down take frames that are then marked used.
pub proof fn law_map_keeps_tables_in_used_frames(
    m: Map<u64, Seq<u64>>,
    fr: Seq<bool>,
    pml4: u64,
    virt: u64,
    phys: u64,
    flags: u64,
)
    requires
        can_map(m, fr, pml4, virt, flags),
        tables_in_used_frames(m, fr),
        fr.len() <= 0x100_0000_0000,
        flags & ADDR_MASK == 0,
    ensures
        ({
            let (m4, f4) = map_page_spec(m, fr, pml4, virt, phys, flags);
            &&& tables_in_used_frames(m4, f4)
            &&& f4.len() == fr.len()
        }),
{
    let (m1, f1, pdpt) = get_or_create(m, fr, pml4, table_index(virt, 3), flags);
    lemma_step(m, fr, pml4, table_index(virt, 3), flags);
    let (m2, f2, pd) = get_or_create(m1, f1, pdpt, table_index(virt, 2), flags);
    lemma_step(m1, f1, pdpt, table_index(virt, 2), flags);
    let (m3, f3, pt) = get_or_create(m2, f2, pd, table_index(virt, 1), flags);
    lemma_step(m2, f2, pd, table_index(virt, 1), flags);
    let m4 = m3.insert(pt, m3[pt].update(table_index(virt, 0), (phys | flags) as u64));
    lemma_table_index_bound(virt, 0);
    assert(m3.contains_key(pt));
    assert(m3[pt].len() == 512);
    assert(map_page_spec(m, fr, pml4, virt, phys, flags) == (m4, f3));
    assert forall|a: u64| #[trigger] m4.contains_key(a) implies {
        &&& a & ADDR_MASK == a
        &&& a % 4096 == 0
        &&& (a / 4096) < f3.len()
        &&& f3[(a / 4096) as int]
        &&& m4[a].len() == 512
    } by {
        assert(m3.contains_key(a));
        if a == pt {
            assert(m4[a].len() == 512);
        } else {
            assert(m4[a] == m3[a]);
        }
    }
}

/// The tables below the top on the way down to `virt` from `pml4`.
pub open spec fn walk_tables(m: Map<u64, Seq<u64>>, pml4: u64, virt: u64) -> (u64, u64, u64) {
    let t3 = entry_addr(m[pml4][table_index(virt, 3)]);
    let t2 = entry_addr(m[t3][table_index(virt, 2)]);
    let t1 = entry_addr(m[t2][table_index(virt, 1)]);
    (t3, t2, t1)
}

/// The walk down to `virt` reads entry `index` of `table`.
pub open spec fn walk_reads(m: Map<u64, Seq<u64>>, pml4: u64, virt: u64, table: u64, index: int) -> bool {
    let (t3, t2, t1) = walk_tables(m, pml4, virt);
    ||| table == pml4 && index == table_index(virt, 3)
    ||| table == t3 && index == table_index(virt, 2)
    ||| table == t2 && index == table_index(virt, 1)
    ||| table == t1 && index == table_index(virt, 0)
}

/// One step down leaves the walk to a mapped address `w` as it was: the
/// entries it reads keep their presence and their addresses.
proof fn lemma_step_keeps_walk(
    m: Map<u64, Seq<u64>>,
    fr: Seq<bool>,
    table: u64,
    index: int,
    flags: u64,
    pml4: u64,
    w: u64,
)
    requires
        can_step(m, fr, table, index),
        tables_in_used_frames(m, fr),
        flags & ADDR_MASK == 0,
        fr.len() <= 0x100_0000_0000,
        walk_known(m, pml4, w),
        translate(m, pml4, w) is Some,
    ensures
        ({
            let (m1, f1, next) = get_or_create(m, fr, table, index, flags);
            &&& walk_known(m1, pml4, w)
            &&& translate(m1, pml4, w) == translate(m, pml4, w)
            &&& walk_tables(m1, pml4, w) == walk_tables(m, pml4, w)
            &&& tables_in_used_frames(m1, f1)
            &&& f1.len() == fr.len()
            &&& forall|t: u64, i: int| walk_reads(m1, pml4, w, t, i) == walk_reads(m, pml4, w, t, i)
        }),
{
    lemma_step(m, fr, table, index, flags);
    lemma_table_index_bound(w, 3);
    lemma_table_index_bound(w, 2);
    lemma_table_index_bound(w, 1);
    lemma_table_index_bound(w, 0);
    let e = m[table][index];
    let (m1, f1, next) = get_or_create(m, fr, table, index, flags);
    let i4 = table_index(w, 3);
    let i3 = table_index(w, 2);
    let i2 = table_index(w, 1);
    let i1 = table_index(w, 0);
    let e4 = m[pml4][i4];
    let t3 = entry_addr(e4);
    let e3 = m[t3][i3];
    let t2 = entry_addr(e3);
    let e2 = m[t2][i2];
    let t1 = entry_addr(e2);
    let e1 = m[t1][i1];
    if present(e) {
        lemma_entry_bits(e, 0, flags, 0);
        let ne = (e | flags) as u64;
        assert(present(ne) && entry_addr(ne) == entry_addr(e));
        assert(m1 == m.insert(table, m[table].update(index, ne)));
    } else {
        let f = first_free_frame(fr)->0;
        let new = frame_addr(f as nat) as u64;
        let k = choose|k: int| crate::frames::is_first_free(fr, k);
        assert(crate::frames::is_first_free(fr, k));
        lemma_frame_addr_bits(f as u64);
        assert(!m.contains_key(new)) by {
            if m.contains_key(new) {
                assert(fr[(new / 4096) as int]);
            }
        }
        assert(new != pml4 && new != t3 && new != t2 && new != t1);
        assert(table != pml4 || index != i4);
        assert(table != t3 || index != i3);
        assert(table != t2 || index != i2);
        assert(table != t1 || index != i1);
    }
    assert(m1.contains_key(pml4) && m1[pml4].len() == 512);
    assert(m1[pml4][i4] == e4 || (present(m1[pml4][i4]) && entry_addr(m1[pml4][i4]) == t3));
    assert(m1.contains_key(t3) && m1[t3].len() == 512);
    assert(m1[t3][i3] == e3 || (present(m1[t3][i3]) && entry_addr(m1[t3][i3]) == t2));
    assert(m1.contains_key(t2) && m1[t2].len() == 512);
    assert(m1[t2][i2] == e2 || (present(m1[t2][i2]) && entry_addr(m1[t2][i2]) == t1));
    assert(m1.contains_key(t1) && m1[t1].len() == 512);
    assert(m1[t1][i1] == e1 || (present(m1[t1][i1]) && entry_addr(m1[t1][i1]) == entry_addr(e1)));
}

/// Mapping a page leaves the translation of every other mapped address as
/// it was, provided the entry written for the page is not one that the
/// walk to that address reads.  The tables made on the way down take free
/// frames, and the entries changed on the way keep their addresses.
pub proof fn law_map_keeps_other_translations(
    m: Map<u64, Seq<u64>>,
    fr: Seq<bool>,
    pml4: u64,
    virt: u64,
    phys: u64,
    flags: u64,
    other: u64,
)
    requires
        can_map(m, fr, pml4, virt, flags),
        tables_in_used_frames(m, fr),
        fr.len() <= 0x100_0000_0000,
        flags & ADDR_MASK == 0,
        walk_known(m, pml4, other),
        translate(m, pml4, other) is Some,
        ({
            let (m3, f3, pdpt, pd, pt) = map_walk(m, fr, pml4, virt, flags);
            !walk_reads(m, pml4, other, pt, table_index(virt, 0))
        }),
    ensures
        ({
            let (m4, f4) = map_page_spec(m, fr, pml4, virt, phys, flags);
            &&& walk_known(m4, pml4, other)
            &&& translate(m4, pml4, other) == translate(m, pml4, other)
        }),
{
    let (m1, f1, pdpt) = get_or_create(m, fr, pml4, table_index(virt, 3), flags);
    lemma_step_keeps_walk(m, fr, pml4, table_index(virt, 3), flags, pml4, other);
    let (m2, f2, pd) = get_or_create(m1, f1, pdpt, table_index(virt, 2), flags);
    lemma_step_keeps_walk(m1, f1, pdpt, table_index(virt, 2), flags, pml4, other);
    let (m3, f3, pt) = get_or_create(m2, f2, pd, table_index(virt, 1), flags);
    lemma_step_keeps_walk(m2, f2, pd, table_index(virt, 1), flags, pml4, other);
    lemma_table_index_bound(virt, 0);
    lemma_table_index_bound(other, 3);
    lemma_table_index_bound(other, 2);
    lemma_table_index_bound(other, 1);
    lemma_table_index_bound(other, 0);
    let i1 = table_index(virt, 0);
    let m4 = m3.insert(pt, m3[pt].update(i1, (phys | flags) as u64));
    assert(map_page_spec(m, fr, pml4, virt, phys, flags).0 == m4);
    assert(!walk_reads(m3, pml4, other, pt, i1));
    let (t3, t2, t1) = walk_tables(m3, pml4, other);
    assert(m4[pml4][table_index(other, 3)] == m3[pml4][table_index(other, 3)]);
    assert(m4[t3][table_index(other, 2)] == m3[t3][table_index(other, 2)]);
    assert(m4[t2][table_index(other, 1)] == m3[t2][table_index(other, 1)]);
    assert(m4[t1][table_index(other, 0)] == m3[t1][table_index(other, 0)]);
}

/// Mapping a page and then walking its address, or any address of the
/// same page, gives back the physical page, at the offset of the address
/// within its page; the tables walked are all known.  This holds when the tables live in used frames, the
/// four tables on the way down are different tables, the physical address
/// is page-aligned and fits an entry, and `flags` mark the page present
/// without touching the address bits.
pub proof fn law_map_then_translate(
    m: Map<u64, Seq<u64>>,
    fr: Seq<bool>,
    pml4: u64,
    virt: u64,
    phys: u64,
    flags: u64,
)
    requires
        can_map(m, fr, pml4, virt, flags),
        tables_in_used_frames(m, fr),
        fr.len() <= 0x100_0000_0000,
        flags & PRESENT != 0,
        flags & ADDR_MASK == 0,
        phys & ADDR_MASK == phys,
        ({
            let (m3, f3, pdpt, pd, pt) = map_walk(m, fr, pml4, virt, flags);
            &&& pml4 != pdpt && pml4 != pd && pml4 != pt
            &&& pdpt != pd && pdpt != pt
            &&& pd != pt
        }),
    ensures
        ({
            let (m4, f4) = map_page_spec(m, fr, pml4, virt, phys, flags);
            &&& walk_known(m4, pml4, virt)
            &&& translate(m4, pml4, virt) == Some((phys + (virt & 0xFFF)) as u64)
            &&& forall|w: u64|
                same_page(virt, w) ==> walk_known(m4, pml4, w) && #[trigger] translate(m4, pml4, w) == Some(
                    (phys + (w & 0xFFF)) as u64,
                )
        }),
{
    let i4 = table_index(virt, 3);
    let i3 = table_index(virt, 2);
    let i2 = table_index(virt, 1);
    let i1 = table_index(virt, 0);
    lemma_table_index_bound(virt, 0);
    let (m1, f1, pdpt) = get_or_create(m, fr, pml4, i4, flags);
    lemma_step(m, fr, pml4, i4, flags);
    let (m2, f2, pd) = get_or_create(m1, f1, pdpt, i3, flags);
    lemma_step(m1, f1, pdpt, i3, flags);
    let (m3, f3, pt) = get_or_create(m2, f2, pd, i2, flags);
    lemma_step(m2, f2, pd, i2, flags);
    let m4 = m3.insert(pt, m3[pt].update(i1, (phys | flags) as u64));
    lemma_entry_bits(0, 0, flags, phys);
    assert(m4[pml4] == m1[pml4]);
    assert(m4[pdpt] == m2[pdpt]);
    assert(m4[pd] == m3[pd]);
    assert(m4[pt][i1] == (phys | flags) as u64);
}

impl PageTables {
    /// The tables, by physical address.
    pub closed spec fn view(&self) -> Map<u64, Seq<u64>> {
        Map::new(
            |a: u64| self.addrs@.contains(a),
            |a: u64|
                self.data@.subrange(
                    512 * self.addrs@.index_of(a),
                    512 * self.addrs@.index_of(a) + 512,
                ),
        )
    }

    /// The storage holds 512 entries per table and each table once.
    pub closed spec fn wf(&self) -> bool {
        &&& self.data@.len() == 512 * self.addrs@.len()
        &&& self.addrs@.no_duplicates()
    }

    proof fn lemma_index_of(&self, k: int)
        requires
            self.wf(),
            0 <= k < self.addrs@.len(),
        ensures
            self.addrs@.index_of(self.addrs@[k]) == k,
            self.addrs@.contains(self.addrs@[k]),
    {
        let a = self.addrs@[k];
        assert(self.addrs@[k] == a);
        let j = self.addrs@.index_of(a);
        assert(0 <= j < self.addrs@.len() && self.addrs@[j] == a);
    }

    pub proof fn lemma_tables_len(&self)
        requires
            self.wf(),
        ensures
            forall|a: u64| #[trigger] self@.contains_key(a) ==> self@[a].len() == 512,
    {
        assert forall|a: u64| #[trigger] self@.contains_key(a) implies self@[a].len() == 512 by {
            let k = self.addrs@.index_of(a);
            assert(0 <= k < self.addrs@.len() && self.addrs@[k] == a);
            assert(512 * k + 512 <= 512 * self.addrs@.len()) by (nonlinear_arith)
                requires k < self.addrs@.len(), 0 <= k;
        }
    }

    /// The addresses of the tables, each once.
    pub fn table_addresses(&self) -> (r: Vec<u64>)
        requires
            self.wf(),
        ensures
            r@.no_duplicates(),
            forall|a: u64| self@.contains_key(a) <==> r@.contains(a),
    {
        let n = self.addrs.len();
        let mut r: Vec<u64> = Vec::new();
        let mut i: usize = 0;
        while i < n
            invariant
                n == self.addrs@.len(),
                0 <= i <= n,
                r@ == self.addrs@.take(i as int),
            decreases n - i,
        {
            r.push(self.addrs[i]);
            i = i + 1;
            proof {
                assert(r@ =~= self.addrs@.take(i as int));
            }
        }
        proof {
            assert(self.addrs@.take(n as int) =~= self.addrs@);
        }
        r
    }

    /// No tables.
    pub fn new() -> (t: PageTables)
        ensures
            t.wf(),
            t@ == Map::<u64, Seq<u64>>::empty(),
    {
        let t = PageTables { addrs: Vec::new(), data: Vec::new() };
        assert(t@ =~= Map::<u64, Seq<u64>>::empty());
        t
    }

    /// A copy of the tables.
    pub fn copy(&self) -> (r: PageTables)
        requires
            self.wf(),
        ensures
            r.wf(),
            r@ == self@,
    {
        let r = PageTables { addrs: self.addrs.clone(), data: self.data.clone() };
        proof {
            assert(r.addrs@ =~= self.addrs@);
            assert(r.data@ =~= self.data@);
            assert(r@ =~= self@);
        }
        r
    }

    /// Position of table `a` in the storage.
    fn find(&self, a: u64) -> (k: usize)
        requires
            self.wf(),
            self@.contains_key(a),
        ensures
            k < self.addrs@.len(),
            self.addrs@[k as int] == a,
            self.addrs@.index_of(a) == k,
    {
        let n = self.addrs.len();
        let mut k: usize = 0;
        while k < n
            invariant
                n == self.addrs@.len(),
                0 <= k <= n,
                self.wf(),
                self.addrs@.contains(a),
                forall|j: int| 0 <= j < k ==> self.addrs@[j] != a,
            decreases n - k,
        {
            if self.addrs[k] == a {
                proof {
                    self.lemma_index_of(k as int);
                }
                return k;
            }
            k = k + 1;
        }
        proof {
            let j = choose|j: int| 0 <= j < self.addrs@.len() && self.addrs@[j] == a;
            assert(self.addrs@[j] == a);
        }
        0
    }

    /// Whether there is a table at `a`.
    pub fn has_table(&self, a: u64) -> (r: bool)
        ensures
            r == self@.contains_key(a),
    {
        let n = self.addrs.len();
        let mut k: usize = 0;
        while k < n
            invariant
                n == self.addrs@.len(),
                0 <= k <= n,
                forall|j: int| 0 <= j < k ==> self.addrs@[j] != a,
            decreases n - k,
        {
            if self.addrs[k] == a {
                return true;
            }
            k = k + 1;
        }
        false
    }

    /// Entry `i` of table `a`.
    pub fn read(&self, a: u64, i: usize) -> (e: u64)
        requires
            self.wf(),
            self@.contains_key(a),
            i < 512,
        ensures
            e == self@[a][i as int],
    {
        let k = self.find(a);
        let len = self.data.len();
        proof {
            assert(512 * k + i < 512 * self.addrs@.len()) by (nonlinear_arith)
                requires k < self.addrs@.len(), i < 512;
        }
        self.data[512 * k + i]
    }

    /// Sets entry `i` of table `a` to `e`.
    pub fn write(&mut self, a: u64, i: usize, e: u64)
        requires
            old(self).wf(),
            old(self)@.contains_key(a),
            i < 512,
        ensures
            final(self).wf(),
            final(self)@ == old(self)@.insert(a, old(self)@[a].update(i as int, e)),
    {
        let k = self.find(a);
        let len = self.data.len();
        proof {
            assert(512 * k + i < 512 * self.addrs@.len()) by (nonlinear_arith)
                requires k < self.addrs@.len(), i < 512;
        }
        let pos = 512 * k + i;
        self.data.set(pos, e);
        proof {
            let o = old(self)@;
            let n = self@;
            assert forall|b: u64| #[trigger] n.contains_key(b) implies n[b] == o.insert(a, o[a].update(i as int, e))[b] by {
                let kb = self.addrs@.index_of(b);
                assert(0 <= kb < self.addrs@.len() && self.addrs@[kb] == b);
                assert(512 * kb + 512 <= 512 * self.addrs@.len()) by (nonlinear_arith)
                    requires kb < self.addrs@.len(), 0 <= kb;
                if b == a {
                    assert(n[b] =~= o[a].update(i as int, e));
                } else {
                    assert(kb != k);
                    assert forall|j: int| 0 <= j < 512 implies #[trigger] n[b][j] == o[b][j] by {
                        assert(512 * kb + j != 512 * k + i) by (nonlinear_arith)
                            requires kb != k, 0 <= j < 512, i < 512, 0 <= kb;
                    }
                    assert(n[b] =~= o[b]);
                }
            }
            assert(n =~= o.insert(a, o[a].update(i as int, e)));
        }
    }

    /// Puts a table of zero entries at `a`.
    pub fn add_zero_table(&mut self, a: u64)
        requires
            old(self).wf(),
        ensures
            final(self).wf(),
            final(self)@ == old(self)@.insert(a, zero_table()),
    {
        if self.has_table(a) {
            let mut i: usize = 0;
            while i < 512
                invariant
                    self.wf(),
                    0 <= i <= 512,
                    self@.dom() == old(self)@.dom(),
                    self@.contains_key(a),
                    forall|b: u64| #[trigger] self@.contains_key(b) && b != a ==> self@[b] == old(self)@[b],
                    self@[a].len() == 512,
                    forall|j: int| 0 <= j < i ==> self@[a][j] == 0u64,
                decreases 512 - i,
            {
                self.write(a, i, 0);
                i = i + 1;
            }
            proof {
                assert(self@[a] =~= zero_table());
                assert(self@ =~= old(self)@.insert(a, zero_table()));
            }
            proof {
                self.lemma_tables_len();
            }
        } else {
            let ghost old_addrs = self.addrs@;
            let ghost old_data = self.data@;
            self.addrs.push(a);
            let mut i: usize = 0;
            while i < 512
                invariant
                    0 <= i <= 512,
                    self.addrs@ == old_addrs.push(a),
                    self.data@.len() == old_data.len() + i,
                    old_data.len() == 512 * old_addrs.len(),
                    forall|j: int| 0 <= j < old_data.len() ==> self.data@[j] == old_data[j],
                    forall|j: int| old_data.len() <= j < self.data@.len() ==> self.data@[j] == 0u64,
                decreases 512 - i,
            {
                self.data.push(0);
                i = i + 1;
            }
            proof {
                assert(!old_addrs.contains(a));
                assert(self.addrs@.no_duplicates()) by {
                    assert forall|x: int, y: int|
                        0 <= x < self.addrs@.len() && 0 <= y < self.addrs@.len() && x != y implies self.addrs@[x]
                        != self.addrs@[y] by {
                        if x < old_addrs.len() && y < old_addrs.len() {
                        } else if x == old_addrs.len() {
                            assert(old_addrs[y] != a);
                        } else {
                            assert(old_addrs[x] != a);
                        }
                    }
                }
                let n = self@;
                let o = old(self)@;
                assert forall|b: u64| #[trigger] n.contains_key(b) implies n[b] == o.insert(a, zero_table())[b] by {
                    let kb = self.addrs@.index_of(b);
                    assert(0 <= kb < self.addrs@.len() && self.addrs@[kb] == b);
                    assert(512 * kb + 512 <= 512 * self.addrs@.len()) by (nonlinear_arith)
                        requires kb < self.addrs@.len(), 0 <= kb;
                    if b == a {
                        assert(kb == old_addrs.len());
                        assert(n[b] =~= zero_table());
                    } else {
                        assert(kb < old_addrs.len());
                        assert(old_addrs[kb] == b);
                        let ok = old_addrs.index_of(b);
                        assert(0 <= ok < old_addrs.len() && old_addrs[ok] == b);
                        assert(ok == kb);
                        assert(512 * kb + 512 <= 512 * old_addrs.len()) by (nonlinear_arith)
                            requires kb < old_addrs.len(), 0 <= kb;
                        assert(n[b] =~= o[b]);
                    }
                }
                assert forall|b: u64| self.addrs@.contains(b) == (old_addrs.contains(b) || b == a) by {
                    if old_addrs.contains(b) {
                        let j = choose|j: int| 0 <= j < old_addrs.len() && old_addrs[j] == b;
                        assert(self.addrs@[j] == b);
                    }
                    if b == a {
                        assert(self.addrs@[old_addrs.len() as int] == a);
                    }
                    if self.addrs@.contains(b) {
                        let j = choose|j: int| 0 <= j < self.addrs@.len() && self.addrs@[j] == b;
                        if j < old_addrs.len() {
                            assert(old_addrs[j] == b);
                        }
                    }
                }
                assert(n.dom() =~= o.insert(a, zero_table()).dom());
                assert(n =~= o.insert(a, zero_table()));
            }
        }
    }

    /// Makes entry `index` of `table` present, creating the next table in a
    /// fresh zeroed frame if it is missing, and returns the next table's
    /// address (see `get_or_create`).
    pub fn get_or_create_table(
        &mut self,
        frames: &mut FrameBitmap,
        table: u64,
        index: usize,
        flags: u64,
    ) -> (next: u64)
        requires
            old(self).wf(),
            old(frames).wf(),
            can_step(old(self)@, old(frames).frames(), table, index as int),
        ensures
            final(self).wf(),
            final(frames).wf(),
            final(frames).size() == old(frames).size(),
            final(frames).addr() == old(frames).addr(),
            (final(self)@, final(frames).frames(), next) == get_or_create(
                old(self)@,
                old(frames).frames(),
                table,
                index as int,
                flags,
            ),
    {
        let e = self.read(table, index);
        if e & PRESENT == 0 {
            let new = match frames.alloc_frame() {
                Some(a) => a,
                None => {
                    proof {
                        assert(false);
                    }
                    0
                },
            };
            self.add_zero_table(new);
            let ne = new | flags | TABLE_FLAGS;
            self.write(table, index, ne);
            ne & ADDR_MASK
        } else {
            let ne = e | flags;
            self.write(table, index, ne);
            ne & ADDR_MASK
        }
    }

    /// Whether `map_page` can map `virt` from `pml4` with `flags` given the
    /// frames: every table on the way down is known and a frame is free for
    /// each missing entry (see `can_map`).
    pub fn can_map_page(&self, frames: &FrameBitmap, pml4: u64, virt: u64, flags: u64) -> (r: bool)
        requires
            self.wf(),
            frames.wf(),
        ensures
            r == can_map(self@, frames.frames(), pml4, virt, flags),
    {
        let i4 = ((virt >> 39) & 0x1FF) as usize;
        let i3 = ((virt >> 30) & 0x1FF) as usize;
        let i2 = ((virt >> 21) & 0x1FF) as usize;
        proof {
            lemma_table_index_bound(virt, 3);
            lemma_table_index_bound(virt, 2);
            lemma_table_index_bound(virt, 1);
            self.lemma_tables_len();
        }
        let mut t = self.copy();
        let mut fr = frames.copy();
        let mut cur = pml4;
        assert(table_index(virt, 3) == i4 as int);
        assert(table_index(virt, 2) == i3 as int);
        assert(table_index(virt, 1) == i2 as int);
        if !t.has_table(cur) {
            return false;
        }
        proof { t.lemma_tables_len(); }
        let e = t.read(cur, i4);
        if e & PRESENT == 0 && !fr.has_free_frame() {
            return false;
        }
        cur = t.get_or_create_table(&mut fr, cur, i4, flags);
        if !t.has_table(cur) {
            return false;
        }
        proof { t.lemma_tables_len(); }
        let e = t.read(cur, i3);
        if e & PRESENT == 0 && !fr.has_free_frame() {
            return false;
        }
        cur = t.get_or_create_table(&mut fr, cur, i3, flags);
        if !t.has_table(cur) {
            return false;
        }
        proof { t.lemma_tables_len(); }
        let e = t.read(cur, i2);
        if e & PRESENT == 0 && !fr.has_free_frame() {
            return false;
        }
        cur = t.get_or_create_table(&mut fr, cur, i2, flags);
        proof { t.lemma_tables_len(); }
        t.has_table(cur)
    }

    /// Maps the page at `virt` to the physical page `phys` with `flags` in
    /// the address space `pml4`, creating the tables on the way down that
    /// are missing (see `map_page_spec`).
    pub fn map_page(&mut self, frames: &mut FrameBitmap, pml4: u64, virt: u64, phys: u64, flags: u64)
        requires
            old(self).wf(),
            old(frames).wf(),
            can_map(old(self)@, old(frames).frames(), pml4, virt, flags),
        ensures
            final(self).wf(),
            final(frames).wf(),
            final(frames).size() == old(frames).size(),
            final(frames).addr() == old(frames).addr(),
            (final(self)@, final(frames).frames()) == map_page_spec(
                old(self)@,
                old(frames).frames(),
                pml4,
                virt,
                phys,
                flags,
            ),
    {
        let i4 = ((virt >> 39) & 0x1FF) as usize;
        let i3 = ((virt >> 30) & 0x1FF) as usize;
        let i2 = ((virt >> 21) & 0x1FF) as usize;
        let i1 = ((virt >> 12) & 0x1FF) as usize;
        proof {
            lemma_table_index_bound(virt, 3);
            lemma_table_index_bound(virt, 2);
            lemma_table_index_bound(virt, 1);
            lemma_table_index_bound(virt, 0);
        }
        assert(table_index(virt, 3) == i4 as int);
        assert(table_index(virt, 2) == i3 as int);
        assert(table_index(virt, 1) == i2 as int);
        assert(table_index(virt, 0) == i1 as int);
        let pdpt = self.get_or_create_table(frames, pml4, i4, flags);
        let pd = self.get_or_create_table(frames, pdpt, i3, flags);
        let pt = self.get_or_create_table(frames, pd, i2, flags);
        self.write(pt, i1, phys | flags);
    }

    /// The physical address that `virt` translates to from `pml4`, or
    /// `None` when an entry on the way down is not present.
    pub fn virt_to_phys(&self, pml4: u64, virt: u64) -> (r: Option<u64>)
        requires
            self.wf(),
            walk_known(self@, pml4, virt),
        ensures
            r == translate(self@, pml4, virt),
    {
        let i4 = ((virt >> 39) & 0x1FF) as usize;
        let i3 = ((virt >> 30) & 0x1FF) as usize;
        let i2 = ((virt >> 21) & 0x1FF) as usize;
        let i1 = ((virt >> 12) & 0x1FF) as usize;
        proof {
            lemma_table_index_bound(virt, 3);
            lemma_table_index_bound(virt, 2);
            lemma_table_index_bound(virt, 1);
            lemma_table_index_bound(virt, 0);
        }
        assert(table_index(virt, 3) == i4 as int);
        assert(table_index(virt, 2) == i3 as int);
        assert(table_index(virt, 1) == i2 as int);
        assert(table_index(virt, 0) == i1 as int);
        let e4 = self.read(pml4, i4);
        if e4 & PRESENT == 0 {
            return None;
        }
        let pdpt = e4 & ADDR_MASK;
        let e3 = self.read(pdpt, i3);
        if e3 & PRESENT == 0 {
            return None;
        }
        let pd = e3 & ADDR_MASK;
        let e2 = self.read(pd, i2);
        if e2 & PRESENT == 0 {
            return None;
        }
        let pt = e2 & ADDR_MASK;
        let e1 = self.read(pt, i1);
        if e1 & PRESENT == 0 {
            return None;
        }
        proof {
            assert(e1 & ADDR_MASK <= 0x000F_FFFF_FFFF_F000u64) by (bit_vector);
            assert(virt & 0xFFF <= 0xFFFu64) by (bit_vector);
        }
        Some((e1 & ADDR_MASK) + (virt & 0xFFF))
    }

    /// Copies the 512 entries of table `src` into table `dst`.
    pub fn copy_kernel_mapping(&mut self, src: u64, dst: u64)
        requires
            old(self).wf(),
            old(self)@.contains_key(src),
            old(self)@.contains_key(dst),
        ensures
            final(self).wf(),
            final(self)@ == old(self)@.insert(dst, old(self)@[src]),
    {
        proof {
            self.lemma_tables_len();
        }
        let mut i: usize = 0;
        while i < 512
            invariant
                self.wf(),
                0 <= i <= 512,
                old(self)@[src].len() == 512,
                old(self)@[dst].len() == 512,
                self@.dom() == old(self)@.dom(),
                self@.contains_key(src),
                self@.contains_key(dst),
                forall|b: u64| #[trigger] self@.contains_key(b) && b != dst ==> self@[b] == old(self)@[b],
                self@[dst].len() == 512,
                forall|j: int| 0 <= j < i ==> self@[dst][j] == old(self)@[src][j],
                forall|j: int| i <= j < 512 ==> self@[dst][j] == old(self)@[dst][j],
                src == dst ==> forall|j: int| 0 <= j < 512 ==> self@[dst][j] == old(self)@[src][j],
            decreases 512 - i,
        {
            let e = self.read(src, i);
            self.write(dst, i, e);
            i = i + 1;
        }
        proof {
            assert(self@[dst] =~= old(self)@[src]);
            assert(self@ =~= old(self)@.insert(dst, old(self)@[src]));
        }
    }

    /// A new address space: a zeroed top-level table in the first free
    /// frame, holding a copy of the kernel's top-level entries from
    /// `kernel_template`.  Returns its physical address.
    pub fn get_new_pml4t(&mut self, frames: &mut FrameBitmap, kernel_template: u64) -> (pml4: u64)
        requires
            old(self).wf(),
            old(frames).wf(),
            old(self)@.contains_key(kernel_template),
            first_free_frame(old(frames).frames()) is Some,
        ensures
            final(self).wf(),
            final(frames).wf(),
            final(frames).size() == old(frames).size(),
            final(frames).addr() == old(frames).addr(),
            ({
                let f = first_free_frame(old(frames).frames())->0;
                let m1 = old(self)@.insert(pml4, zero_table());
                &&& pml4 == frame_addr(f as nat) as u64
                &&& final(frames).frames() == old(frames).frames().update(f, true)
                &&& final(self)@ == m1.insert(pml4, m1[kernel_template])
            }),
            tables_sound(old(self)@, old(frames).frames()) ==> tables_sound(final(self)@, final(frames).frames()),
    {
        proof {
            if tables_sound(old(self)@, old(frames).frames()) {
                law_new_table_keeps_tables_sound(old(self)@, old(frames).frames(), kernel_template);
            }
        }
        let new = match frames.alloc_frame() {
            Some(a) => a,
            None => {
                proof {
                    assert(false);
                }
                0
            },
        };
        self.add_zero_table(new);
        self.copy_kernel_mapping(kernel_template, new);
        new
    }
}

// ----- mapping runs of pages ------------------------------------------------

/// Tables, frames and end after `pages` pages are mapped from `end` upward
/// in address space `pml4` with `flags`, each backed by the first free
/// frame, and whether every step could be taken: a frame was free, the
/// way down was possible, and the end stayed in range.
pub open spec fn fresh_pages_spec(
    m: Map<u64, Seq<u64>>,
    fr: Seq<bool>,
    pml4: u64,
    end: u64,
    pages: nat,
    flags: u64,
) -> (Map<u64, Seq<u64>>, Seq<bool>, u64, bool)
    decreases pages,
{
    if pages == 0 {
        (m, fr, end, true)
    } else {
        let (m1, f1, e1, ok1) = fresh_pages_spec(m, fr, pml4, end, (pages - 1) as nat, flags);
        let f = first_free_frame(f1)->0;
        let phys = frame_addr(f as nat) as u64;
        let f2 = f1.update(f, true);
        let (m2, f3) = map_page_spec(m1, f2, pml4, e1, phys, flags);
        let ok = ok1 && first_free_frame(f1) is Some && can_map(m1, f2, pml4, e1, flags) && e1 + 0x1000
            <= u64::MAX;
        (m2, f3, (e1 + 0x1000) as u64, ok)
    }
}

/// The physical page that page `i` of a run mapped by `fresh_pages_spec`
/// gets: the first frame free after the pages before it are mapped.
pub open spec fn fresh_frame(m: Map<u64, Seq<u64>>, fr: Seq<bool>, pml4: u64, end: u64, i: nat, flags: u64) -> u64 {
    frame_addr(first_free_frame(fresh_pages_spec(m, fr, pml4, end, i, flags).1)->0 as nat) as u64
}

/// Whether `fresh_pages_spec` can take every step.
pub open spec fn can_map_fresh(m: Map<u64, Seq<u64>>, fr: Seq<bool>, pml4: u64, end: u64, pages: nat, flags: u64) -> bool {
    fresh_pages_spec(m, fr, pml4, end, pages, flags).3
}

proof fn lemma_fresh_ok_prefix(
    m: Map<u64, Seq<u64>>,
    fr: Seq<bool>,
    pml4: u64,
    end: u64,
    k: nat,
    n: nat,
    flags: u64,
)
    requires
        k <= n,
        can_map_fresh(m, fr, pml4, end, n, flags),
    ensures
        can_map_fresh(m, fr, pml4, end, k, flags),
    decreases n - k,
{
    if k < n {
        lemma_fresh_ok_prefix(m, fr, pml4, end, k, (n - 1) as nat, flags);
    }
}

/// Tables and frames after each (virtual, physical) pair of `maps` is
/// mapped in turn with `flags`, and whether every step could be taken.
pub open spec fn map_all_spec(
    m: Map<u64, Seq<u64>>,
    fr: Seq<bool>,
    pml4: u64,
    maps: Seq<(u64, u64)>,
    flags: u64,
) -> (Map<u64, Seq<u64>>, Seq<bool>, bool)
    decreases maps.len(),
{
    if maps.len() == 0 {
        (m, fr, true)
    } else {
        let (m1, f1, ok1) = map_all_spec(m, fr, pml4, maps.drop_last(), flags);
        let (v, p) = maps.last();
        let (m2, f2) = map_page_spec(m1, f1, pml4, v, p, flags);
        (m2, f2, ok1 && can_map(m1, f1, pml4, v, flags))
    }
}

/// Mapping pages never removes a table.
pub proof fn lemma_map_all_keeps_keys(
    m: Map<u64, Seq<u64>>,
    fr: Seq<bool>,
    pml4: u64,
    maps: Seq<(u64, u64)>,
    flags: u64,
    a: u64,
)
    requires
        m.contains_key(a),
    ensures
        map_all_spec(m, fr, pml4, maps, flags).0.contains_key(a),
    decreases maps.len(),
{
    if maps.len() > 0 {
        lemma_map_all_keeps_keys(m, fr, pml4, maps.drop_last(), flags, a);
    }
}

proof fn lemma_map_all_ok_prefix(
    m: Map<u64, Seq<u64>>,
    fr: Seq<bool>,
    pml4: u64,
    maps: Seq<(u64, u64)>,
    k: int,
    flags: u64,
)
    requires
        0 <= k <= maps.len(),
        map_all_spec(m, fr, pml4, maps, flags).2,
    ensures
        map_all_spec(m, fr, pml4, maps.take(k), flags).2,
    decreases maps.len() - k,
{
    if k == maps.len() {
        assert(maps.take(k) =~= maps);
    } else {
        lemma_map_all_ok_prefix(m, fr, pml4, maps, k + 1, flags);
        let next = maps.take(k + 1);
        assert(next.drop_last() =~= maps.take(k));
        assert(map_all_spec(m, fr, pml4, next, flags).2 ==> map_all_spec(m, fr, pml4, next.drop_last(), flags).2);
    }
}

/// Largest number of frames whose addresses fit the address bits of an
/// entry.
pub const MAX_FRAMES: u64 = 0x100_0000_0000;

/// The tables live in used frames, and the frames are few enough that a
/// frame's address fits an entry.
pub open spec fn tables_sound(m: Map<u64, Seq<u64>>, fr: Seq<bool>) -> bool {
    &&& tables_in_used_frames(m, fr)
    &&& fr.len() <= MAX_FRAMES
}

/// A zero entry is not present.
pub proof fn lemma_zero_entry_absent()
    ensures
        !present(0u64),
{
    assert(0u64 & 1u64 == 0) by (bit_vector);
}

/// Flags below the first address bit leave the address bits alone.
pub proof fn lemma_low_flags(flags: u64)
    requires
        flags < 0x1000,
    ensures
        flags & ADDR_MASK == 0,
{
    assert(flags < 0x1000 ==> flags & 0x000F_FFFF_FFFF_F000u64 == 0) by (bit_vector);
}

/// Marking a frame used keeps every table in a used frame.
pub proof fn lemma_mark_used_keeps_tables(m: Map<u64, Seq<u64>>, fr: Seq<bool>, f: int)
    requires
        tables_in_used_frames(m, fr),
        0 <= f < fr.len(),
    ensures
        tables_in_used_frames(m, fr.update(f, true)),
{
    let g = fr.update(f, true);
    assert forall|a: u64| #[trigger] m.contains_key(a) implies {
        &&& a & ADDR_MASK == a
        &&& a % 4096 == 0
        &&& (a / 4096) < g.len()
        &&& g[(a / 4096) as int]
        &&& m[a].len() == 512
    } by {
        assert(fr[(a / 4096) as int]);
    }
}

/// `b` marks used every frame that `a` marks used.
pub open spec fn frames_grow(a: Seq<bool>, b: Seq<bool>) -> bool {
    &&& a.len() == b.len()
    &&& forall|i: int| 0 <= i < a.len() && #[trigger] a[i] ==> b[i]
}

/// A step down only marks frames used.
pub proof fn lemma_step_grows(m: Map<u64, Seq<u64>>, fr: Seq<bool>, table: u64, index: int, flags: u64)
    requires
        can_step(m, fr, table, index),
    ensures
        frames_grow(fr, get_or_create(m, fr, table, index, flags).1),
{
    if !present(m[table][index]) {
        let k = choose|k: int| crate::frames::is_first_free(fr, k);
        assert(crate::frames::is_first_free(fr, k));
    }
}

/// Mapping a page only marks frames used.
pub proof fn lemma_map_grows(m: Map<u64, Seq<u64>>, fr: Seq<bool>, pml4: u64, virt: u64, phys: u64, flags: u64)
    requires
        can_map(m, fr, pml4, virt, flags),
    ensures
        frames_grow(fr, map_page_spec(m, fr, pml4, virt, phys, flags).1),
{
    let (m1, f1, pdpt) = get_or_create(m, fr, pml4, table_index(virt, 3), flags);
    lemma_step_grows(m, fr, pml4, table_index(virt, 3), flags);
    let (m2, f2, pd) = get_or_create(m1, f1, pdpt, table_index(virt, 2), flags);
    lemma_step_grows(m1, f1, pdpt, table_index(virt, 2), flags);
    lemma_step_grows(m2, f2, pd, table_index(virt, 1), flags);
}

/// Mapping a list of pages only marks frames used.
pub proof fn lemma_map_all_grows(m: Map<u64, Seq<u64>>, fr: Seq<bool>, pml4: u64, maps: Seq<(u64, u64)>, flags: u64)
    requires
        map_all_spec(m, fr, pml4, maps, flags).2,
    ensures
        frames_grow(fr, map_all_spec(m, fr, pml4, maps, flags).1),
    decreases maps.len(),
{
    if maps.len() > 0 {
        lemma_map_all_grows(m, fr, pml4, maps.drop_last(), flags);
        let (m1, f1, ok1) = map_all_spec(m, fr, pml4, maps.drop_last(), flags);
        let (v, p) = maps.last();
        lemma_map_grows(m1, f1, pml4, v, p, flags);
    }
}

/// A zeroed table put in a frame in use keeps every table in a used frame.
pub proof fn lemma_add_table_in_used_frame(m: Map<u64, Seq<u64>>, fr: Seq<bool>, f: int)
    requires
        tables_sound(m, fr),
        0 <= f < fr.len(),
        fr[f],
    ensures
        tables_sound(m.insert(frame_addr(f as nat) as u64, zero_table()), fr),
{
    let a = frame_addr(f as nat) as u64;
    lemma_frame_addr_bits(f as u64);
    let m1 = m.insert(a, zero_table());
    assert forall|b: u64| #[trigger] m1.contains_key(b) implies {
        &&& b & ADDR_MASK == b
        &&& b % 4096 == 0
        &&& (b / 4096) < fr.len()
        &&& fr[(b / 4096) as int]
        &&& m1[b].len() == 512
    } by {
        if b != a {
            assert(m.contains_key(b));
        }
    }
}

/// Copying one known table over another keeps every table in a used frame.
pub proof fn lemma_copy_table_keeps(m: Map<u64, Seq<u64>>, fr: Seq<bool>, src: u64, dst: u64)
    requires
        tables_sound(m, fr),
        m.contains_key(src),
        m.contains_key(dst),
    ensures
        tables_sound(m.insert(dst, m[src]), fr),
{
    let m1 = m.insert(dst, m[src]);
    assert forall|b: u64| #[trigger] m1.contains_key(b) implies {
        &&& b & ADDR_MASK == b
        &&& b % 4096 == 0
        &&& (b / 4096) < fr.len()
        &&& fr[(b / 4096) as int]
        &&& m1[b].len() == 512
    } by {
        assert(m.contains_key(b));
    }
}

/// A zeroed table in the first free frame keeps the tables sound once that
/// frame is marked used.
pub proof fn lemma_zero_table_keeps_tables_sound(m: Map<u64, Seq<u64>>, fr: Seq<bool>)
    requires
        tables_sound(m, fr),
        first_free_frame(fr) is Some,
    ensures
        ({
            let f = first_free_frame(fr)->0;
            &&& 0 <= f < fr.len()
            &&& tables_sound(m.insert(frame_addr(f as nat) as u64, zero_table()), fr.update(f, true))
        }),
{
    let f = first_free_frame(fr)->0;
    let k = choose|k: int| crate::frames::is_first_free(fr, k);
    assert(crate::frames::is_first_free(fr, k));
    lemma_mark_used_keeps_tables(m, fr, f);
    lemma_add_table_in_used_frame(m, fr.update(f, true), f);
}

/// The tables form levels: each known table has a level from 4 (top) down
/// to 1, and every present entry of a table above level 1 points to a known
/// table one level down.
pub open spec fn levels_ok(m: Map<u64, Seq<u64>>, lvl: Map<u64, nat>) -> bool {
    &&& forall|a: u64| #[trigger] m.contains_key(a) ==> lvl.contains_key(a) && 1 <= lvl[a] <= 4
    &&& forall|a: u64, i: int|
        #![trigger m[a][i]]
        m.contains_key(a) && 0 <= i < 512 && lvl[a] > 1 && present(m[a][i]) ==> m.contains_key(
            entry_addr(m[a][i]),
        ) && lvl[entry_addr(m[a][i])] == lvl[a] - 1
    &&& tree_below_top(m, lvl)
}

/// Below the top level the tables form trees: a table of level 2 or 1 is
/// pointed to by one entry only, and the entries of a top-level table
/// point to different tables.  (Top-level tables share the tables below
/// them: every address space copies the template's entries.)
pub open spec fn tree_below_top(m: Map<u64, Seq<u64>>, lvl: Map<u64, nat>) -> bool {
    &&& forall|a: u64, i: int, b: u64, j: int|
        #![trigger m[a][i], m[b][j]]
        m.contains_key(a) && m.contains_key(b) && 0 <= i < 512 && 0 <= j < 512 && 2 <= lvl[a] <= 3 && 2
            <= lvl[b] <= 3 && present(m[a][i]) && present(m[b][j]) && entry_addr(m[a][i]) == entry_addr(
            m[b][j],
        ) ==> a == b && i == j
    &&& forall|a: u64, i: int, j: int|
        #![trigger m[a][i], m[a][j]]
        m.contains_key(a) && 0 <= i < 512 && 0 <= j < 512 && i != j && lvl[a] == 4 && present(m[a][i])
            && present(m[a][j]) ==> entry_addr(m[a][i]) != entry_addr(m[a][j])
}

/// `lvl2` gives every table of `m` the level `lvl` gives it.
pub open spec fn levels_kept(m: Map<u64, Seq<u64>>, lvl: Map<u64, nat>, lvl2: Map<u64, nat>) -> bool {
    forall|a: u64| #[trigger] m.contains_key(a) ==> lvl2.contains_key(a) && lvl2[a] == lvl[a]
}

/// Every table of `m2` not in `m` sits in a frame that `fr` left free.
pub open spec fn new_tables_in_free_frames(m: Map<u64, Seq<u64>>, m2: Map<u64, Seq<u64>>, fr: Seq<bool>) -> bool {
    forall|a: u64|
        #[trigger] m2.contains_key(a) && !m.contains_key(a) ==> (a / 4096) < fr.len() && !fr[(a / 4096) as int]
}

/// One step down from a table above level 1 keeps the levels: a table made
/// on the way takes the level below, in a frame that was free.
pub proof fn lemma_step_levels(
    m: Map<u64, Seq<u64>>,
    fr: Seq<bool>,
    table: u64,
    index: int,
    flags: u64,
    lvl: Map<u64, nat>,
) -> (lvl1: Map<u64, nat>)
    requires
        can_step(m, fr, table, index),
        tables_sound(m, fr),
        flags & ADDR_MASK == 0,
        levels_ok(m, lvl),
        lvl[table] > 1,
    ensures
        ({
            let (m1, f1, next) = get_or_create(m, fr, table, index, flags);
            &&& levels_ok(m1, lvl1)
            &&& levels_kept(m, lvl, lvl1)
            &&& m1.contains_key(next)
            &&& lvl1[next] == lvl[table] - 1
            &&& new_tables_in_free_frames(m, m1, fr)
        }),
{
    let e = m[table][index];
    let (m1, f1, next) = get_or_create(m, fr, table, index, flags);
    lemma_entry_bits(e, 0, flags, 0);
    if present(e) {
        let ne = (e | flags) as u64;
        assert(m1 == m.insert(table, m[table].update(index, ne)));
        assert forall|a: u64, i: int|
            m1.contains_key(a) && 0 <= i < 512 && lvl[a] > 1 && present(#[trigger] m1[a][i]) implies m1.contains_key(
            entry_addr(m1[a][i]),
        ) && lvl[entry_addr(m1[a][i])] == lvl[a] - 1 by {
            if a == table && i == index {
                assert(m1[a][i] == ne);
            } else {
                assert(m1[a][i] == m[a][i]);
            }
        }
        lvl
    } else {
        let f = first_free_frame(fr)->0;
        let k = choose|k: int| crate::frames::is_first_free(fr, k);
        assert(crate::frames::is_first_free(fr, k));
        assert(f == k);
        let new = frame_addr(f as nat) as u64;
        lemma_frame_addr_bits(f as u64);
        lemma_entry_bits(e, new, flags, 0);
        assert(!m.contains_key(new)) by {
            if m.contains_key(new) {
                assert(fr[(new / 4096) as int]);
            }
        }
        let ne = (new | flags | TABLE_FLAGS) as u64;
        let m1a = m.insert(new, zero_table());
        assert(m1 == m1a.insert(table, m1a[table].update(index, ne)));
        let lvl1 = lvl.insert(new, (lvl[table] - 1) as nat);
        lemma_zero_entry_absent();
        assert forall|a: u64, i: int|
            m1.contains_key(a) && 0 <= i < 512 && lvl1[a] > 1 && present(#[trigger] m1[a][i]) implies m1.contains_key(
            entry_addr(m1[a][i]),
        ) && lvl1[entry_addr(m1[a][i])] == lvl1[a] - 1 by {
            if a == new {
                assert(m1[a][i] == 0u64);
            } else if a == table && i == index {
                assert(m1[a][i] == ne);
            } else {
                assert(m1[a][i] == m[a][i]);
                assert(m.contains_key(entry_addr(m[a][i])));
            }
        }
        assert forall|a: u64| #[trigger] m1.contains_key(a) && !m.contains_key(a) implies (a / 4096) < fr.len()
            && !fr[(a / 4096) as int] by {
            assert(a == new);
        }
        lvl1
    }
}

/// Mapping a page from a top-level table keeps the levels; the four tables
/// on the way down are then of levels 4, 3, 2 and 1, so they are different
/// tables.
pub proof fn lemma_map_levels(
    m: Map<u64, Seq<u64>>,
    fr: Seq<bool>,
    pml4: u64,
    virt: u64,
    phys: u64,
    flags: u64,
    lvl: Map<u64, nat>,
) -> (lvl3: Map<u64, nat>)
    requires
        can_map(m, fr, pml4, virt, flags),
        tables_sound(m, fr),
        flags & ADDR_MASK == 0,
        levels_ok(m, lvl),
        lvl[pml4] == 4,
    ensures
        levels_ok(map_page_spec(m, fr, pml4, virt, phys, flags).0, lvl3),
        levels_kept(m, lvl, lvl3),
        forall|a: u64| #[trigger] m.contains_key(a) ==> map_page_spec(m, fr, pml4, virt, phys, flags).0.contains_key(a),
        new_tables_in_free_frames(m, map_page_spec(m, fr, pml4, virt, phys, flags).0, fr),
        ({
            let (m3, f3, pdpt, pd, pt) = map_walk(m, fr, pml4, virt, flags);
            &&& pml4 != pdpt && pml4 != pd && pml4 != pt
            &&& pdpt != pd && pdpt != pt
            &&& pd != pt
        }),
{
    let i4 = table_index(virt, 3);
    let i3 = table_index(virt, 2);
    let i2 = table_index(virt, 1);
    let i1 = table_index(virt, 0);
    lemma_table_index_bound(virt, 0);
    let (m1, f1, pdpt) = get_or_create(m, fr, pml4, i4, flags);
    lemma_step(m, fr, pml4, i4, flags);
    lemma_step_grows(m, fr, pml4, i4, flags);
    let lvl1 = lemma_step_levels(m, fr, pml4, i4, flags, lvl);
    let (m2, f2, pd) = get_or_create(m1, f1, pdpt, i3, flags);
    lemma_step(m1, f1, pdpt, i3, flags);
    lemma_step_grows(m1, f1, pdpt, i3, flags);
    let lvl2 = lemma_step_levels(m1, f1, pdpt, i3, flags, lvl1);
    let (m3, f3, pt) = get_or_create(m2, f2, pd, i2, flags);
    lemma_step(m2, f2, pd, i2, flags);
    let lvl3 = lemma_step_levels(m2, f2, pd, i2, flags, lvl2);
    assert(lvl3[pml4] == 4 && lvl3[pdpt] == 3 && lvl3[pd] == 2 && lvl3[pt] == 1);
    let m4 = m3.insert(pt, m3[pt].update(i1, (phys | flags) as u64));
    assert(map_page_spec(m, fr, pml4, virt, phys, flags).0 == m4);
    assert forall|a: u64, i: int|
        m4.contains_key(a) && 0 <= i < 512 && lvl3[a] > 1 && present(#[trigger] m4[a][i]) implies m4.contains_key(
        entry_addr(m4[a][i]),
    ) && lvl3[entry_addr(m4[a][i])] == lvl3[a] - 1 by {
        assert(a != pt);
        assert(m4[a][i] == m3[a][i]);
    }
    assert forall|a: u64| #[trigger] m4.contains_key(a) && !m.contains_key(a) implies (a / 4096) < fr.len()
        && !fr[(a / 4096) as int] by {
        assert(m3.contains_key(a));
        if m2.contains_key(a) {
            if m1.contains_key(a) {
            } else {
                assert(!f1[(a / 4096) as int]);
            }
        } else {
            assert(!f2[(a / 4096) as int]);
            if m1.contains_key(a) {
            } else {
                assert(f1.len() == fr.len());
                if fr[(a / 4096) as int] {
                    assert(f1[(a / 4096) as int]);
                }
            }
        }
    }
    lvl3
}

/// Mapping a list of pages from a top-level table keeps the levels.
pub proof fn lemma_map_all_levels(
    m: Map<u64, Seq<u64>>,
    fr: Seq<bool>,
    pml4: u64,
    maps: Seq<(u64, u64)>,
    flags: u64,
    lvl: Map<u64, nat>,
) -> (lvl2: Map<u64, nat>)
    requires
        tables_sound(m, fr),
        flags & ADDR_MASK == 0,
        map_all_spec(m, fr, pml4, maps, flags).2,
        levels_ok(m, lvl),
        m.contains_key(pml4),
        lvl[pml4] == 4,
    ensures
        levels_ok(map_all_spec(m, fr, pml4, maps, flags).0, lvl2),
        levels_kept(m, lvl, lvl2),
        forall|a: u64| #[trigger] m.contains_key(a) ==> map_all_spec(m, fr, pml4, maps, flags).0.contains_key(a),
        new_tables_in_free_frames(m, map_all_spec(m, fr, pml4, maps, flags).0, fr),
    decreases maps.len(),
{
    if maps.len() == 0 {
        lvl
    } else {
        let lvl1 = lemma_map_all_levels(m, fr, pml4, maps.drop_last(), flags, lvl);
        law_map_all_keeps_tables_sound(m, fr, pml4, maps.drop_last(), flags);
        lemma_map_all_grows(m, fr, pml4, maps.drop_last(), flags);
        let (m1, f1, ok1) = map_all_spec(m, fr, pml4, maps.drop_last(), flags);
        let (v, p) = maps.last();
        let lvl2 = lemma_map_levels(m1, f1, pml4, v, p, flags, lvl1);
        let m2 = map_all_spec(m, fr, pml4, maps, flags).0;
        assert forall|a: u64| #[trigger] m2.contains_key(a) && !m.contains_key(a) implies (a / 4096) < fr.len()
            && !fr[(a / 4096) as int] by {
            if !m1.contains_key(a) {
                assert(!f1[(a / 4096) as int]);
                if fr[(a / 4096) as int] {
                    assert(f1[(a / 4096) as int]);
                }
            }
        }
        lvl2
    }
}

/// Mapping a run of fresh pages from a top-level table keeps the levels.
pub proof fn lemma_fresh_pages_levels(
    m: Map<u64, Seq<u64>>,
    fr: Seq<bool>,
    pml4: u64,
    end: u64,
    pages: nat,
    flags: u64,
    lvl: Map<u64, nat>,
) -> (lvl2: Map<u64, nat>)
    requires
        tables_sound(m, fr),
        flags & ADDR_MASK == 0,
        can_map_fresh(m, fr, pml4, end, pages, flags),
        levels_ok(m, lvl),
        m.contains_key(pml4),
        lvl[pml4] == 4,
    ensures
        levels_ok(fresh_pages_spec(m, fr, pml4, end, pages, flags).0, lvl2),
        levels_kept(m, lvl, lvl2),
        forall|a: u64| #[trigger] m.contains_key(a) ==> fresh_pages_spec(m, fr, pml4, end, pages, flags).0.contains_key(a),
    decreases pages,
{
    if pages == 0 {
        lvl
    } else {
        lemma_fresh_ok_prefix(m, fr, pml4, end, (pages - 1) as nat, pages, flags);
        let lvl1 = lemma_fresh_pages_levels(m, fr, pml4, end, (pages - 1) as nat, flags, lvl);
        law_fresh_pages_keep_tables_sound(m, fr, pml4, end, (pages - 1) as nat, flags);
        let (m1, f1, e1, ok1) = fresh_pages_spec(m, fr, pml4, end, (pages - 1) as nat, flags);
        let f = first_free_frame(f1)->0;
        let k = choose|k: int| crate::frames::is_first_free(f1, k);
        assert(crate::frames::is_first_free(f1, k));
        let f2 = f1.update(f, true);
        lemma_mark_used_keeps_tables(m1, f1, f);
        lemma_map_levels(m1, f2, pml4, e1, frame_addr(f as nat) as u64, flags, lvl1)
    }
}

/// A new top-level table in the first free frame, holding a copy of a
/// top-level table, keeps the levels, the new table being at the top.
pub proof fn lemma_new_table_levels(m: Map<u64, Seq<u64>>, fr: Seq<bool>, template: u64, lvl: Map<u64, nat>) -> (lvl2: Map<u64, nat>)
    requires
        tables_sound(m, fr),
        m.contains_key(template),
        first_free_frame(fr) is Some,
        levels_ok(m, lvl),
        lvl[template] == 4,
    ensures
        ({
            let f = first_free_frame(fr)->0;
            let a = frame_addr(f as nat) as u64;
            let m1 = m.insert(a, zero_table());
            &&& levels_ok(m1.insert(a, m1[template]), lvl2)
            &&& levels_kept(m, lvl, lvl2)
            &&& lvl2[a] == 4
            &&& !m.contains_key(a)
        }),
{
    let f = first_free_frame(fr)->0;
    let k = choose|k: int| crate::frames::is_first_free(fr, k);
    assert(crate::frames::is_first_free(fr, k));
    let a = frame_addr(f as nat) as u64;
    lemma_frame_addr_bits(f as u64);
    assert(!m.contains_key(a)) by {
        if m.contains_key(a) {
            assert(fr[(a / 4096) as int]);
        }
    }
    let m1 = m.insert(a, zero_table());
    assert(m1[template] == m[template]);
    let m2 = m1.insert(a, m1[template]);
    let lvl2 = lvl.insert(a, 4);
    assert forall|b: u64, i: int|
        m2.contains_key(b) && 0 <= i < 512 && lvl2[b] > 1 && present(#[trigger] m2[b][i]) implies m2.contains_key(
        entry_addr(m2[b][i]),
    ) && lvl2[entry_addr(m2[b][i])] == lvl2[b] - 1 by {
        if b == a {
            assert(m2[b][i] == m[template][i]);
            assert(m.contains_key(entry_addr(m[template][i])));
        } else {
            assert(m2[b][i] == m[b][i]);
            assert(m.contains_key(entry_addr(m[b][i])));
        }
    }
    lvl2
}

/// A zeroed table added at a new address keeps the levels, whatever level
/// it is given.
pub proof fn lemma_zero_table_levels(m: Map<u64, Seq<u64>>, lvl: Map<u64, nat>, a: u64, level: nat)
    requires
        levels_ok(m, lvl),
        !m.contains_key(a),
        1 <= level <= 4,
    ensures
        levels_ok(m.insert(a, zero_table()), lvl.insert(a, level)),
        levels_kept(m, lvl, lvl.insert(a, level)),
{
    let m1 = m.insert(a, zero_table());
    let l1 = lvl.insert(a, level);
    lemma_zero_entry_absent();
    assert forall|b: u64, i: int|
        m1.contains_key(b) && 0 <= i < 512 && l1[b] > 1 && present(#[trigger] m1[b][i]) implies m1.contains_key(
        entry_addr(m1[b][i]),
    ) && l1[entry_addr(m1[b][i])] == l1[b] - 1 by {
        if b == a {
            assert(m1[b][i] == 0u64);
        } else {
            assert(m1[b][i] == m[b][i]);
            assert(m.contains_key(entry_addr(m[b][i])));
        }
    }
}

/// Copying the entries of a top-level table over another top-level table
/// keeps the levels.
pub proof fn lemma_copy_table_levels(m: Map<u64, Seq<u64>>, lvl: Map<u64, nat>, src: u64, dst: u64)
    requires
        levels_ok(m, lvl),
        m.contains_key(src),
        m.contains_key(dst),
        lvl[src] == 4,
        lvl[dst] == 4,
    ensures
        levels_ok(m.insert(dst, m[src]), lvl),
{
    let m1 = m.insert(dst, m[src]);
    assert forall|a: u64, i: int, b: u64, j: int|
        m1.contains_key(a) && m1.contains_key(b) && 0 <= i < 512 && 0 <= j < 512 && 2 <= lvl[a] <= 3 && 2
            <= lvl[b] <= 3 && present(#[trigger] m1[a][i]) && present(#[trigger] m1[b][j]) && entry_addr(m1[a][i])
            == entry_addr(m1[b][j]) implies a == b && i == j by {
        assert(m1[a][i] == m[a][i]);
        assert(m1[b][j] == m[b][j]);
    }
    assert forall|a: u64, i: int, j: int|
        m1.contains_key(a) && 0 <= i < 512 && 0 <= j < 512 && i != j && lvl[a] == 4 && present(
            #[trigger] m1[a][i],
        ) && present(#[trigger] m1[a][j]) implies entry_addr(m1[a][i]) != entry_addr(m1[a][j]) by {
        if a == dst {
            assert(m1[a][i] == m[src][i]);
            assert(m1[a][j] == m[src][j]);
        } else {
            assert(m1[a][i] == m[a][i]);
            assert(m1[a][j] == m[a][j]);
        }
    }
    assert forall|b: u64, i: int|
        m1.contains_key(b) && 0 <= i < 512 && lvl[b] > 1 && present(#[trigger] m1[b][i]) implies m1.contains_key(
        entry_addr(m1[b][i]),
    ) && lvl[entry_addr(m1[b][i])] == lvl[b] - 1 by {
        if b == dst {
            assert(m1[b][i] == m[src][i]);
        } else {
            assert(m1[b][i] == m[b][i]);
        }
    }
}

/// What one step down changes: only entry `index` of `table`, which is then
/// present and points to the next table; a present entry keeps its table,
/// and a missing one gets a fresh zeroed table that was not known.
proof fn lemma_step_rows(m: Map<u64, Seq<u64>>, fr: Seq<bool>, table: u64, index: int, flags: u64)
    requires
        can_step(m, fr, table, index),
        tables_sound(m, fr),
        flags & ADDR_MASK == 0,
    ensures
        ({
            let (m1, f1, next) = get_or_create(m, fr, table, index, flags);
            &&& m1.contains_key(table)
            &&& m1[table] == m[table].update(index, m1[table][index])
            &&& present(m1[table][index])
            &&& entry_addr(m1[table][index]) == next
            &&& present(m[table][index]) ==> next == entry_addr(m[table][index]) && m1.dom() == m.dom()
            &&& !present(m[table][index]) ==> !m.contains_key(next) && next != table && m1[next]
                == zero_table() && m1.dom() == m.dom().insert(next)
            &&& forall|b: u64| #[trigger] m.contains_key(b) && b != table ==> m1[b] == m[b]
        }),
{
    let e = m[table][index];
    lemma_entry_bits(e, 0, flags, 0);
    if !present(e) {
        let f = first_free_frame(fr)->0;
        let k = choose|k: int| crate::frames::is_first_free(fr, k);
        assert(crate::frames::is_first_free(fr, k));
        assert(f == k);
        let new = frame_addr(f as nat) as u64;
        lemma_frame_addr_bits(f as u64);
        lemma_entry_bits(e, new, flags, 0);
        assert(!m.contains_key(new)) by {
            if m.contains_key(new) {
                assert(fr[(new / 4096) as int]);
            }
        }
        let (m1, f1, next) = get_or_create(m, fr, table, index, flags);
        assert(m1.dom() =~= m.dom().insert(next));
    } else {
        let (m1, f1, next) = get_or_create(m, fr, table, index, flags);
        assert(m1.dom() =~= m.dom());
    }
}

/// Two addresses lie in the same page of an address space when their four
/// table indices agree.
pub open spec fn same_page(v: u64, w: u64) -> bool {
    &&& table_index(v, 3) == table_index(w, 3)
    &&& table_index(v, 2) == table_index(w, 2)
    &&& table_index(v, 1) == table_index(w, 1)
    &&& table_index(v, 0) == table_index(w, 0)
}

/// Mapping a page from a top-level table leaves the translation of every
/// address of every other page as it was, whether it translated before or
/// not: the tables below the top form trees, so no other page's walk reads
/// an entry that the mapping writes, and the tables it makes are new.
pub proof fn law_map_keeps_other_pages(
    m: Map<u64, Seq<u64>>,
    fr: Seq<bool>,
    pml4: u64,
    virt: u64,
    phys: u64,
    flags: u64,
    lvl: Map<u64, nat>,
    other: u64,
)
    requires
        can_map(m, fr, pml4, virt, flags),
        tables_sound(m, fr),
        flags & ADDR_MASK == 0,
        levels_ok(m, lvl),
        m.contains_key(pml4),
        lvl[pml4] == 4,
        !same_page(virt, other),
    ensures
        walk_known(m, pml4, other),
        ({
            let (m4, f4) = map_page_spec(m, fr, pml4, virt, phys, flags);
            &&& walk_known(m4, pml4, other)
            &&& translate(m4, pml4, other) == translate(m, pml4, other)
        }),
{
    let i4 = table_index(virt, 3);
    let i3 = table_index(virt, 2);
    let i2 = table_index(virt, 1);
    let i1 = table_index(virt, 0);
    let o4 = table_index(other, 3);
    let o3 = table_index(other, 2);
    let o2 = table_index(other, 1);
    let o1 = table_index(other, 0);
    lemma_table_index_bound(virt, 3);
    lemma_table_index_bound(virt, 2);
    lemma_table_index_bound(virt, 1);
    lemma_table_index_bound(virt, 0);
    lemma_table_index_bound(other, 3);
    lemma_table_index_bound(other, 2);
    lemma_table_index_bound(other, 1);
    lemma_table_index_bound(other, 0);
    lemma_zero_entry_absent();
    let (m1, f1, pdpt) = get_or_create(m, fr, pml4, i4, flags);
    lemma_step(m, fr, pml4, i4, flags);
    lemma_step_rows(m, fr, pml4, i4, flags);
    let lvl1 = lemma_step_levels(m, fr, pml4, i4, flags, lvl);
    let (m2, f2, pd) = get_or_create(m1, f1, pdpt, i3, flags);
    lemma_step(m1, f1, pdpt, i3, flags);
    lemma_step_rows(m1, f1, pdpt, i3, flags);
    let lvl2 = lemma_step_levels(m1, f1, pdpt, i3, flags, lvl1);
    let (m3, f3, pt) = get_or_create(m2, f2, pd, i2, flags);
    lemma_step(m2, f2, pd, i2, flags);
    lemma_step_rows(m2, f2, pd, i2, flags);
    let lvl3 = lemma_step_levels(m2, f2, pd, i2, flags, lvl2);
    let m4 = m3.insert(pt, m3[pt].update(i1, (phys | flags) as u64));
    assert(map_page_spec(m, fr, pml4, virt, phys, flags).0 == m4);
    assert(lvl3[pml4] == 4 && lvl3[pdpt] == 3 && lvl3[pd] == 2 && lvl3[pt] == 1);
    // the walk of `other` in `m`
    let e4 = m[pml4][o4];
    let t3 = entry_addr(e4);
    let e3 = m[t3][o3];
    let t2 = entry_addr(e3);
    let e2 = m[t2][o2];
    let t1 = entry_addr(e2);
    let e1 = m[t1][o1];
    if present(e4) {
        assert(m.contains_key(t3) && lvl[t3] == 3);
        if present(e3) {
            assert(m.contains_key(t2) && lvl[t2] == 2);
            if present(e2) {
                assert(m.contains_key(t1) && lvl[t1] == 1);
            }
        }
    }
    // the rows of `m4` that the walk reads
    assert(m4[pml4] == m[pml4].update(i4, m4[pml4][i4]));
    if o4 != i4 {
        assert(m4[pml4][o4] == e4);
        if present(e4) {
            assert(t3 != pdpt) by {
                if present(m[pml4][i4]) {
                    assert(entry_addr(m[pml4][i4]) != entry_addr(m[pml4][o4]));
                }
            }
            assert(m4[t3] == m[t3]);
            if present(e3) {
                assert(t2 != pd) by {
                    if present(m1[pdpt][i3]) && m.contains_key(pdpt) {
                        assert(m1[pdpt] == m[pdpt]);
                        if present(m[pdpt][i3]) {
                            assert(entry_addr(m[pdpt][i3]) != entry_addr(m[t3][o3]));
                        }
                    }
                }
                assert(m4[t2] == m[t2]);
                if present(e2) {
                    assert(t1 != pt) by {
                        if m.contains_key(pd) && present(m[pd][i2]) {
                            assert(m2[pd] == m[pd]);
                            assert(entry_addr(m[pd][i2]) != entry_addr(m[t2][o2]));
                        }
                    }
                    assert(m4[t1] == m[t1]);
                }
            }
        }
    } else if !present(e4) {
        // a new table below: all of it zero but the way down to `virt`
        assert(m4[pdpt] == m2[pdpt]);
        assert(m2[pdpt] == zero_table().update(i3, m2[pdpt][i3]));
        if o3 == i3 {
            assert(m3[pd] == zero_table().update(i2, m3[pd][i2]));
            if o2 == i2 {
                assert(m4[pt] == zero_table().update(i1, (phys | flags) as u64));
                assert(o1 != i1);
            }
        }
    } else {
        assert(pdpt == t3);
        assert(m4[pml4][o4] == m1[pml4][i4]);
        if o3 != i3 {
            assert(m4[t3] == m2[t3]);
            assert(m4[t3][o3] == e3);
            if present(e3) {
                assert(t2 != pd) by {
                    if present(m[t3][i3]) {
                        assert(entry_addr(m[t3][i3]) != entry_addr(m[t3][o3]));
                    }
                }
                assert(m4[t2] == m[t2]);
                if present(e2) {
                    assert(t1 != pt) by {
                        if m.contains_key(pd) && present(m[pd][i2]) {
                            assert(m2[pd] == m[pd]);
                            assert(entry_addr(m[pd][i2]) != entry_addr(m[t2][o2]));
                        }
                    }
                    assert(m4[t1] == m[t1]);
                }
            }
        } else if !present(e3) {
            assert(m4[pd] == m3[pd]);
            assert(m3[pd] == zero_table().update(i2, m3[pd][i2]));
            if o2 == i2 {
                assert(m4[pt] == zero_table().update(i1, (phys | flags) as u64));
                assert(o1 != i1);
            }
        } else {
            assert(pd == t2);
            if o2 != i2 {
                assert(m4[t2] == m3[t2]);
                assert(m4[t2][o2] == e2);
                if present(e2) {
                    assert(t1 != pt) by {
                        if present(m[t2][i2]) {
                            assert(entry_addr(m[t2][i2]) != entry_addr(m[t2][o2]));
                        }
                    }
                    assert(m4[t1] == m[t1]);
                }
            } else if !present(e2) {
                assert(m4[pt] == zero_table().update(i1, (phys | flags) as u64));
                assert(o1 != i1);
            } else {
                assert(pt == t1);
                assert(o1 != i1);
                assert(m4[t1][o1] == e1);
            }
        }
    }
}

/// The pages of the pairs of `maps` are different pages.
pub open spec fn pages_distinct(maps: Seq<(u64, u64)>) -> bool {
    forall|i: int, j: int|
        #![trigger maps[i], maps[j]]
        0 <= i < maps.len() && 0 <= j < maps.len() && i != j ==> !same_page(maps[i].0, maps[j].0)
}

/// The physical pages of `maps` fit the address bits of an entry.
pub open spec fn phys_fit(maps: Seq<(u64, u64)>) -> bool {
    forall|i: int| 0 <= i < maps.len() ==> (#[trigger] maps[i]).1 & ADDR_MASK == maps[i].1
}

/// After a list of different pages is mapped from a top-level table, every
/// address of page `k` translates to the physical page of pair `k`, at the
/// address's offset within its page.
pub proof fn law_map_all_then_translate(
    m: Map<u64, Seq<u64>>,
    fr: Seq<bool>,
    pml4: u64,
    maps: Seq<(u64, u64)>,
    flags: u64,
    lvl: Map<u64, nat>,
)
    requires
        tables_sound(m, fr),
        flags & PRESENT != 0,
        flags & ADDR_MASK == 0,
        map_all_spec(m, fr, pml4, maps, flags).2,
        levels_ok(m, lvl),
        m.contains_key(pml4),
        lvl[pml4] == 4,
        pages_distinct(maps),
        phys_fit(maps),
    ensures
        forall|k: int, w: u64|
            #![trigger maps[k], translate(map_all_spec(m, fr, pml4, maps, flags).0, pml4, w)]
            0 <= k < maps.len() && same_page(maps[k].0, w) ==> walk_known(
                map_all_spec(m, fr, pml4, maps, flags).0,
                pml4,
                w,
            ) && translate(map_all_spec(m, fr, pml4, maps, flags).0, pml4, w) == Some(
                (maps[k].1 + (w & 0xFFF)) as u64,
            ),
    decreases maps.len(),
{
    if maps.len() > 0 {
        let init = maps.drop_last();
        assert(pages_distinct(init)) by {
            assert forall|i: int, j: int|
                0 <= i < init.len() && 0 <= j < init.len() && i != j implies !same_page(
                #[trigger] init[i].0,
                #[trigger] init[j].0,
            ) by {
                assert(init[i] == maps[i] && init[j] == maps[j]);
            }
        }
        assert(phys_fit(init)) by {
            assert forall|i: int| 0 <= i < init.len() implies (#[trigger] init[i]).1 & ADDR_MASK == init[i].1 by {
                assert(init[i] == maps[i]);
            }
        }
        law_map_all_then_translate(m, fr, pml4, init, flags, lvl);
        law_map_all_keeps_tables_sound(m, fr, pml4, init, flags);
        let lvl1 = lemma_map_all_levels(m, fr, pml4, init, flags, lvl);
        let (m1, f1, ok1) = map_all_spec(m, fr, pml4, init, flags);
        let (v, p) = maps.last();
        let last = maps.len() - 1;
        assert(maps[last] == (v, p));
        lemma_map_levels(m1, f1, pml4, v, p, flags, lvl1);
        law_map_then_translate(m1, f1, pml4, v, p, flags);
        let m2 = map_page_spec(m1, f1, pml4, v, p, flags).0;
        assert(map_all_spec(m, fr, pml4, maps, flags).0 == m2);
        assert forall|k: int, w: u64|
            0 <= k < maps.len() && same_page(#[trigger] maps[k].0, w) implies walk_known(m2, pml4, w)
            && #[trigger] translate(m2, pml4, w) == Some((maps[k].1 + (w & 0xFFF)) as u64) by {
            if k == last {
            } else {
                assert(maps[k] == init[k]);
                assert(!same_page(maps[k].0, maps[last].0));
                assert(!same_page(v, w));
                law_map_keeps_other_pages(m1, f1, pml4, v, p, flags, lvl1, w);
                assert(translate(m1, pml4, w) == Some((init[k].1 + (w & 0xFFF)) as u64));
            }
        }
    }
}

/// After a run of `pages` fresh pages is mapped from `end`, the run ends
/// `pages` pages above `end`.
pub proof fn lemma_fresh_pages_end(
    m: Map<u64, Seq<u64>>,
    fr: Seq<bool>,
    pml4: u64,
    end: u64,
    pages: nat,
    flags: u64,
)
    requires
        can_map_fresh(m, fr, pml4, end, pages, flags),
    ensures
        fresh_pages_spec(m, fr, pml4, end, pages, flags).2 == end + pages * 0x1000,
    decreases pages,
{
    if pages > 0 {
        lemma_fresh_ok_prefix(m, fr, pml4, end, (pages - 1) as nat, pages, flags);
        lemma_fresh_pages_end(m, fr, pml4, end, (pages - 1) as nat, flags);
    }
}

/// The pages of a run of `pages` pages from `end` are different pages.
pub open spec fn run_pages_distinct(end: u64, pages: nat) -> bool {
    forall|i: int, j: int|
        0 <= i < pages && 0 <= j < pages && i != j ==> !same_page(
            #[trigger] ((end + i * 0x1000) as u64),
            #[trigger] ((end + j * 0x1000) as u64),
        )
}

/// After a run of different pages is mapped from a top-level table, each
/// to the first free frame, an address `w` of page `i` of the run
/// translates to the frame page `i` took (`fresh_frame`), at the address's
/// offset within its page.
pub proof fn law_fresh_pages_then_translate(
    m: Map<u64, Seq<u64>>,
    fr: Seq<bool>,
    pml4: u64,
    end: u64,
    pages: nat,
    flags: u64,
    lvl: Map<u64, nat>,
    i: int,
    w: u64,
)
    requires
        tables_sound(m, fr),
        flags & PRESENT != 0,
        flags & ADDR_MASK == 0,
        can_map_fresh(m, fr, pml4, end, pages, flags),
        levels_ok(m, lvl),
        m.contains_key(pml4),
        lvl[pml4] == 4,
        run_pages_distinct(end, pages),
        0 <= i < pages,
        same_page((end + i * 0x1000) as u64, w),
    ensures
        walk_known(fresh_pages_spec(m, fr, pml4, end, pages, flags).0, pml4, w),
        translate(fresh_pages_spec(m, fr, pml4, end, pages, flags).0, pml4, w) == Some(
            (fresh_frame(m, fr, pml4, end, i as nat, flags) + (w & 0xFFF)) as u64,
        ),
    decreases pages,
{
    let n = (pages - 1) as nat;
    lemma_fresh_ok_prefix(m, fr, pml4, end, n, pages, flags);
    law_fresh_pages_keep_tables_sound(m, fr, pml4, end, n, flags);
    let lvl1 = lemma_fresh_pages_levels(m, fr, pml4, end, n, flags, lvl);
    lemma_fresh_pages_end(m, fr, pml4, end, n, flags);
    let (m1, f1, e1, ok1) = fresh_pages_spec(m, fr, pml4, end, n, flags);
    let f = first_free_frame(f1)->0;
    let k = choose|k: int| crate::frames::is_first_free(f1, k);
    assert(crate::frames::is_first_free(f1, k));
    let phys = frame_addr(f as nat) as u64;
    lemma_frame_addr_bits(f as u64);
    let f2 = f1.update(f, true);
    lemma_mark_used_keeps_tables(m1, f1, f);
    lemma_map_levels(m1, f2, pml4, e1, phys, flags, lvl1);
    let m2 = map_page_spec(m1, f2, pml4, e1, phys, flags).0;
    assert(fresh_pages_spec(m, fr, pml4, end, pages, flags).0 == m2);
    assert(e1 == (end + n * 0x1000) as u64);
    if i == n {
        assert(fresh_frame(m, fr, pml4, end, n, flags) == phys);
        law_map_then_translate(m1, f2, pml4, e1, phys, flags);
    } else {
        assert(run_pages_distinct(end, n)) by {
            assert forall|a: int, b: int| 0 <= a < n && 0 <= b < n && a != b implies !same_page(
                #[trigger] ((end + a * 0x1000) as u64),
                #[trigger] ((end + b * 0x1000) as u64),
            ) by {
                assert(0 <= a < pages && 0 <= b < pages);
            }
        }
        law_fresh_pages_then_translate(m, fr, pml4, end, n, flags, lvl, i, w);
        assert(!same_page((end + i * 0x1000) as u64, (end + n * 0x1000) as u64));
        assert(!same_page(e1, w));
        law_map_keeps_other_pages(m1, f2, pml4, e1, phys, flags, lvl1, w);
    }
}

/// Two addresses in the same page of an address space, within the same
/// 256 TiB half, have the same page number.
proof fn lemma_same_page_number(v: u64, w: u64)
    requires
        same_page(v, w),
        v >> 48u64 == w >> 48u64,
    ensures
        v / 0x1000 == w / 0x1000,
{
    let a3 = (v >> 39u64) & 0x1FFu64;
    let b3 = (w >> 39u64) & 0x1FFu64;
    let a2 = (v >> 30u64) & 0x1FFu64;
    let b2 = (w >> 30u64) & 0x1FFu64;
    let a1 = (v >> 21u64) & 0x1FFu64;
    let b1 = (w >> 21u64) & 0x1FFu64;
    let a0 = (v >> 12u64) & 0x1FFu64;
    let b0 = (w >> 12u64) & 0x1FFu64;
    assert(table_index(v, 3) == a3 as int && table_index(w, 3) == b3 as int);
    assert(table_index(v, 2) == a2 as int && table_index(w, 2) == b2 as int);
    assert(table_index(v, 1) == a1 as int && table_index(w, 1) == b1 as int);
    assert(table_index(v, 0) == a0 as int && table_index(w, 0) == b0 as int);
    assert(v / 0x1000 == w / 0x1000) by (bit_vector)
        requires
            (v >> 39u64) & 0x1FFu64 == (w >> 39u64) & 0x1FFu64,
            (v >> 30u64) & 0x1FFu64 == (w >> 30u64) & 0x1FFu64,
            (v >> 21u64) & 0x1FFu64 == (w >> 21u64) & 0x1FFu64,
            (v >> 12u64) & 0x1FFu64 == (w >> 12u64) & 0x1FFu64,
            v >> 48u64 == w >> 48u64,
    ;
}

/// The pages of a run that stays inside one 256 TiB half of the address
/// range are different pages.
pub proof fn law_run_pages_distinct(end: u64, pages: nat)
    requires
        (end as int) % 0x1_0000_0000_0000 + pages * 0x1000 <= 0x1_0000_0000_0000,
    ensures
        run_pages_distinct(end, pages),
{
    assert forall|i: int, j: int| 0 <= i < pages && 0 <= j < pages && i != j implies !same_page(
        #[trigger] ((end + i * 0x1000) as u64),
        #[trigger] ((end + j * 0x1000) as u64),
    ) by {
        let h = 0x1_0000_0000_0000int;
        let q = (end as int) / h;
        let r = (end as int) % h;
        vstd::arithmetic::div_mod::lemma_fundamental_div_mod(end as int, h);
        assert(i * 0x1000 < pages * 0x1000 && j * 0x1000 < pages * 0x1000) by (nonlinear_arith)
            requires 0 <= i < pages, 0 <= j < pages;
        let v = (end + i * 0x1000) as u64;
        let w = (end + j * 0x1000) as u64;
        assert(v == end + i * 0x1000 && w == end + j * 0x1000);
        assert(v as int == q * h + (r + i * 0x1000));
        assert(w as int == q * h + (r + j * 0x1000));
        vstd::arithmetic::div_mod::lemma_div_multiples_vanish_fancy(q, r + i * 0x1000, h);
        vstd::arithmetic::div_mod::lemma_div_multiples_vanish_fancy(q, r + j * 0x1000, h);
        assert(v >> 48u64 == v / 0x1_0000_0000_0000 && w >> 48u64 == w / 0x1_0000_0000_0000) by (bit_vector);
        if same_page(v, w) {
            lemma_same_page_number(v, w);
            assert((end + i * 0x1000) / 0x1000 != (end + j * 0x1000) / 0x1000) by (nonlinear_arith)
                requires i != j, end >= 0;
        }
    }
}

/// The pages of a run of pairs that stays inside one 256 TiB half of the
/// address range are different pages.
pub proof fn law_run_spec_pages_distinct(virt: u64, phys: u64, count: nat)
    requires
        (virt as int) % 0x1_0000_0000_0000 + count * 0x1000 <= 0x1_0000_0000_0000,
    ensures
        pages_distinct(run_spec(virt, phys, count)),
{
    law_run_pages_distinct(virt, count);
    let r = run_spec(virt, phys, count);
    assert forall|i: int, j: int|
        #![trigger r[i], r[j]]
        0 <= i < r.len() && 0 <= j < r.len() && i != j implies !same_page(r[i].0, r[j].0) by {
        assert(r[i].0 == (virt + i * 0x1000) as u64);
        assert(r[j].0 == (virt + j * 0x1000) as u64);
    }
}

/// The address at offset `o` of the page of `virt` lies in the same page
/// as `virt`, at offset `o`.
pub proof fn law_page_offset_same_page(virt: u64, o: u64)
    requires
        o < 0x1000,
    ensures
        same_page(virt, ((virt & !0xFFFu64) + o) as u64),
        (((virt & !0xFFFu64) + o) as u64) & 0xFFF == o,
{
    let w = ((virt & !0xFFFu64) + o) as u64;
    assert(w == (virt & !0xFFFu64) | o) by (bit_vector)
        requires o < 0x1000, w == ((virt & !0xFFFu64) + o) as u64;
    assert((virt >> 39u64) & 0x1FFu64 == (w >> 39u64) & 0x1FFu64 && (virt >> 30u64) & 0x1FFu64 == (w >> 30u64)
        & 0x1FFu64 && (virt >> 21u64) & 0x1FFu64 == (w >> 21u64) & 0x1FFu64 && (virt >> 12u64) & 0x1FFu64 == (w
        >> 12u64) & 0x1FFu64 && w & 0xFFF == o) by (bit_vector)
        requires o < 0x1000, w == (virt & !0xFFFu64) | o;
    assert(table_index(virt, 3) == ((virt >> 39u64) & 0x1FFu64) as int);
    assert(table_index(virt, 2) == ((virt >> 30u64) & 0x1FFu64) as int);
    assert(table_index(virt, 1) == ((virt >> 21u64) & 0x1FFu64) as int);
    assert(table_index(virt, 0) == ((virt >> 12u64) & 0x1FFu64) as int);
    assert(table_index(w, 3) == ((w >> 39u64) & 0x1FFu64) as int);
    assert(table_index(w, 2) == ((w >> 30u64) & 0x1FFu64) as int);
    assert(table_index(w, 1) == ((w >> 21u64) & 0x1FFu64) as int);
    assert(table_index(w, 0) == ((w >> 12u64) & 0x1FFu64) as int);
}

/// The tables form levels in which `a` and `b` are top-level tables.
pub open spec fn tops_in_levels(m: Map<u64, Seq<u64>>, a: u64, b: u64) -> bool {
    exists|lvl: Map<u64, nat>|
        levels_ok(m, lvl) && m.contains_key(a) && lvl[a] == 4 && m.contains_key(b) && #[trigger] lvl[b] == 4
}

/// Mapping a run of fresh pages keeps the tables sound.
pub proof fn law_fresh_pages_keep_tables_sound(
    m: Map<u64, Seq<u64>>,
    fr: Seq<bool>,
    pml4: u64,
    end: u64,
    pages: nat,
    flags: u64,
)
    requires
        tables_sound(m, fr),
        flags & ADDR_MASK == 0,
        can_map_fresh(m, fr, pml4, end, pages, flags),
    ensures
        ({
            let (m2, f2, e, ok) = fresh_pages_spec(m, fr, pml4, end, pages, flags);
            &&& tables_sound(m2, f2)
            &&& f2.len() == fr.len()
        }),
    decreases pages,
{
    if pages > 0 {
        lemma_fresh_ok_prefix(m, fr, pml4, end, (pages - 1) as nat, pages, flags);
        law_fresh_pages_keep_tables_sound(m, fr, pml4, end, (pages - 1) as nat, flags);
        let (m1, f1, e1, ok1) = fresh_pages_spec(m, fr, pml4, end, (pages - 1) as nat, flags);
        let f = first_free_frame(f1)->0;
        let k = choose|k: int| crate::frames::is_first_free(f1, k);
        assert(crate::frames::is_first_free(f1, k));
        assert(f == k);
        let f2 = f1.update(f, true);
        lemma_mark_used_keeps_tables(m1, f1, f);
        law_map_keeps_tables_in_used_frames(m1, f2, pml4, e1, frame_addr(f as nat) as u64, flags);
    }
}

/// Mapping a list of pages keeps the tables sound.
pub proof fn law_map_all_keeps_tables_sound(
    m: Map<u64, Seq<u64>>,
    fr: Seq<bool>,
    pml4: u64,
    maps: Seq<(u64, u64)>,
    flags: u64,
)
    requires
        tables_sound(m, fr),
        flags & ADDR_MASK == 0,
        map_all_spec(m, fr, pml4, maps, flags).2,
    ensures
        ({
            let (m2, f2, ok) = map_all_spec(m, fr, pml4, maps, flags);
            &&& tables_sound(m2, f2)
            &&& f2.len() == fr.len()
        }),
    decreases maps.len(),
{
    if maps.len() > 0 {
        law_map_all_keeps_tables_sound(m, fr, pml4, maps.drop_last(), flags);
        let (m1, f1, ok1) = map_all_spec(m, fr, pml4, maps.drop_last(), flags);
        let (v, p) = maps.last();
        law_map_keeps_tables_in_used_frames(m1, f1, pml4, v, p, flags);
    }
}

/// A new top-level table in the first free frame, holding a copy of a
/// known table, keeps the tables sound once that frame is marked used.
pub proof fn law_new_table_keeps_tables_sound(m: Map<u64, Seq<u64>>, fr: Seq<bool>, template: u64)
    requires
        tables_sound(m, fr),
        m.contains_key(template),
        first_free_frame(fr) is Some,
    ensures
        ({
            let f = first_free_frame(fr)->0;
            let a = frame_addr(f as nat) as u64;
            let m1 = m.insert(a, zero_table());
            &&& tables_sound(m1, fr.update(f, true))
            &&& tables_sound(m1.insert(a, m1[template]), fr.update(f, true))
        }),
{
    let f = first_free_frame(fr)->0;
    let k = choose|k: int| crate::frames::is_first_free(fr, k);
    assert(crate::frames::is_first_free(fr, k));
    assert(f == k);
    let a = frame_addr(f as nat) as u64;
    lemma_frame_addr_bits(f as u64);
    let g = fr.update(f, true);
    lemma_mark_used_keeps_tables(m, fr, f);
    let m1 = m.insert(a, zero_table());
    assert(m1[template].len() == 512) by {
        if template != a {
            assert(m1[template] == m[template]);
        }
    }
    let m2 = m1.insert(a, m1[template]);
    assert forall|b: u64| #[trigger] m1.contains_key(b) implies {
        &&& b & ADDR_MASK == b
        &&& b % 4096 == 0
        &&& (b / 4096) < g.len()
        &&& g[(b / 4096) as int]
        &&& m1[b].len() == 512
    } by {
        if b != a {
            assert(m.contains_key(b));
        }
    }
    assert forall|b: u64| #[trigger] m2.contains_key(b) implies {
        &&& b & ADDR_MASK == b
        &&& b % 4096 == 0
        &&& (b / 4096) < g.len()
        &&& g[(b / 4096) as int]
        &&& m2[b].len() == 512
    } by {
        assert(m1.contains_key(b));
    }
}

impl PageTables {
    /// Maps `pages` pages from `start` upward in `pml4` with `flags`, each
    /// to the first free frame (see `fresh_pages_spec`).  Returns the end
    /// of the run and the physical page of each page, in order.
    pub fn map_fresh_pages(
        &mut self,
        frames: &mut FrameBitmap,
        pml4: u64,
        start: u64,
        pages: u64,
        flags: u64,
    ) -> (r: (u64, Vec<u64>))
        requires
            old(self).wf(),
            old(frames).wf(),
            can_map_fresh(old(self)@, old(frames).frames(), pml4, start, pages as nat, flags),
        ensures
            final(self).wf(),
            final(frames).wf(),
            final(frames).size() == old(frames).size(),
            final(frames).addr() == old(frames).addr(),
            ({
                let (m, f, e, ok) = fresh_pages_spec(old(self)@, old(frames).frames(), pml4, start, pages as nat, flags);
                &&& final(self)@ == m
                &&& final(frames).frames() == f
                &&& r.0 == e
            }),
            r.1@.len() == pages,
            forall|i: int|
                0 <= i < pages ==> #[trigger] r.1@[i] == fresh_frame(
                    old(self)@,
                    old(frames).frames(),
                    pml4,
                    start,
                    i as nat,
                    flags,
                ),
            tables_sound(old(self)@, old(frames).frames()) && flags & ADDR_MASK == 0 ==> tables_sound(
                final(self)@,
                final(frames).frames(),
            ),
    {
        let ghost m0 = self@;
        let ghost f0 = frames.frames();
        proof {
            if tables_sound(m0, f0) && flags & ADDR_MASK == 0 {
                law_fresh_pages_keep_tables_sound(m0, f0, pml4, start, pages as nat, flags);
            }
        }
        let mut end = start;
        let mut phys: Vec<u64> = Vec::new();
        let mut i: u64 = 0;
        while i < pages
            invariant
                0 <= i <= pages,
                phys@.len() == i,
                forall|j: int| 0 <= j < i ==> #[trigger] phys@[j] == fresh_frame(m0, f0, pml4, start, j as nat, flags),
                self.wf(),
                frames.wf(),
                frames.size() == old(frames).size(),
                frames.addr() == old(frames).addr(),
                m0 == old(self)@,
                f0 == old(frames).frames(),
                can_map_fresh(m0, f0, pml4, start, pages as nat, flags),
                ({
                    let (m, f, e, ok) = fresh_pages_spec(m0, f0, pml4, start, i as nat, flags);
                    &&& self@ == m
                    &&& frames.frames() == f
                    &&& end == e
                }),
            decreases pages - i,
        {
            proof {
                lemma_fresh_ok_prefix(m0, f0, pml4, start, (i + 1) as nat, pages as nat, flags);
            }
            let page = match frames.alloc_frame() {
                Some(a) => a,
                None => {
                    proof {
                        assert(false);
                    }
                    0
                },
            };
            self.map_page(frames, pml4, end, page, flags);
            phys.push(page);
            end = end + 0x1000;
            i = i + 1;
        }
        (end, phys)
    }

    /// Whether `map_fresh_pages` can map the run (see `can_map_fresh`).
    pub fn can_map_fresh_pages(&self, frames: &FrameBitmap, pml4: u64, start: u64, pages: u64, flags: u64) -> (r: bool)
        requires
            self.wf(),
            frames.wf(),
        ensures
            r == can_map_fresh(self@, frames.frames(), pml4, start, pages as nat, flags),
    {
        let mut t = self.copy();
        let mut fr = frames.copy();
        let mut end = start;
        let ghost m0 = self@;
        let ghost f0 = frames.frames();
        let mut i: u64 = 0;
        while i < pages
            invariant
                0 <= i <= pages,
                t.wf(),
                fr.wf(),
                m0 == self@,
                f0 == frames.frames(),
                can_map_fresh(m0, f0, pml4, start, i as nat, flags),
                ({
                    let (m, f, e, ok) = fresh_pages_spec(m0, f0, pml4, start, i as nat, flags);
                    &&& t@ == m
                    &&& fr.frames() == f
                    &&& end == e
                }),
            decreases pages - i,
        {
            let ghost prev = fresh_pages_spec(m0, f0, pml4, start, i as nat, flags);
            proof {
                let ff = first_free_frame(prev.1)->0;
                let f2 = prev.1.update(ff, true);
                assert(((i + 1) as nat - 1) as nat == i as nat);
                assert(can_map_fresh(m0, f0, pml4, start, (i + 1) as nat, flags) == (prev.3 && first_free_frame(
                    prev.1,
                ) is Some && can_map(prev.0, f2, pml4, prev.2, flags) && prev.2 + 0x1000 <= u64::MAX));
            }
            if !fr.has_free_frame() {
                proof {
                    if can_map_fresh(m0, f0, pml4, start, pages as nat, flags) {
                        lemma_fresh_ok_prefix(m0, f0, pml4, start, (i + 1) as nat, pages as nat, flags);
                    }
                }
                return false;
            }
            let page = match fr.alloc_frame() {
                Some(a) => a,
                None => {
                    return false;
                },
            };
            if !t.can_map_page(&fr, pml4, end, flags) || end > u64::MAX - 0x1000 {
                proof {
                    if can_map_fresh(m0, f0, pml4, start, pages as nat, flags) {
                        lemma_fresh_ok_prefix(m0, f0, pml4, start, (i + 1) as nat, pages as nat, flags);
                    }
                }
                return false;
            }
            t.map_page(&mut fr, pml4, end, page, flags);
            end = end + 0x1000;
            i = i + 1;
        }
        true
    }

    /// Maps each (virtual, physical) pair of `maps` in turn with `flags`
    /// (see `map_all_spec`).
    pub fn map_pages(&mut self, frames: &mut FrameBitmap, pml4: u64, maps: &Vec<(u64, u64)>, flags: u64)
        requires
            old(self).wf(),
            old(frames).wf(),
            map_all_spec(old(self)@, old(frames).frames(), pml4, maps@, flags).2,
        ensures
            final(self).wf(),
            final(frames).wf(),
            final(frames).size() == old(frames).size(),
            final(frames).addr() == old(frames).addr(),
            ({
                let (m, f, ok) = map_all_spec(old(self)@, old(frames).frames(), pml4, maps@, flags);
                &&& final(self)@ == m
                &&& final(frames).frames() == f
            }),
            tables_sound(old(self)@, old(frames).frames()) && flags & ADDR_MASK == 0 ==> tables_sound(
                final(self)@,
                final(frames).frames(),
            ),
    {
        let ghost m0 = self@;
        let ghost f0 = frames.frames();
        proof {
            if tables_sound(m0, f0) && flags & ADDR_MASK == 0 {
                law_map_all_keeps_tables_sound(m0, f0, pml4, maps@, flags);
            }
        }
        let n = maps.len();
        let mut i: usize = 0;
        proof {
            assert(maps@.take(0) =~= Seq::<(u64, u64)>::empty());
        }
        while i < n
            invariant
                n == maps@.len(),
                0 <= i <= n,
                self.wf(),
                frames.wf(),
                frames.size() == old(frames).size(),
                frames.addr() == old(frames).addr(),
                m0 == old(self)@,
                f0 == old(frames).frames(),
                map_all_spec(m0, f0, pml4, maps@, flags).2,
                ({
                    let (m, f, ok) = map_all_spec(m0, f0, pml4, maps@.take(i as int), flags);
                    &&& self@ == m
                    &&& frames.frames() == f
                }),
            decreases n - i,
        {
            proof {
                lemma_map_all_ok_prefix(m0, f0, pml4, maps@, i as int + 1, flags);
                assert(maps@.take(i as int + 1).drop_last() =~= maps@.take(i as int));
                assert(maps@.take(i as int + 1).last() == maps@[i as int]);
            }
            let (v, p) = maps[i];
            self.map_page(frames, pml4, v, p, flags);
            i = i + 1;
        }
        proof {
            assert(maps@.take(n as int) =~= maps@);
        }
    }

    /// Whether `map_pages` can map every pair (see `map_all_spec`).
    pub fn can_map_pages(&self, frames: &FrameBitmap, pml4: u64, maps: &Vec<(u64, u64)>, flags: u64) -> (r: bool)
        requires
            self.wf(),
            frames.wf(),
        ensures
            r == map_all_spec(self@, frames.frames(), pml4, maps@, flags).2,
    {
        let mut t = self.copy();
        let mut fr = frames.copy();
        let ghost m0 = self@;
        let ghost f0 = frames.frames();
        let n = maps.len();
        let mut i: usize = 0;
        proof {
            assert(maps@.take(0) =~= Seq::<(u64, u64)>::empty());
        }
        while i < n
            invariant
                n == maps@.len(),
                0 <= i <= n,
                t.wf(),
                fr.wf(),
                m0 == self@,
                f0 == frames.frames(),
                ({
                    let (m, f, ok) = map_all_spec(m0, f0, pml4, maps@.take(i as int), flags);
                    &&& t@ == m
                    &&& fr.frames() == f
                    &&& ok
                }),
            decreases n - i,
        {
            proof {
                assert(maps@.take(i as int + 1).drop_last() =~= maps@.take(i as int));
                assert(maps@.take(i as int + 1).last() == maps@[i as int]);
            }
            let (v, p) = maps[i];
            if !t.can_map_page(&fr, pml4, v, flags) {
                proof {
                    if map_all_spec(m0, f0, pml4, maps@, flags).2 {
                        lemma_map_all_ok_prefix(m0, f0, pml4, maps@, i as int + 1, flags);
                    }
                }
                return false;
            }
            t.map_page(&mut fr, pml4, v, p, flags);
            i = i + 1;
        }
        proof {
            assert(maps@.take(n as int) =~= maps@);
        }
        true
    }
}


// ----- mapping runs of consecutive pages --------------------------------------

/// `count` consecutive pages from `virt`, backed by consecutive physical
/// pages from `phys`.
pub open spec fn run_spec(virt: u64, phys: u64, count: nat) -> Seq<(u64, u64)> {
    Seq::new(count, |i: int| ((virt + i * 0x1000) as u64, (phys + i * 0x1000) as u64))
}

/// Both runs of `count` pages stay below the top of the address range.
pub open spec fn run_fits(virt: u64, phys: u64, count: nat) -> bool {
    &&& virt + count * 0x1000 <= u64::MAX
    &&& phys + count * 0x1000 <= u64::MAX
}

impl PageTables {
    /// Maps the run of `count` pages from `virt` to the physical pages from
    /// `phys` in `pml4` with `flags`, in order (see `run_spec`).
    pub fn map_run(&mut self, frames: &mut FrameBitmap, pml4: u64, virt: u64, phys: u64, count: u64, flags: u64)
        requires
            old(self).wf(),
            old(frames).wf(),
            run_fits(virt, phys, count as nat),
            map_all_spec(old(self)@, old(frames).frames(), pml4, run_spec(virt, phys, count as nat), flags).2,
        ensures
            final(self).wf(),
            final(frames).wf(),
            final(frames).size() == old(frames).size(),
            final(frames).addr() == old(frames).addr(),
            ({
                let (m, f, ok) = map_all_spec(old(self)@, old(frames).frames(), pml4, run_spec(virt, phys, count as nat), flags);
                &&& final(self)@ == m
                &&& final(frames).frames() == f
            }),
            tables_sound(old(self)@, old(frames).frames()) && flags & ADDR_MASK == 0 ==> tables_sound(
                final(self)@,
                final(frames).frames(),
            ),
    {
        let ghost m0 = self@;
        let ghost f0 = frames.frames();
        let ghost run = run_spec(virt, phys, count as nat);
        proof {
            if tables_sound(m0, f0) && flags & ADDR_MASK == 0 {
                law_map_all_keeps_tables_sound(m0, f0, pml4, run, flags);
            }
        }
        let mut i: u64 = 0;
        let mut v = virt;
        let mut p = phys;
        proof {
            assert(run.take(0) =~= Seq::<(u64, u64)>::empty());
        }
        while i < count
            invariant
                0 <= i <= count,
                run == run_spec(virt, phys, count as nat),
                run_fits(virt, phys, count as nat),
                v == virt + i * 0x1000,
                p == phys + i * 0x1000,
                self.wf(),
                frames.wf(),
                frames.size() == old(frames).size(),
                frames.addr() == old(frames).addr(),
                m0 == old(self)@,
                f0 == old(frames).frames(),
                map_all_spec(m0, f0, pml4, run, flags).2,
                ({
                    let (m, f, ok) = map_all_spec(m0, f0, pml4, run.take(i as int), flags);
                    &&& self@ == m
                    &&& frames.frames() == f
                }),
            decreases count - i,
        {
            proof {
                lemma_map_all_ok_prefix(m0, f0, pml4, run, i as int + 1, flags);
                assert(run.take(i as int + 1).drop_last() =~= run.take(i as int));
                assert(run.take(i as int + 1).last() == run[i as int]);
                assert(i * 0x1000 + 0x1000 <= count * 0x1000) by (nonlinear_arith)
                    requires i < count;
            }
            self.map_page(frames, pml4, v, p, flags);
            i = i + 1;
            v = v + 0x1000;
            p = p + 0x1000;
        }
        proof {
            assert(run.take(count as int) =~= run);
        }
    }

    /// Whether `map_run` can map the run: every page finds its way down the
    /// tables, with a frame for each missing table.
    pub fn can_map_run(&self, frames: &FrameBitmap, pml4: u64, virt: u64, phys: u64, count: u64, flags: u64) -> (r: bool)
        requires
            self.wf(),
            frames.wf(),
            run_fits(virt, phys, count as nat),
        ensures
            r == map_all_spec(self@, frames.frames(), pml4, run_spec(virt, phys, count as nat), flags).2,
    {
        let mut t = self.copy();
        let mut fr = frames.copy();
        let ghost m0 = self@;
        let ghost f0 = frames.frames();
        let ghost run = run_spec(virt, phys, count as nat);
        let mut i: u64 = 0;
        proof {
            assert(run.take(0) =~= Seq::<(u64, u64)>::empty());
        }
        while i < count
            invariant
                0 <= i <= count,
                run == run_spec(virt, phys, count as nat),
                run_fits(virt, phys, count as nat),
                t.wf(),
                fr.wf(),
                m0 == self@,
                f0 == frames.frames(),
                ({
                    let (m, f, ok) = map_all_spec(m0, f0, pml4, run.take(i as int), flags);
                    &&& t@ == m
                    &&& fr.frames() == f
                    &&& ok
                }),
            decreases count - i,
        {
            proof {
                assert(run.take(i as int + 1).drop_last() =~= run.take(i as int));
                assert(run.take(i as int + 1).last() == run[i as int]);
                assert(i * 0x1000 + 0x1000 <= count * 0x1000) by (nonlinear_arith)
                    requires i < count;
            }
            let off = i * 0x1000;
            let v = virt + off;
            let p = phys + off;
            if !t.can_map_page(&fr, pml4, v, flags) {
                proof {
                    if map_all_spec(m0, f0, pml4, run, flags).2 {
                        lemma_map_all_ok_prefix(m0, f0, pml4, run, i as int + 1, flags);
                    }
                }
                return false;
            }
            t.map_page(&mut fr, pml4, v, p, flags);
            i = i + 1;
        }
        proof {
            assert(run.take(count as int) =~= run);
        }
        true
    }
}

} // verus!
