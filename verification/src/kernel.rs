//! The kernel's memory as one state: the kernel heap, the page tables, the
//! frame bitmap and the kernel's address spaces, together with the process
//! list.  The heap grows by mapping fresh frames at its end.
use vstd::prelude::*;
use crate::heap::{
    Heap, AllocStep, BlockHeader, first_fit, allocate_block, payload_addr, growth_pages,
    lemma_grown_block_first_fit, lemma_fit_inside_heap, is_first_fit, HEAP_PAGE_SIZE, BLOCK_HEADER_SIZE,
    handed_out_size, law_block_inside_heap,
};
use crate::paging::{
    PageTables, fresh_pages_spec, can_map_fresh, tables_sound, lemma_low_flags, levels_ok, tops_in_levels,
    lemma_fresh_pages_levels, levels_kept, can_map, map_page_spec, walk_known, translate, PRESENT,
    ADDR_MASK, lemma_map_levels, law_map_then_translate,
    same_page, pages_distinct, phys_fit, map_all_spec, fresh_frame,
    law_map_all_then_translate, law_fresh_pages_then_translate, law_run_pages_distinct,
    law_map_keeps_other_pages,
};
use crate::frames::FrameBitmap;
use crate::scheduler::Scheduler;

verus! {

/// First address of the kernel heap.
pub const KERNEL_HEAP_START: u64 = 0xffff_8000_0100_0000;

/// Pages the kernel heap starts with.
pub const KERNEL_HEAP_INITIAL_PAGES: usize = 16;

/// Flags of the pages behind the kernel heap: present and writable.
pub const KERNEL_HEAP_FLAGS: u64 = 0x3;

/// The memory state that the contracts follow: the heap's blocks, the heap's
/// end, the page tables and which frames are in use.
pub type MemState = (Seq<BlockHeader>, nat, Map<u64, Seq<u64>>, Seq<bool>);

/// The state after the kernel heap grows by `pages` pages: the pages at the
/// heap's end are mapped, each to the first free frame, in `pml4`, and the
/// new space becomes one free block.
pub open spec fn grow_spec(m: MemState, pml4: u64, pages: nat) -> MemState {
    let (t, f, e, ok) = fresh_pages_spec(m.2, m.3, pml4, m.1 as u64, pages, KERNEL_HEAP_FLAGS);
    (
        m.0.push(BlockHeader { size: (pages * HEAP_PAGE_SIZE - BLOCK_HEADER_SIZE) as usize, free: true }),
        m.1 + pages * (HEAP_PAGE_SIZE as nat),
        t,
        f,
    )
}

/// Whether the kernel heap can grow by `pages` pages: the end stays in the
/// address range and every page finds a frame and a way down the tables.
pub open spec fn can_grow(m: MemState, pml4: u64, pages: nat) -> bool {
    &&& pages >= 1
    &&& m.1 + pages * HEAP_PAGE_SIZE <= usize::MAX
    &&& can_map_fresh(m.2, m.3, pml4, m.1 as u64, pages, KERNEL_HEAP_FLAGS)
}

/// The state after `size` bytes are allocated from the kernel heap, and the
/// address handed out: the first block that fits serves the request; when
/// none fits the heap first grows by `growth_pages(size)` pages and the new
/// block serves it.
pub open spec fn kmalloc_spec(m: MemState, pml4: u64, size: nat) -> (MemState, usize) {
    match first_fit(m.0, size) {
        Some(i) => (
            (allocate_block(m.0, i, size), m.1, m.2, m.3),
            payload_addr(KERNEL_HEAP_START as int, m.0, i) as usize,
        ),
        None => {
            let g = grow_spec(m, pml4, growth_pages(size));
            let i = m.0.len() as int;
            (
                (allocate_block(g.0, i, size), g.1, g.2, g.3),
                payload_addr(KERNEL_HEAP_START as int, g.0, i) as usize,
            )
        },
    }
}

/// Number of payload bytes of the block that `kmalloc_spec` hands out (see
/// `handed_out_size`): those of the first block that fits, or of the block
/// added by growing.
pub open spec fn kmalloc_block_size(m: MemState, size: nat) -> nat {
    match first_fit(m.0, size) {
        Some(i) => handed_out_size(m.0[i], size),
        None => handed_out_size(
            BlockHeader {
                size: (growth_pages(size) * HEAP_PAGE_SIZE - BLOCK_HEADER_SIZE) as usize,
                free: true,
            },
            size,
        ),
    }
}

/// Whether an allocation of `size` bytes can be served: either a block
/// fits, or the heap can grow by `growth_pages(size)` pages (the new block
/// then fits).
pub open spec fn can_kmalloc(m: MemState, pml4: u64, size: nat) -> bool {
    first_fit(m.0, size) is None ==> can_grow(m, pml4, growth_pages(size))
}

/// The tables of kernel `k` form levels (see `levels_ok`) in which the
/// kernel's table, the template and the table of every process are
/// top-level tables.
pub open spec fn kernel_levels(k: Kernel, lvl: Map<u64, nat>) -> bool {
    &&& levels_ok(k.tables@, lvl)
    &&& k.tables@.contains_key(k.kernel_pml4) && lvl[k.kernel_pml4] == 4
    &&& k.tables@.contains_key(k.kernel_template) && lvl[k.kernel_template] == 4
    &&& forall|i: int|
        0 <= i < k.sched.processes@.len() ==> k.tables@.contains_key(#[trigger] k.sched.processes@[i].pml4t)
            && lvl[k.sched.processes@[i].pml4t] == 4
}

/// The levels of a kernel's tables hold in any kernel with the same
/// tables, top-level tables and processes, whatever its heap.
pub proof fn lemma_levels_carry(a: Kernel, b: Kernel)
    requires
        exists|lvl: Map<u64, nat>| kernel_levels(a, lvl),
        b.tables@ == a.tables@,
        b.kernel_pml4 == a.kernel_pml4,
        b.kernel_template == a.kernel_template,
        b.sched.processes@ == a.sched.processes@,
    ensures
        exists|lvl: Map<u64, nat>| kernel_levels(b, lvl),
{
    let lvl = choose|lvl: Map<u64, nat>| kernel_levels(a, lvl);
    assert(kernel_levels(b, lvl));
}

/// Whatever levels `a`'s tables form, `b`'s tables form levels that give
/// every table of `a` the same level.
pub open spec fn levels_grow(a: Kernel, b: Kernel) -> bool {
    forall|lvl: Map<u64, nat>|
        #[trigger] kernel_levels(a, lvl) ==> exists|lvl2: Map<u64, nat>|
            #[trigger] kernel_levels(b, lvl2) && levels_kept(a.tables@, lvl, lvl2)
}

/// A kernel with the same tables, top-level tables and processes keeps
/// the levels.
pub proof fn lemma_levels_grow_same(a: Kernel, b: Kernel)
    requires
        b.tables@ == a.tables@,
        b.kernel_pml4 == a.kernel_pml4,
        b.kernel_template == a.kernel_template,
        b.sched.processes@ == a.sched.processes@,
    ensures
        levels_grow(a, b),
{
    assert forall|lvl: Map<u64, nat>| #[trigger] kernel_levels(a, lvl) implies exists|lvl2: Map<u64, nat>|
        #[trigger] kernel_levels(b, lvl2) && levels_kept(a.tables@, lvl, lvl2) by {
        assert(kernel_levels(b, lvl) && levels_kept(a.tables@, lvl, lvl));
    }
}

/// Keeping the levels is transitive.
pub proof fn lemma_levels_grow_trans(a: Kernel, b: Kernel, c: Kernel)
    requires
        levels_grow(a, b),
        levels_grow(b, c),
        forall|t: u64| #[trigger] a.tables@.contains_key(t) ==> b.tables@.contains_key(t),
    ensures
        levels_grow(a, c),
{
    assert forall|lvl: Map<u64, nat>| #[trigger] kernel_levels(a, lvl) implies exists|lvl3: Map<u64, nat>|
        #[trigger] kernel_levels(c, lvl3) && levels_kept(a.tables@, lvl, lvl3) by {
        let lvl2 = choose|lvl2: Map<u64, nat>| #[trigger] kernel_levels(b, lvl2) && levels_kept(a.tables@, lvl, lvl2);
        let lvl3 = choose|lvl3: Map<u64, nat>| #[trigger] kernel_levels(c, lvl3) && levels_kept(b.tables@, lvl2, lvl3);
        assert(kernel_levels(c, lvl3) && levels_kept(a.tables@, lvl, lvl3));
    }
}

/// Appending a process whose top-level table is at the top keeps the
/// levels.
pub proof fn lemma_levels_add_process(a: Kernel, b: Kernel, lvl: Map<u64, nat>, pml4: u64)
    requires
        kernel_levels(a, lvl),
        b.tables@ == a.tables@,
        b.kernel_pml4 == a.kernel_pml4,
        b.kernel_template == a.kernel_template,
        b.sched.processes@.len() == a.sched.processes@.len() + 1,
        b.sched.processes@.take(a.sched.processes@.len() as int) == a.sched.processes@,
        b.sched.processes@[a.sched.processes@.len() as int].pml4t == pml4,
        a.tables@.contains_key(pml4),
        lvl[pml4] == 4,
    ensures
        kernel_levels(b, lvl),
{
    assert forall|i: int| 0 <= i < b.sched.processes@.len() implies b.tables@.contains_key(
        #[trigger] b.sched.processes@[i].pml4t,
    ) && lvl[b.sched.processes@[i].pml4t] == 4 by {
        if i < a.sched.processes@.len() {
            assert(b.sched.processes@.take(a.sched.processes@.len() as int)[i] == b.sched.processes@[i]);
        }
    }
}

/// In every state of the kernel, mapping a page in one of its address
/// spaces (the kernel's own, the template, or a process's) and then
/// walking the page's address gives back the physical page, at the
/// address's offset within its page.
pub proof fn law_kernel_map_then_translate(k: Kernel, pml4: u64, virt: u64, phys: u64, flags: u64)
    requires
        k.wf(),
        pml4 == k.kernel_pml4 || pml4 == k.kernel_template || exists|i: int|
            0 <= i < k.sched.processes@.len() && (#[trigger] k.sched.processes@[i]).pml4t == pml4,
        can_map(k.tables@, k.frames.frames(), pml4, virt, flags),
        flags & PRESENT != 0,
        flags & ADDR_MASK == 0,
        phys & ADDR_MASK == phys,
    ensures
        ({
            let (m4, f4) = map_page_spec(k.tables@, k.frames.frames(), pml4, virt, phys, flags);
            &&& walk_known(m4, pml4, virt)
            &&& translate(m4, pml4, virt) == Some((phys + (virt & 0xFFF)) as u64)
        }),
{
    let lvl = choose|lvl: Map<u64, nat>| kernel_levels(k, lvl);
    if pml4 != k.kernel_pml4 && pml4 != k.kernel_template {
        let i = choose|i: int| 0 <= i < k.sched.processes@.len() && (#[trigger] k.sched.processes@[i]).pml4t == pml4;
        assert(lvl[k.sched.processes@[i].pml4t] == 4);
    }
    lemma_map_levels(k.tables@, k.frames.frames(), pml4, virt, phys, flags, lvl);
    law_map_then_translate(k.tables@, k.frames.frames(), pml4, virt, phys, flags);
}

/// `pml4` is one of the kernel's address spaces: the kernel's own, the
/// template, or a process's.
pub open spec fn is_space(k: Kernel, pml4: u64) -> bool {
    ||| pml4 == k.kernel_pml4
    ||| pml4 == k.kernel_template
    ||| exists|i: int| 0 <= i < k.sched.processes@.len() && (#[trigger] k.sched.processes@[i]).pml4t == pml4
}

proof fn lemma_space_at_top(k: Kernel, pml4: u64) -> (lvl: Map<u64, nat>)
    requires
        k.wf(),
        is_space(k, pml4),
    ensures
        levels_ok(k.tables@, lvl),
        k.tables@.contains_key(pml4),
        lvl[pml4] == 4,
{
    let lvl = choose|lvl: Map<u64, nat>| kernel_levels(k, lvl);
    if pml4 != k.kernel_pml4 && pml4 != k.kernel_template {
        let i = choose|i: int| 0 <= i < k.sched.processes@.len() && (#[trigger] k.sched.processes@[i]).pml4t == pml4;
        assert(lvl[k.sched.processes@[i].pml4t] == 4);
    }
    lvl
}

/// In every state of the kernel, mapping a page in one of its address
/// spaces leaves the translation of every address of every other page as
/// it was.
pub proof fn law_kernel_map_keeps_other_pages(k: Kernel, pml4: u64, virt: u64, phys: u64, flags: u64, other: u64)
    requires
        k.wf(),
        is_space(k, pml4),
        can_map(k.tables@, k.frames.frames(), pml4, virt, flags),
        flags & ADDR_MASK == 0,
        !same_page(virt, other),
    ensures
        ({
            let (m4, f4) = map_page_spec(k.tables@, k.frames.frames(), pml4, virt, phys, flags);
            &&& walk_known(m4, pml4, other)
            &&& translate(m4, pml4, other) == translate(k.tables@, pml4, other)
        }),
{
    let lvl = lemma_space_at_top(k, pml4);
    law_map_keeps_other_pages(k.tables@, k.frames.frames(), pml4, virt, phys, flags, lvl, other);
}

/// In every state of the kernel, after a list of different pages is mapped
/// in one of its address spaces (a user stack, the framebuffer, the kernel
/// image), an address `w` of page `j` of the list translates to the
/// physical page of pair `j`, at the address's offset within its page.
pub proof fn law_kernel_map_all_then_translate(
    k: Kernel,
    pml4: u64,
    maps: Seq<(u64, u64)>,
    flags: u64,
    j: int,
    w: u64,
)
    requires
        k.wf(),
        is_space(k, pml4),
        map_all_spec(k.tables@, k.frames.frames(), pml4, maps, flags).2,
        flags & PRESENT != 0,
        flags & ADDR_MASK == 0,
        pages_distinct(maps),
        phys_fit(maps),
        0 <= j < maps.len(),
        same_page(maps[j].0, w),
    ensures
        walk_known(map_all_spec(k.tables@, k.frames.frames(), pml4, maps, flags).0, pml4, w),
        translate(map_all_spec(k.tables@, k.frames.frames(), pml4, maps, flags).0, pml4, w) == Some(
            (maps[j].1 + (w & 0xFFF)) as u64,
        ),
{
    let lvl = lemma_space_at_top(k, pml4);
    law_map_all_then_translate(k.tables@, k.frames.frames(), pml4, maps, flags, lvl);
    assert(maps[j] == maps[j]);
}

/// In every state of the kernel, after a run of `pages` pages from `end`
/// is mapped in one of its address spaces, each page to the first free
/// frame (the kernel heap, a process's heap, a program's segments), an
/// address `w` of page `i` of the run translates to the frame page `i`
/// took, at the address's offset within its page.  The run stays inside
/// one 256 TiB half of the address range.
pub proof fn law_kernel_fresh_pages_then_translate(
    k: Kernel,
    pml4: u64,
    end: u64,
    pages: nat,
    flags: u64,
    i: int,
    w: u64,
)
    requires
        k.wf(),
        is_space(k, pml4),
        can_map_fresh(k.tables@, k.frames.frames(), pml4, end, pages, flags),
        flags & PRESENT != 0,
        flags & ADDR_MASK == 0,
        (end as int) % 0x1_0000_0000_0000 + pages * 0x1000 <= 0x1_0000_0000_0000,
        0 <= i < pages,
        same_page((end + i * 0x1000) as u64, w),
    ensures
        walk_known(fresh_pages_spec(k.tables@, k.frames.frames(), pml4, end, pages, flags).0, pml4, w),
        translate(fresh_pages_spec(k.tables@, k.frames.frames(), pml4, end, pages, flags).0, pml4, w)
            == Some((fresh_frame(k.tables@, k.frames.frames(), pml4, end, i as nat, flags) + (w & 0xFFF)) as u64),
{
    let lvl = lemma_space_at_top(k, pml4);
    law_run_pages_distinct(end, pages);
    law_fresh_pages_then_translate(k.tables@, k.frames.frames(), pml4, end, pages, flags, lvl, i, w);
}

/// The kernel's memory and processes.
pub struct Kernel {
    /// The kernel heap.
    pub heap: Heap,
    /// All page tables, by physical address.
    pub tables: PageTables,
    /// Which physical frames are in use.
    pub frames: FrameBitmap,
    /// The kernel's own top-level table.
    pub kernel_pml4: u64,
    /// The top-level table whose entries every new address space copies.
    pub kernel_template: u64,
    /// Offset of the higher-half direct map of physical memory.
    pub hhdm_offset: u64,
    /// The process list.
    pub sched: Scheduler,
}

impl Kernel {
    /// The memory state of the kernel.
    pub open spec fn mem(&self) -> MemState {
        (self.heap.blocks(), self.heap.brk(), self.tables@, self.frames.frames())
    }

    /// The heap tiles its range from `KERNEL_HEAP_START`, the tables and the
    /// bitmap are well formed, every table lives in a frame in use, the
    /// tables form levels with every address space at the top, and the
    /// process list is consistent.
    pub open spec fn wf(&self) -> bool {
        &&& self.heap.wf()
        &&& self.heap.start() == KERNEL_HEAP_START
        &&& self.tables.wf()
        &&& self.frames.wf()
        &&& tables_sound(self.tables@, self.frames.frames())
        &&& exists|lvl: Map<u64, nat>| kernel_levels(*self, lvl)
        &&& self.sched.wf()
    }

    /// The parts other than memory are those of `other`.
    pub open spec fn same_spaces(&self, other: &Kernel) -> bool {
        &&& self.kernel_pml4 == other.kernel_pml4
        &&& self.kernel_template == other.kernel_template
        &&& self.hhdm_offset == other.hhdm_offset
        &&& self.heap.start() == other.heap.start()
        &&& self.heap.aligned_links() == other.heap.aligned_links()
        &&& self.frames.size() == other.frames.size()
        &&& self.frames.addr() == other.frames.addr()
    }

    /// A kernel with an empty heap at `KERNEL_HEAP_START` and no process.
    pub fn new(
        tables: PageTables,
        frames: FrameBitmap,
        kernel_pml4: u64,
        kernel_template: u64,
        hhdm_offset: u64,
    ) -> (k: Kernel)
        requires
            tables.wf(),
            frames.wf(),
            tables_sound(tables@, frames.frames()),
            tops_in_levels(tables@, kernel_pml4, kernel_template),
            KERNEL_HEAP_START <= usize::MAX,
        ensures
            k.wf(),
            k.heap.blocks() == Seq::<BlockHeader>::empty(),
            k.heap.brk() == KERNEL_HEAP_START,
            k.heap.aligned_links() == Seq::<(usize, usize)>::empty(),
            k.tables == tables,
            k.frames == frames,
            k.kernel_pml4 == kernel_pml4,
            k.kernel_template == kernel_template,
            k.hhdm_offset == hhdm_offset,
            k.sched.processes@.len() == 0,
            k.sched.head is None,
            k.sched.current is None,
            k.sched.next_pid == 1,
            k.sched.running_is_current(),
            k.sched.pids_unique(),
    {
        let k = Kernel {
            heap: Heap::empty(KERNEL_HEAP_START as usize),
            tables,
            frames,
            kernel_pml4,
            kernel_template,
            hhdm_offset,
            sched: Scheduler::new(),
        };
        proof {
            let lvl = choose|lvl: Map<u64, nat>|
                levels_ok(tables@, lvl) && tables@.contains_key(kernel_pml4) && lvl[kernel_pml4] == 4
                    && tables@.contains_key(kernel_template) && #[trigger] lvl[kernel_template] == 4;
            assert(kernel_levels(k, lvl));
        }
        k
    }

    /// A copy of the memory and the spaces, with an empty process list, for
    /// trying out steps.
    pub fn scratch_copy(&self) -> (c: Kernel)
        requires
            self.wf(),
        ensures
            c.wf(),
            c.same_spaces(self),
            c.mem() == self.mem(),
            c.sched.processes@.len() == 0,
            c.sched.next_pid == 1,
    {
        let c = Kernel {
            heap: self.heap.copy(),
            tables: self.tables.copy(),
            frames: self.frames.copy(),
            kernel_pml4: self.kernel_pml4,
            kernel_template: self.kernel_template,
            hhdm_offset: self.hhdm_offset,
            sched: Scheduler::new(),
        };
        proof {
            let lvl = choose|lvl: Map<u64, nat>| kernel_levels(*self, lvl);
            assert(kernel_levels(c, lvl));
        }
        c
    }

    /// Moves the end of the kernel heap up by `pages` pages, mapping each new
    /// page to the first free frame in the kernel's address space; the new
    /// space becomes one free block.  Returns the old end.
    pub fn sbrk_kernel(&mut self, pages: usize) -> (old_break: usize)
        requires
            old(self).wf(),
            can_grow(old(self).mem(), old(self).kernel_pml4, pages as nat),
        ensures
            final(self).wf(),
            final(self).same_spaces(old(self)),
            final(self).sched == old(self).sched,
            old_break == old(self).heap.brk(),
            final(self).mem() == grow_spec(old(self).mem(), old(self).kernel_pml4, pages as nat),
            final(self).heap.contents().subrange(0, old(self).heap.contents().len() as int)
                == old(self).heap.contents(),
            levels_grow(*old(self), *final(self)),
            forall|t: u64| #[trigger] old(self).tables@.contains_key(t) ==> final(self).tables@.contains_key(t),
    {
        let old_break = self.heap.heap_break();
        proof {
            lemma_low_flags(KERNEL_HEAP_FLAGS);
        }
        let _mapped = self.tables.map_fresh_pages(
            &mut self.frames,
            self.kernel_pml4,
            old_break as u64,
            pages as u64,
            KERNEL_HEAP_FLAGS,
        );
        self.heap.grow(pages);
        proof {
            assert forall|lvl: Map<u64, nat>| #[trigger] kernel_levels(*old(self), lvl) implies exists|
                lvl2: Map<u64, nat>,
            | #[trigger] kernel_levels(*self, lvl2) && levels_kept(old(self).tables@, lvl, lvl2) by {
                let lvl2 = lemma_fresh_pages_levels(
                    old(self).tables@,
                    old(self).frames.frames(),
                    old(self).kernel_pml4,
                    old_break as u64,
                    pages as nat,
                    KERNEL_HEAP_FLAGS,
                    lvl,
                );
                assert(kernel_levels(*self, lvl2) && levels_kept(old(self).tables@, lvl, lvl2));
            }
            let lvl = choose|lvl: Map<u64, nat>| kernel_levels(*old(self), lvl);
            let lvl2 = lemma_fresh_pages_levels(
                old(self).tables@,
                old(self).frames.frames(),
                old(self).kernel_pml4,
                old_break as u64,
                pages as nat,
                KERNEL_HEAP_FLAGS,
                lvl,
            );
            assert(kernel_levels(*self, lvl2));
        }
        old_break
    }

    /// Whether the kernel heap can grow by `pages` pages (see `can_grow`).
    pub fn grow_possible(&self, pages: usize) -> (r: bool)
        requires
            self.wf(),
        ensures
            r == can_grow(self.mem(), self.kernel_pml4, pages as nat),
    {
        if pages == 0 {
            return false;
        }
        let brk = self.heap.heap_break();
        let bytes = match pages.checked_mul(HEAP_PAGE_SIZE) {
            Some(b) => b,
            None => {
                return false;
            },
        };
        match brk.checked_add(bytes) {
            Some(_) => {},
            None => {
                return false;
            },
        }
        self.tables.can_map_fresh_pages(&self.frames, self.kernel_pml4, brk as u64, pages as u64, KERNEL_HEAP_FLAGS)
    }

    /// Sets up the kernel heap: it grows from empty by
    /// `KERNEL_HEAP_INITIAL_PAGES` pages into one free block.
    pub fn init(&mut self)
        requires
            old(self).wf(),
            old(self).heap.blocks().len() == 0,
            can_grow(old(self).mem(), old(self).kernel_pml4, KERNEL_HEAP_INITIAL_PAGES as nat),
        ensures
            final(self).wf(),
            final(self).same_spaces(old(self)),
            final(self).sched == old(self).sched,
            final(self).mem() == grow_spec(
                old(self).mem(),
                old(self).kernel_pml4,
                KERNEL_HEAP_INITIAL_PAGES as nat,
            ),
    {
        self.sbrk_kernel(KERNEL_HEAP_INITIAL_PAGES);
    }

    /// Allocates `size` bytes from the kernel heap (see `kmalloc_spec`):
    /// first fit, growing the heap when no block fits; one growth always
    /// makes room.
    pub fn kmalloc(&mut self, size: usize) -> (p: usize)
        requires
            old(self).wf(),
            can_kmalloc(old(self).mem(), old(self).kernel_pml4, size as nat),
        ensures
            final(self).wf(),
            final(self).same_spaces(old(self)),
            final(self).sched == old(self).sched,
            (final(self).mem(), p) == kmalloc_spec(old(self).mem(), old(self).kernel_pml4, size as nat),
            KERNEL_HEAP_START + BLOCK_HEADER_SIZE <= p,
            p + size <= final(self).heap.brk(),
            size <= kmalloc_block_size(old(self).mem(), size as nat),
            p + kmalloc_block_size(old(self).mem(), size as nat) <= final(self).heap.brk(),
            forall|o: int|
                p - KERNEL_HEAP_START <= o < p - KERNEL_HEAP_START + kmalloc_block_size(
                    old(self).mem(),
                    size as nat,
                ) ==> #[trigger] final(self).heap.contents()[o] == 0,
            forall|o: int|
                0 <= o < old(self).heap.contents().len() && !(p - KERNEL_HEAP_START <= o < p
                    - KERNEL_HEAP_START + kmalloc_block_size(old(self).mem(), size as nat))
                    ==> #[trigger] final(self).heap.contents()[o] == old(self).heap.contents()[o],
            levels_grow(*old(self), *final(self)),
            forall|t: u64| #[trigger] old(self).tables@.contains_key(t) ==> final(self).tables@.contains_key(t),
    {
        let step = self.heap.kmalloc(size);
        proof {
            lemma_levels_carry(*old(self), *self);
            lemma_levels_grow_same(*old(self), *self);
        }
        match step {
            AllocStep::Allocated(p) => {
                proof {
                    let s = old(self).heap.blocks();
                    let i = first_fit(s, size as nat)->0;
                    old(self).heap.lemma_brk_fits();
                    assert(is_first_fit(s, size as nat, i));
                    lemma_fit_inside_heap(KERNEL_HEAP_START as int, s, i, size as nat);
                    law_block_inside_heap(KERNEL_HEAP_START as int, s, i);
                    assert(p == payload_addr(KERNEL_HEAP_START as int, s, i));
                }
                p
            },
            AllocStep::Grow(pages) => {
                self.sbrk_kernel(pages);
                let ghost s = self.heap.blocks();
                proof {
                    lemma_grown_block_first_fit(old(self).heap.blocks(), size as nat);
                    self.heap.lemma_brk_fits();
                    assert(is_first_fit(s, size as nat, old(self).heap.blocks().len() as int));
                    lemma_fit_inside_heap(KERNEL_HEAP_START as int, s, old(self).heap.blocks().len() as int, size as nat);
                    law_block_inside_heap(KERNEL_HEAP_START as int, s, old(self).heap.blocks().len() as int);
                    assert(s[old(self).heap.blocks().len() as int] == BlockHeader {
                        size: (growth_pages(size as nat) * HEAP_PAGE_SIZE - BLOCK_HEADER_SIZE) as usize,
                        free: true,
                    });
                }
                let ghost c1 = self.heap.contents();
                let ghost k1 = *self;
                let step2 = self.heap.kmalloc(size);
                proof {
                    lemma_levels_carry(k1, *self);
                    lemma_levels_grow_same(k1, *self);
                    lemma_levels_grow_trans(*old(self), k1, *self);
                }
                match step2 {
                    AllocStep::Allocated(p) => {
                        proof {
                            assert forall|o: int|
                                0 <= o < old(self).heap.contents().len() implies #[trigger] c1[o]
                                == old(self).heap.contents()[o] by {
                                assert(c1.subrange(0, old(self).heap.contents().len() as int)[o] == c1[o]);
                            }
                        }
                        p
                    },
                    AllocStep::Grow(_) => {
                        proof {
                            assert(false);
                        }
                        0
                    },
                }
            },
        }
    }

    /// Whether `kmalloc(size)` returns (see `can_kmalloc`).
    pub fn kmalloc_possible(&self, size: usize) -> (r: bool)
        requires
            self.wf(),
        ensures
            r == can_kmalloc(self.mem(), self.kernel_pml4, size as nat),
    {
        let mut h = self.heap.copy();
        match h.kmalloc(size) {
            AllocStep::Allocated(_) => true,
            AllocStep::Grow(pages) => {
                let brk = self.heap.heap_break();
                let bytes = match pages.checked_mul(HEAP_PAGE_SIZE) {
                    Some(b) => b,
                    None => {
                        return false;
                    },
                };
                match brk.checked_add(bytes) {
                    Some(_) => {},
                    None => {
                        return false;
                    },
                }
                self.tables.can_map_fresh_pages(
                    &self.frames,
                    self.kernel_pml4,
                    brk as u64,
                    pages as u64,
                    KERNEL_HEAP_FLAGS,
                )
            },
        }
    }
}

} // verus!
