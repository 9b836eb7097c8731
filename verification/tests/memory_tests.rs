use rustyos::elf::{self, PageFill, PageLoad};
use rustyos::frames::{self, FrameBitmap, MemmapEntry};
use rustyos::kbox::KBox;
use rustyos::kernel::{Kernel, KERNEL_HEAP_START};
use rustyos::paging::PageTables;
use rustyos::process::{self, Process, ProcessState, USER_HEAP_START, USER_STACK_BASE};
use rustyos::framebuffer::FramebufferDesc;
use rustyos::syscall;
use rustyos::trap::TrapFrame;
use rustyos::vmm;

const HHDM: u64 = 0xffff_8000_0000_0000;

/// A kernel with 64 free frames, its top-level table in frame 0 and an
/// empty template in frame 1.
fn kernel() -> Kernel {
    let mut tables = PageTables::new();
    let mut fr = FrameBitmap::empty(8, 0);
    let pml4 = fr.alloc_frame().unwrap();
    let template = fr.alloc_frame().unwrap();
    tables.add_zero_table(pml4);
    tables.add_zero_table(template);
    Kernel::new(tables, fr, pml4, template, HHDM)
}

fn used_frames(fr: &FrameBitmap) -> Vec<u64> {
    (0..fr.bitmap_size() * 8).filter(|f| fr.get_frame(*f)).collect()
}

// ----- frames ---------------------------------------------------------------

#[test]
fn frame_address_conversions() {
    assert_eq!(frames::physical_addr_to_frame(0x5123), 5);
    assert_eq!(frames::frame_to_physical_addr(5), 0x5000);
    assert_eq!(frames::frame_to_bitmap_index(13, 2), (1, 5));
}

#[test]
fn alloc_takes_first_free_and_free_gives_it_back() {
    let mut fr = FrameBitmap::empty(2, 0);
    assert_eq!(fr.alloc_frame(), Some(0));
    assert_eq!(fr.alloc_frame(), Some(0x1000));
    fr.free_frame(0);
    assert!(!fr.get_frame(0));
    assert_eq!(fr.alloc_frame(), Some(0));
    assert_eq!(fr.alloc_frame(), Some(0x2000));
}

#[test]
fn alloc_fails_when_all_used() {
    let mut fr = FrameBitmap::empty(1, 0);
    for _ in 0..8 {
        assert!(fr.has_free_frame());
        fr.alloc_frame().unwrap();
    }
    assert!(!fr.has_free_frame());
    assert_eq!(fr.alloc_frame(), None);
}

#[test]
fn set_frame_marks_used_and_free() {
    let mut fr = FrameBitmap::empty(2, 0x9000);
    fr.set_frame_used(9);
    assert!(fr.get_frame(9));
    fr.set_frame(10, true);
    fr.set_frame_free(9);
    assert_eq!(used_frames(&fr), vec![10]);
    assert_eq!(fr.bitmap_addr(), 0x9000);
    assert_eq!(fr.copy().bitmap_size(), 2);
}

#[test]
fn bitmap_from_memory_map() {
    let entries = vec![
        MemmapEntry { base: 0x1000, length: 0x7000, type_: 0 },
        MemmapEntry { base: 0x8000, length: 0x1000, type_: 2 },
    ];
    let fr = FrameBitmap::init(&entries);
    assert_eq!(fr.bitmap_size(), 1);
    assert_eq!(fr.bitmap_addr(), 0x1000);
    // frame 0 lies in no usable region, frame 1 holds the bitmap
    assert_eq!(used_frames(&fr), vec![0, 1]);
}

// ----- page tables ------------------------------------------------------------

#[test]
fn map_then_translate() {
    let mut tables = PageTables::new();
    let mut fr = FrameBitmap::empty(4, 0);
    let pml4 = fr.alloc_frame().unwrap();
    tables.add_zero_table(pml4);
    assert!(tables.can_map_page(&fr, pml4, 0x40_0123, 3));
    tables.map_page(&mut fr, pml4, 0x40_0123, 0x5000, 3);
    assert_eq!(tables.virt_to_phys(pml4, 0x40_0123), Some(0x5123));
    assert_eq!(tables.virt_to_phys(pml4, 0x7f00_0000_0000), None);
    // three tables were made on the way down
    assert_eq!(used_frames(&fr), vec![0, 1, 2, 3]);
    assert!(tables.has_table(0x3000));
    assert_eq!(tables.read(0x3000, 0), 0x5003);
}

#[test]
fn cannot_map_without_frames_for_tables() {
    let mut tables = PageTables::new();
    let mut fr = FrameBitmap::empty(1, 0);
    let pml4 = fr.alloc_frame().unwrap();
    tables.add_zero_table(pml4);
    for _ in 0..6 {
        fr.alloc_frame().unwrap();
    }
    assert!(!tables.can_map_page(&fr, pml4, 0x40_0000, 3));
}

#[test]
fn new_address_space_copies_template() {
    let mut tables = PageTables::new();
    let mut fr = FrameBitmap::empty(2, 0);
    let template = fr.alloc_frame().unwrap();
    tables.add_zero_table(template);
    tables.write(template, 256, 0xABC003);
    let pml4 = tables.get_new_pml4t(&mut fr, template);
    assert_eq!(pml4, 0x1000);
    assert_eq!(tables.read(pml4, 256), 0xABC003);
    assert_eq!(tables.read(pml4, 0), 0);
}

#[test]
fn fresh_pages_get_first_free_frames() {
    let mut tables = PageTables::new();
    let mut fr = FrameBitmap::empty(2, 0);
    let pml4 = fr.alloc_frame().unwrap();
    tables.add_zero_table(pml4);
    assert!(tables.can_map_fresh_pages(&fr, pml4, 0x1000_0000, 2, 7));
    let (end, phys) = tables.map_fresh_pages(&mut fr, pml4, 0x1000_0000, 2, 7);
    assert_eq!(end, 0x1000_2000);
    // page 0 takes frame 1, then its tables take frames 2 to 4
    assert_eq!(phys, vec![0x1000, 0x5000]);
    assert_eq!(tables.virt_to_phys(pml4, 0x1000_1008), Some(0x5008));
}

#[test]
fn map_pages_and_runs() {
    let mut tables = PageTables::new();
    let mut fr = FrameBitmap::empty(2, 0);
    let pml4 = fr.alloc_frame().unwrap();
    tables.add_zero_table(pml4);
    let maps = vec![(0x2000_0000u64, 0xA000u64), (0x2000_1000, 0xB000)];
    assert!(tables.can_map_pages(&fr, pml4, &maps, 3));
    tables.map_pages(&mut fr, pml4, &maps, 3);
    assert_eq!(tables.virt_to_phys(pml4, 0x2000_1004), Some(0xB004));
    assert!(tables.can_map_run(&fr, pml4, 0x3000_0000, 0xC000, 3, 3));
    tables.map_run(&mut fr, pml4, 0x3000_0000, 0xC000, 3, 3);
    assert_eq!(tables.virt_to_phys(pml4, 0x3000_2000), Some(0xE000));
    // the pages mapped before keep their translations
    assert_eq!(tables.virt_to_phys(pml4, 0x2000_0000), Some(0xA000));
    assert_eq!(tables.virt_to_phys(pml4, 0x2000_1FFF), Some(0xBFFF));
}

#[test]
fn copy_kernel_mapping_copies_every_entry() {
    let mut tables = PageTables::new();
    tables.add_zero_table(0x1000);
    tables.add_zero_table(0x2000);
    tables.write(0x1000, 511, 0x3003);
    tables.copy_kernel_mapping(0x1000, 0x2000);
    assert_eq!(tables.read(0x2000, 511), 0x3003);
    let c = tables.copy();
    assert_eq!(c.read(0x2000, 511), 0x3003);
}

// ----- address space setup -------------------------------------------------------

#[test]
fn vmm_init_maps_kernel_and_direct_map() {
    let mut tables = PageTables::new();
    let mut fr = FrameBitmap::empty(8, 0);
    let entries = vec![MemmapEntry { base: 0, length: 0x3000, type_: 0 }];
    let (pb, vb, kend) = (0x20_0000u64, 0xffff_ffff_8000_0000u64, 0xffff_ffff_8000_2000u64);
    assert!(vmm::init_possible(&tables, &fr, pb, vb, kend, &entries, HHDM));
    let (kpml4, template) = vmm::init(&mut tables, &mut fr, pb, vb, kend, &entries, HHDM);
    assert_eq!((kpml4, template), (0, 0x1000));
    assert_eq!(tables.virt_to_phys(kpml4, 0xffff_ffff_8000_1234), Some(0x20_1234));
    assert_eq!(tables.virt_to_phys(kpml4, HHDM + 0x2010), Some(0x2010));
    // the higher-half table is shared with the template
    assert_eq!(tables.virt_to_phys(template, HHDM + 0x1000), Some(0x1000));
    assert_eq!(used_frames(&fr), vec![0, 1, 2, 3, 4, 5, 6, 7]);

    let user = tables.get_new_pml4t(&mut fr, template);
    let (ts, te) = (0xffff_ffff_8000_1000u64, 0xffff_ffff_8000_1800u64);
    assert!(vmm::map_user_process_possible(&tables, &fr, pb, vb, ts, te, user));
    vmm::map_user_process(&mut tables, &mut fr, pb, vb, ts, te, user);
    assert_eq!(tables.virt_to_phys(user, ts), Some(0x20_1000));
}

#[test]
fn kernel_mapping_template_alone() {
    let mut tables = PageTables::new();
    let mut fr = FrameBitmap::empty(8, 0);
    assert!(vmm::init_kernel_mapping_possible(&tables, &fr, 0x10_0000, 0xffff_ffff_8000_0000, 0xffff_ffff_8000_0800));
    let copy = vmm::init_kernel_mapping(&mut tables, &mut fr, 0x10_0000, 0xffff_ffff_8000_0000, 0xffff_ffff_8000_0800);
    assert_eq!(copy, 0);
    assert_eq!(tables.virt_to_phys(copy, 0xffff_ffff_8000_0010), Some(0x10_0010));
    assert!(!vmm::init_kernel_mapping_possible(&tables, &FrameBitmap::empty(0, 0), 0, 0, 0));
}

#[test]
fn reversed_user_text_is_refused() {
    let tables = PageTables::new();
    let fr = FrameBitmap::empty(1, 0);
    assert!(!vmm::map_user_process_possible(&tables, &fr, 0, 0, 0x2000, 0x1000, 0));
}

// ----- kernel heap ----------------------------------------------------------------

#[test]
fn kernel_heap_init_maps_sixteen_pages() {
    let mut k = kernel();
    k.init();
    assert_eq!(k.heap.heap_break(), (KERNEL_HEAP_START + 16 * 0x1000) as usize);
    assert_eq!(k.heap.block_list().len(), 1);
    assert_eq!(k.heap.block_list()[0].size, 16 * 4096 - 32);
    // the first page takes frame 2, then its three tables, then one frame per page
    assert_eq!(k.tables.virt_to_phys(k.kernel_pml4, KERNEL_HEAP_START), Some(0x2000));
    assert_eq!(k.tables.virt_to_phys(k.kernel_pml4, KERNEL_HEAP_START + 0x1000), Some(0x6000));
    assert_eq!(used_frames(&k.frames).len(), 21);
}

#[test]
fn kernel_kmalloc_first_fit_then_grows() {
    let mut k = kernel();
    k.init();
    assert!(k.kmalloc_possible(100));
    assert_eq!(k.kmalloc(100), KERNEL_HEAP_START as usize + 32);
    assert!(k.kmalloc_possible(70_000));
    assert_eq!(k.kmalloc(70_000), KERNEL_HEAP_START as usize + 0x1_0020);
    assert_eq!(k.heap.heap_break(), (KERNEL_HEAP_START + 34 * 0x1000) as usize);
    assert_eq!(used_frames(&k.frames).len(), 39);
    assert!(k.tables.virt_to_phys(k.kernel_pml4, KERNEL_HEAP_START + 33 * 0x1000).is_some());
}

#[test]
fn kernel_kmalloc_refused_when_frames_run_out() {
    let mut k = kernel();
    k.init();
    // 43 frames are left: growing by 50 pages cannot be mapped
    assert!(!k.kmalloc_possible(50 * 4096 - 100));
    // a request that leaves no room for the header in its last page grows
    // by one page more, and is served
    assert!(k.kmalloc_possible(4096 * 20 + 4090));
    assert_eq!(k.kmalloc(4096 * 20 + 4090), KERNEL_HEAP_START as usize + 0x1_0020);
    assert_eq!(k.heap.heap_break(), (KERNEL_HEAP_START + 38 * 0x1000) as usize);
}

#[test]
fn sbrk_kernel_returns_old_break() {
    let mut k = kernel();
    let old = k.sbrk_kernel(2);
    assert_eq!(old, KERNEL_HEAP_START as usize);
    assert_eq!(k.heap.heap_break(), (KERNEL_HEAP_START + 0x2000) as usize);
    let c = k.scratch_copy();
    assert_eq!(c.heap.heap_break(), k.heap.heap_break());
    assert_eq!(c.sched.processes.len(), 0);
}

// ----- processes ------------------------------------------------------------------

#[test]
fn create_kernel_process_allocates_record_and_stack() {
    let mut k = kernel();
    k.init();
    let rec = std::mem::size_of::<Process>() + 8;
    assert!(process::create_process_possible(&k, 0x4000));
    let idx = process::create_process(&mut k, 0x1234, "idle", 0x4000);
    assert_eq!(idx, 0);
    let p = &k.sched.processes[0];
    let base = KERNEL_HEAP_START + 32 + rec as u64 + 32;
    assert_eq!(p.pid, 1);
    assert_eq!(&p.name[..5], b"idle\0");
    assert!(p.state.eq(&ProcessState::Ready));
    assert_eq!(p.process_stack_base, base);
    assert_eq!(p.process_stack_top, (base + 0x4000) & !0xF);
    assert_eq!(p.trap_frame.rip, 0x1234);
    assert_eq!(p.trap_frame.rsp, (base + 0x4000) & !0xF);
    assert_eq!((p.trap_frame.cs, p.trap_frame.ss, p.trap_frame.rflags), (0x08, 0x10, 0x202));
    assert_eq!(p.pml4t, k.kernel_pml4);
    assert_eq!(p.kernel_stack_page, 0);
    assert_eq!(k.sched.next_pid, 2);
}

#[test]
fn create_user_process_maps_its_stack() {
    let mut k = kernel();
    k.init();
    let rec = std::mem::size_of::<Process>() as u64 + 8;
    assert!(process::create_user_process_possible(&k, 0x4000));
    let idx = process::create_user_process(&mut k, 0x40_0000, "user", 0x4000);
    let p = k.sched.processes[idx];
    let base = KERNEL_HEAP_START + rec + 64;
    let kstack = KERNEL_HEAP_START + rec + 0x4000 + 96;
    let kpage = KERNEL_HEAP_START + rec + 2 * 0x4000 + 128;
    assert_eq!(p.pid, 1);
    assert_eq!(p.pml4t, 0x15000);
    assert_eq!(p.process_stack_base, base);
    assert_eq!(p.kernel_stack_page, kpage);
    assert_eq!(p.trap_frame.rsp, 0x7fff_0000_4000);
    assert_eq!(p.trap_frame.rip, 0x40_0000);
    assert_eq!((p.trap_frame.cs, p.trap_frame.ss, p.trap_frame.rflags), (0x2B, 0x23, 0x202));
    assert_eq!((p.heap_start, p.heap_end), (USER_HEAP_START, USER_HEAP_START));
    let phys0 = kstack - HHDM;
    assert_eq!(k.tables.virt_to_phys(p.pml4t, USER_STACK_BASE), Some(phys0 & !0xFFF));
    assert_eq!(k.tables.virt_to_phys(p.pml4t, USER_STACK_BASE + 0x3000), Some((phys0 + 0x3000) & !0xFFF));
}

#[test]
fn user_stack_mappings_wrap_below_direct_map() {
    let maps = process::user_stack_mappings(0x5000, 0x8000, 0x2001);
    assert_eq!(maps, vec![
        (USER_STACK_BASE, 0u64.wrapping_sub(0x3000)),
        (USER_STACK_BASE + 0x1000, 0u64.wrapping_sub(0x2000)),
        (USER_STACK_BASE + 0x2000, 0u64.wrapping_sub(0x1000)),
    ]);
}

fn elf_file() -> Vec<u8> {
    let mut d = vec![0x7F, b'E', b'L', b'F', 2, 1, 1, 0, 0, 0, 0, 0, 0, 0, 0, 0];
    d.extend_from_slice(&2u16.to_le_bytes());
    d.extend_from_slice(&0x3Eu16.to_le_bytes());
    d.extend_from_slice(&1u32.to_le_bytes());
    d.extend_from_slice(&0x40_0010u64.to_le_bytes());
    d.extend_from_slice(&64u64.to_le_bytes());
    d.extend_from_slice(&0u64.to_le_bytes());
    d.extend_from_slice(&0u32.to_le_bytes());
    d.extend_from_slice(&64u16.to_le_bytes());
    d.extend_from_slice(&56u16.to_le_bytes());
    d.extend_from_slice(&1u16.to_le_bytes());
    d.extend_from_slice(&[0, 0, 0, 0, 0, 0]);
    assert_eq!(d.len(), 64);
    d.extend_from_slice(&1u32.to_le_bytes());
    d.extend_from_slice(&5u32.to_le_bytes());
    d.extend_from_slice(&120u64.to_le_bytes());
    d.extend_from_slice(&0x40_0010u64.to_le_bytes());
    d.extend_from_slice(&0u64.to_le_bytes());
    d.extend_from_slice(&8u64.to_le_bytes());
    d.extend_from_slice(&0x1000u64.to_le_bytes());
    d.extend_from_slice(&0x1000u64.to_le_bytes());
    assert_eq!(d.len(), 120);
    d.extend_from_slice(&[1, 2, 3, 4, 5, 6, 7, 8]);
    d
}

#[test]
fn elf_header_and_program_headers_are_read() {
    let d = elf_file();
    let h = elf::check_elf(&d).unwrap();
    assert_eq!(h.e_entry, 0x40_0010);
    assert_eq!((h.e_phoff, h.e_phnum, h.e_phentsize), (64, 1, 56));
    let ps = elf::program_headers(&d, &h);
    assert_eq!(ps.len(), 1);
    assert_eq!((ps[0].p_type, ps[0].p_offset, ps[0].p_vaddr), (1, 120, 0x40_0010));
    assert_eq!((ps[0].p_filesz, ps[0].p_memsz), (8, 0x1000));
    let pages = elf::segment_pages(&ps[0]);
    assert_eq!(pages, vec![
        PageLoad { virt: 0x40_0000, dest_off: 0x10, src_off: 0, copy_size: 8 },
        PageLoad { virt: 0x40_1000, dest_off: 0, src_off: 0, copy_size: 0 },
    ]);
}

#[test]
fn elf_with_bad_magic_is_refused() {
    let mut d = elf_file();
    d[1] = b'X';
    assert_eq!(elf::check_elf(&d).unwrap_err(), "Invalid ELF magic");
    let mut k = kernel();
    k.init();
    assert!(elf::create_process_from_elf_possible(&k, &d));
    let brk = k.heap.heap_break();
    match elf::create_process_from_elf(&mut k, &d, "bad") {
        Ok(_) => panic!("accepted a file without the magic number"),
        Err(e) => assert_eq!(e, "Invalid ELF magic"),
    }
    assert_eq!(k.sched.processes.len(), 0);
    assert_eq!(k.heap.heap_break(), brk);
}

#[test]
fn elf_too_short_or_headers_outside_is_refused() {
    let mut k = kernel();
    k.init();
    assert!(!elf::create_process_from_elf_possible(&k, &[0x7F, b'E', b'L', b'F']));
    let d = elf_file();
    assert!(!elf::create_process_from_elf_possible(&k, &d[..100]));
}

#[test]
fn create_process_from_elf_loads_segment() {
    let d = elf_file();
    let mut k = kernel();
    k.init();
    assert!(elf::create_process_from_elf_possible(&k, &d));
    let (idx, fills) = elf::create_process_from_elf(&mut k, &d, "user_process").unwrap();
    let p = k.sched.processes[idx];
    assert_eq!(p.trap_frame.rip, 0x40_0010);
    assert_eq!(&p.name[..12], b"user_process");
    assert_eq!(fills.len(), 2);
    assert_eq!(fills[0].load, PageLoad { virt: 0x40_0000, dest_off: 0x10, src_off: 0, copy_size: 8 });
    assert_eq!(fills[1].load, PageLoad { virt: 0x40_1000, dest_off: 0, src_off: 0, copy_size: 0 });
    assert_eq!(fills[0].segment_offset, 120);
    let f0: PageFill = fills[0];
    assert_eq!(k.tables.virt_to_phys(p.pml4t, 0x40_0000), Some(f0.phys));
    assert_eq!(k.tables.virt_to_phys(p.pml4t, 0x40_1ABC), Some(fills[1].phys + 0xABC));
    assert_ne!(fills[0].phys, fills[1].phys);
}

#[test]
fn kbox_holds_value_in_kernel_heap() {
    let mut k = kernel();
    k.init();
    let mut b = KBox::new(&mut k, 42u64).unwrap();
    assert_eq!(*b.get(), 42);
    assert_eq!(b.address(), KERNEL_HEAP_START as usize + 32);
    *b.get_mut() = 7;
    assert_eq!(*b.get(), 7);
    let sizes: Vec<(usize, bool)> = k.heap.block_list().iter().map(|h| (h.size, h.free)).collect();
    assert_eq!(sizes, vec![(8, false), (65464, true)]);
    let v = b.free(&mut k.heap);
    assert_eq!(v, 7);
    let sizes: Vec<(usize, bool)> = k.heap.block_list().iter().map(|h| (h.size, h.free)).collect();
    assert_eq!(sizes, vec![(65504, true)]);
}

#[test]
fn kbox_grows_the_kernel_heap() {
    let mut k = kernel();
    let b = KBox::new(&mut k, [0u8; 5000]).unwrap();
    // the empty heap grew by two pages for the box
    assert_eq!(b.address(), KERNEL_HEAP_START as usize + 32);
    assert_eq!(k.heap.heap_break(), (KERNEL_HEAP_START + 0x2000) as usize);
}

#[test]
fn kernel_kmalloc_hands_out_zeroed_bytes() {
    let mut k = kernel();
    k.init();
    let start = KERNEL_HEAP_START as usize;
    for a in start + 32..start + 132 {
        k.heap.write_byte(a, 0xEE);
    }
    let p = k.kmalloc(100);
    assert_eq!(p, start + 32);
    assert!(k.heap.bytes()[32..132].iter().all(|&b| b == 0));
    assert_eq!(k.heap.bytes().len(), 16 * 0x1000);
}

#[test]
fn elf_page_contents_copy_then_zero() {
    let d = elf_file();
    let mut k = kernel();
    k.init();
    let (_, fills) = elf::create_process_from_elf(&mut k, &d, "user_process").unwrap();
    let page = elf::page_contents(&d, &fills[0]);
    assert_eq!(page.len(), 0x1000);
    assert_eq!(&page[0x10..0x18], &[1, 2, 3, 4, 5, 6, 7, 8]);
    assert!(page[..0x10].iter().all(|&b| b == 0));
    assert!(page[0x18..].iter().all(|&b| b == 0));
    let page1 = elf::page_contents(&d, &fills[1]);
    assert!(page1.iter().all(|&b| b == 0));
}

/// A kernel with one user process, made current.
fn kernel_with_current_user() -> (Kernel, usize) {
    let mut k = kernel();
    k.init();
    let idx = process::create_user_process(&mut k, 0x40_0000, "user", 0x4000);
    k.sched.current = Some(idx);
    (k, idx)
}

#[test]
fn finish_sbrk_answers_new_heap_end() {
    let (mut k, idx) = kernel_with_current_user();
    let mut tf = TrapFrame::new();
    tf.rax = 5;
    tf.rdi = 2;
    assert!(syscall::sbrk_possible(&k.sched, &k.tables, &k.frames, 2));
    syscall::finish_sbrk(&mut k.sched, &mut k.tables, &mut k.frames, &mut tf, 2);
    assert_eq!(tf.rax, USER_HEAP_START + 0x2000);
    assert_eq!(tf.rdi, 2);
    let p = k.sched.processes[idx];
    assert_eq!((p.heap_start, p.heap_end), (USER_HEAP_START, USER_HEAP_START + 0x2000));
    let a = k.tables.virt_to_phys(p.pml4t, USER_HEAP_START).unwrap();
    let b = k.tables.virt_to_phys(p.pml4t, USER_HEAP_START + 0x1000).unwrap();
    assert_ne!(a, b);
    assert!(k.frames.get_frame(a / 0x1000) && k.frames.get_frame(b / 0x1000));
}

#[test]
fn finish_get_framebuffer_maps_and_describes() {
    let (mut k, idx) = kernel_with_current_user();
    let fb = FramebufferDesc { address: HHDM + 0x30_0000, width: 16, height: 2, pitch: 0x1000, bpp: 32 };
    let fbs = vec![fb];
    assert!(syscall::get_framebuffer_possible(&k.sched, &k.tables, &k.frames, &fbs, HHDM));
    let mut tf = TrapFrame::new();
    tf.rax = 6;
    let info = syscall::finish_get_framebuffer(&k.sched, &mut k.tables, &mut k.frames, &mut tf, &fbs, HHDM).unwrap();
    assert_eq!(tf.rax, 0);
    assert_eq!((info.addr, info.width, info.height, info.pitch, info.bpp), (0x7000_0000_0000, 16, 2, 0x1000, 32));
    let pml4 = k.sched.processes[idx].pml4t;
    assert_eq!(k.tables.virt_to_phys(pml4, 0x7000_0000_0000), Some(0x30_0000));
    assert_eq!(k.tables.virt_to_phys(pml4, 0x7000_0000_1010), Some(0x30_1010));
    assert_eq!(k.tables.virt_to_phys(pml4, 0x7000_0000_2000), None);
}

#[test]
fn finish_get_framebuffer_without_framebuffer_answers_two() {
    let (mut k, _) = kernel_with_current_user();
    let mut tf = TrapFrame::new();
    tf.rax = 6;
    tf.rdi = 0x1234;
    let none: Vec<FramebufferDesc> = Vec::new();
    assert!(syscall::get_framebuffer_possible(&k.sched, &k.tables, &k.frames, &none, HHDM));
    assert!(syscall::finish_get_framebuffer(&k.sched, &mut k.tables, &mut k.frames, &mut tf, &none, HHDM).is_none());
    assert_eq!(tf.rax, 2);
    assert_eq!(tf.rdi, 0x1234);
}

#[test]
fn kernel_tables_live_in_used_frames_and_map_translates() {
    let (mut k, idx) = kernel_with_current_user();
    for a in k.tables.table_addresses() {
        assert_eq!(a % 0x1000, 0);
        assert!(k.frames.get_frame(a / 0x1000));
    }
    let pml4 = k.sched.processes[idx].pml4t;
    assert!(k.tables.can_map_page(&k.frames, pml4, 0x5555_0000_0123, 0x3));
    k.tables.map_page(&mut k.frames, pml4, 0x5555_0000_0123, 0x77_7000, 0x3);
    assert_eq!(k.tables.virt_to_phys(pml4, 0x5555_0000_0123), Some(0x77_7123));
    for a in k.tables.table_addresses() {
        assert!(k.frames.get_frame(a / 0x1000));
    }
}

#[test]
fn mapping_a_page_keeps_every_other_page() {
    let mut tables = PageTables::new();
    let mut fr = FrameBitmap::empty(4, 0);
    let pml4 = fr.alloc_frame().unwrap();
    tables.add_zero_table(pml4);
    tables.map_page(&mut fr, pml4, 0x40_0000, 0x9000, 3);
    // a neighbour in the same last-level table, a page far away, and an
    // unmapped page in a fresh branch
    tables.map_page(&mut fr, pml4, 0x40_1000, 0xA000, 3);
    tables.map_page(&mut fr, pml4, 0x7f00_0000_0000, 0xB000, 3);
    assert_eq!(tables.virt_to_phys(pml4, 0x40_0FFF), Some(0x9FFF));
    assert_eq!(tables.virt_to_phys(pml4, 0x40_1000), Some(0xA000));
    assert_eq!(tables.virt_to_phys(pml4, 0x7f00_0000_0ABC), Some(0xBABC));
    assert_eq!(tables.virt_to_phys(pml4, 0x40_2000), None);
    assert_eq!(tables.virt_to_phys(pml4, 0x7f00_0000_1000), None);
}
