use rustyos::heap::{AllocStep, BlockHeader, Heap};
use rustyos::libc;

fn blocks(h: &Heap) -> Vec<(usize, bool)> {
    h.block_list().iter().map(|b| (b.size, b.free)).collect()
}

#[test]
fn new_heap_is_one_free_block() {
    let h = Heap::new(0x1000, 1);
    assert_eq!(blocks(&h), vec![(4064, true)]);
    assert_eq!(h.heap_break(), 0x2000);
}

#[test]
fn kmalloc_splits_first_fit() {
    let mut h = Heap::new(0x1000, 1);
    assert_eq!(h.kmalloc(100), AllocStep::Allocated(0x1020));
    assert_eq!(blocks(&h), vec![(100, false), (3932, true)]);
    assert_eq!(h.kmalloc(200), AllocStep::Allocated(0x1000 + 132 + 32));
    assert_eq!(blocks(&h), vec![(100, false), (200, false), (3700, true)]);
}

#[test]
fn kmalloc_without_room_to_split_takes_whole_block() {
    let mut h = Heap::new(0, 1);
    // 4064 - 4040 = 24 bytes left: too few for a header and 16 bytes.
    assert_eq!(h.kmalloc(4040), AllocStep::Allocated(32));
    assert_eq!(blocks(&h), vec![(4064, false)]);
}

#[test]
fn kmalloc_split_threshold_is_header_plus_sixteen() {
    let mut h = Heap::new(0, 1);
    // exactly size + 32 + 16 bytes: split
    assert_eq!(h.kmalloc(4064 - 48), AllocStep::Allocated(32));
    assert_eq!(blocks(&h), vec![(4016, false), (16, true)]);
}

#[test]
fn kfree_coalesces_both_sides_and_undoes_malloc() {
    let mut h = Heap::new(0x1000, 1);
    let a = match h.kmalloc(100) {
        AllocStep::Allocated(p) => p,
        AllocStep::Grow(_) => panic!("no block"),
    };
    let b = match h.kmalloc(200) {
        AllocStep::Allocated(p) => p,
        AllocStep::Grow(_) => panic!("no block"),
    };
    h.kfree(a);
    assert_eq!(blocks(&h), vec![(100, true), (200, false), (3700, true)]);
    h.kfree(b);
    assert_eq!(blocks(&h), vec![(4064, true)]);
}

#[test]
fn kfree_null_is_ignored() {
    let mut h = Heap::new(0x1000, 1);
    h.kfree(0);
    assert_eq!(blocks(&h), vec![(4064, true)]);
}

#[test]
fn kmalloc_asks_to_grow_then_fits() {
    let mut h = Heap::new(0x1000, 1);
    assert_eq!(h.kmalloc(5000), AllocStep::Grow(2));
    assert_eq!(blocks(&h), vec![(4064, true)]);
    h.grow(2);
    assert_eq!(h.heap_break(), 0x4000);
    assert_eq!(blocks(&h), vec![(4064, true), (8160, true)]);
    assert_eq!(h.kmalloc(5000), AllocStep::Allocated(0x2020));
    assert_eq!(blocks(&h), vec![(4064, true), (5000, false), (3128, true)]);
}

#[test]
fn one_growth_holds_header_and_request() {
    // 4090 % 4096 + 32 > 4096: two pages are asked for, and then it fits.
    let mut h = Heap::new(0, 1);
    h.kmalloc(4000);
    assert_eq!(h.kmalloc(4090), AllocStep::Grow(2));
    h.grow(2);
    assert_eq!(h.kmalloc(4090), AllocStep::Allocated(4096 + 32));
    assert_eq!(h.kmalloc(5000 + 4096), AllocStep::Grow(3));
    // a page holds a header and 4064 bytes; one byte more takes two pages
    assert_eq!(h.kmalloc(4064), AllocStep::Grow(1));
    assert_eq!(h.kmalloc(4065), AllocStep::Grow(2));
    assert_eq!(h.kmalloc(4064 + 4096), AllocStep::Grow(2));
}

#[test]
fn aligned_allocation_and_free() {
    let mut h = Heap::new(0x1000, 1);
    assert_eq!(h.kmalloc_alligned(64, 64), AllocStep::Allocated(0x1040));
    assert_eq!(blocks(&h), vec![(136, false), (3896, true)]);
    h.kfree_alligned(0x1040);
    assert_eq!(blocks(&h), vec![(4064, true)]);
}

#[test]
fn debug_heap_lists_blocks() {
    let mut h = Heap::new(0x1000, 1);
    h.kmalloc(100);
    let text = String::from_utf8(h.debug_heap()).unwrap();
    assert_eq!(
        text,
        "Heap blocks:\n  Block at 0x1000: size 100, free false\n  Block at 0x1084: size 3932, free true\n"
    );
}

#[test]
fn empty_heap_and_copy() {
    let h = Heap::empty(0x5000);
    assert_eq!(h.heap_break(), 0x5000);
    assert!(h.block_list().is_empty());
    let g = Heap::new(0x1000, 2).copy();
    assert_eq!(blocks(&g), vec![(8160, true)]);
    assert_eq!(String::from_utf8(Heap::empty(0).debug_heap()).unwrap(), "Heap blocks:\n");
}

#[test]
fn libc_heap_starts_with_one_page() {
    let h = libc::memory_init();
    assert_eq!(h.heap_break(), 0x10_0000_0000 + 0x1000);
    assert_eq!(h.block_list(), vec![BlockHeader { size: 4064, free: true }]);
}

#[test]
fn libc_malloc_and_free() {
    let mut h = libc::memory_init();
    assert_eq!(libc::malloc(&mut h, 16), AllocStep::Allocated(0x10_0000_0000 + 32));
    assert_eq!(libc::malloc(&mut h, 8192), AllocStep::Grow(3));
    libc::free(&mut h, 0x10_0000_0000 + 32);
    assert_eq!(h.block_list(), vec![BlockHeader { size: 4064, free: true }]);
    libc::free(&mut h, 0);
    assert_eq!(h.block_list(), vec![BlockHeader { size: 4064, free: true }]);
}

#[test]
fn kmalloc_hands_out_zeroed_block_after_free() {
    let mut h = Heap::new(0x1000, 1);
    let a = match h.kmalloc(100) {
        AllocStep::Allocated(p) => p,
        AllocStep::Grow(_) => panic!("no block"),
    };
    for i in 0..100 {
        h.write_byte(a + i, 0xAA);
    }
    // a byte of the free remainder, dirtied too
    h.write_byte(a + 200, 0x55);
    h.kfree(a);
    assert_eq!(h.bytes()[a - 0x1000], 0xAA);
    let b = match h.kmalloc(100) {
        AllocStep::Allocated(p) => p,
        AllocStep::Grow(_) => panic!("no block"),
    };
    assert_eq!(b, a);
    assert!(h.bytes()[b - 0x1000..b - 0x1000 + 100].iter().all(|&x| x == 0));
    // bytes outside the handed-out block are left alone
    assert_eq!(h.bytes()[a + 200 - 0x1000], 0x55);
    assert_eq!(h.bytes().len(), 0x1000);
}

#[test]
fn kmalloc_zeroes_whole_unsplit_block() {
    let mut h = Heap::new(0, 1);
    for i in 32..4096 {
        h.write_byte(i, 7);
    }
    assert_eq!(h.kmalloc(4040), AllocStep::Allocated(32));
    assert!(h.bytes()[32..4096].iter().all(|&x| x == 0));
}

#[test]
fn libc_malloc_zeroes_payload() {
    let mut h = libc::memory_init();
    let base = 0x10_0000_0000usize;
    h.write_byte(base + 40, 9);
    assert_eq!(libc::malloc(&mut h, 16), AllocStep::Allocated(base + 32));
    assert_eq!(h.bytes()[40], 0);
}

#[test]
fn libc_malloc_grows_through_sbrk_answer() {
    let mut h = libc::memory_init();
    let base = 0x10_0000_0000usize;
    assert_eq!(libc::malloc(&mut h, 8192), AllocStep::Grow(3));
    // the kernel had no memory: null, heap unchanged
    assert_eq!(libc::malloc_after_sbrk(&mut h, 8192, 0), None);
    assert_eq!(h.heap_break(), base + 0x1000);
    // the kernel answered the new end: the heap grows and the block fits
    assert_eq!(
        libc::malloc_after_sbrk(&mut h, 8192, (base + 0x4000) as u64),
        Some(base + 0x1000 + 32)
    );
    assert_eq!(h.heap_break(), base + 0x4000);
    assert_eq!(blocks(&h), vec![(4064, true), (8192, false), (4032, true)]);
}
