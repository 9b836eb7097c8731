//! First-fit heap with block splitting and coalescing, shared by the kernel
//! heap (`kmalloc`/`kfree`) and the user-space libc heap (`malloc`/`free`).
//!
//! The heap is a run of blocks laid out back to back from `start` to `brk`;
//! each block is a header of `BLOCK_HEADER_SIZE` bytes followed by `size`
//! payload bytes.  The address-ordered list of headers is the model.
use vstd::prelude::*;
use vstd::string::StringSliceAdditionalSpecFns;
use crate::text::{dec_text, hex_text, push_str, push_dec, push_hex};

verus! {

/// Size in bytes of a block header (size, free flag, next and prev links).
pub const BLOCK_HEADER_SIZE: usize = 32;

/// Smallest payload that a split-off remainder block must be able to hold.
pub const SPLIT_MIN_PAYLOAD: usize = 16;

/// Size of a page by which the heap grows.
pub const HEAP_PAGE_SIZE: usize = 0x1000;

/// Size in bytes of the header stored just below an aligned allocation.
pub const ALIGNED_HEADER_SIZE: usize = 8;

/// Header of one heap block.
#[derive(Clone, Copy, Debug, PartialEq, Eq, Structural)]
pub struct BlockHeader {
    pub size: usize,
    pub free: bool,
}

/// Result of one allocation attempt.
#[derive(Clone, Copy, Debug, PartialEq, Eq, Structural)]
pub enum AllocStep {
    /// The payload address of the block handed out.
    Allocated(usize),
    /// No free block was large enough: the heap must grow by this many pages
    /// (with `grow`) before the request is retried.
    Grow(usize),
}

/// The heap: the blocks in address order between `start` and `brk`.
pub struct Heap {
    start: usize,
    brk: usize,
    blocks: Vec<BlockHeader>,
    /// Aligned allocations handed out, each with the payload address of the
    /// block that holds it (the header stored below the aligned pointer).
    aligned_links: Vec<(usize, usize)>,
    /// The bytes from `start` to `brk`, as the heap's users see them; the
    /// bytes under a header are kept by `blocks` and not read here.
    mem: Vec<u8>,
}

/// Bytes that a block takes in the heap: its header and its payload.
pub open spec fn block_span(b: BlockHeader) -> nat {
    BLOCK_HEADER_SIZE as nat + b.size as nat
}

/// Bytes that a run of blocks takes.
pub open spec fn span(s: Seq<BlockHeader>) -> nat
    decreases s.len(),
{
    if s.len() == 0 {
        0
    } else {
        span(s.drop_last()) + block_span(s.last())
    }
}

/// Address of the header of block `i`.
pub open spec fn block_addr(start: int, s: Seq<BlockHeader>, i: int) -> int {
    start + span(s.take(i))
}

/// Address of the payload of block `i`.
pub open spec fn payload_addr(start: int, s: Seq<BlockHeader>, i: int) -> int {
    block_addr(start, s, i) + BLOCK_HEADER_SIZE
}

/// A block can serve a request of `size` bytes.
pub open spec fn fits(b: BlockHeader, size: nat) -> bool {
    b.free && b.size >= size
}

/// Block `i` is the first block that can serve `size` bytes.
pub open spec fn is_first_fit(s: Seq<BlockHeader>, size: nat, i: int) -> bool {
    &&& 0 <= i < s.len()
    &&& fits(s[i], size)
    &&& forall|j: int| 0 <= j < i ==> !fits(#[trigger] s[j], size)
}

/// The first block that can serve `size` bytes, if any.
pub open spec fn first_fit(s: Seq<BlockHeader>, size: nat) -> Option<int> {
    if exists|i: int| is_first_fit(s, size, i) {
        Some(choose|i: int| is_first_fit(s, size, i))
    } else {
        None
    }
}

/// Whether handing out `size` bytes of block `b` splits off a free remainder.
pub open spec fn splits(b: BlockHeader, size: nat) -> bool {
    b.size >= size + BLOCK_HEADER_SIZE + SPLIT_MIN_PAYLOAD
}

/// The blocks after block `i` is handed out for `size` bytes: it is marked
/// used and, when large enough, cut into the used part and a free remainder.
pub open spec fn allocate_block(s: Seq<BlockHeader>, i: int, size: nat) -> Seq<BlockHeader> {
    let b = s[i];
    if splits(b, size) {
        s.take(i) + seq![
            BlockHeader { size: size as usize, free: false },
            BlockHeader { size: (b.size - size - BLOCK_HEADER_SIZE) as usize, free: true },
        ] + s.skip(i + 1)
    } else {
        s.update(i, BlockHeader { size: b.size, free: false })
    }
}

/// Blocks `i` and `i + 1` joined into one free block.
pub open spec fn merge_with_next(s: Seq<BlockHeader>, i: int) -> Seq<BlockHeader> {
    s.take(i) + seq![
        BlockHeader {
            size: (s[i].size + BLOCK_HEADER_SIZE + s[i + 1].size) as usize,
            free: true,
        },
    ] + s.skip(i + 2)
}

/// The blocks after block `i` is given back: it is marked free, then joined
/// with the next block if that one is free, then joined into the previous
/// block if that one is free.
pub open spec fn release_block(s: Seq<BlockHeader>, i: int) -> Seq<BlockHeader> {
    let s1 = s.update(i, BlockHeader { size: s[i].size, free: true });
    let s2 = if i + 1 < s.len() && s[i + 1].free {
        merge_with_next(s1, i)
    } else {
        s1
    };
    if i > 0 && s[i - 1].free {
        merge_with_next(s2, i - 1)
    } else {
        s2
    }
}

/// No two neighbouring blocks are both free.
pub open spec fn coalesced(s: Seq<BlockHeader>) -> bool {
    forall|i: int| 0 <= i && i + 1 < s.len() ==> !(#[trigger] s[i].free && s[i + 1].free)
}

/// Number of pages by which the heap grows when no block serves `size`
/// bytes: enough for `size` bytes and a block header, rounded up to pages.
pub open spec fn growth_pages(size: nat) -> nat {
    size / HEAP_PAGE_SIZE as nat + (size % HEAP_PAGE_SIZE as nat + BLOCK_HEADER_SIZE + HEAP_PAGE_SIZE - 1) as nat
        / HEAP_PAGE_SIZE as nat
}

/// The pages grown for `size` bytes hold a header and `size` bytes.
pub proof fn lemma_growth_covers(size: nat)
    ensures
        growth_pages(size) >= 1,
        growth_pages(size) * HEAP_PAGE_SIZE >= size + BLOCK_HEADER_SIZE,
        growth_pages(size) * HEAP_PAGE_SIZE <= size + BLOCK_HEADER_SIZE + HEAP_PAGE_SIZE,
{
    let q = size / 4096;
    let r = size % 4096;
    vstd::arithmetic::div_mod::lemma_fundamental_div_mod(size as int, 4096);
    let k = (r + 32 + 4095) / 4096;
    vstd::arithmetic::div_mod::lemma_fundamental_div_mod((r + 32 + 4095) as int, 4096);
    assert(k >= 1 && k * 4096 >= r + 32 && k * 4096 <= r + 32 + 4095) by (nonlinear_arith)
        requires
            k == (r + 32 + 4095) / 4096,
            (r + 32 + 4095) == 4096 * ((r + 32 + 4095) / 4096) + (r + 32 + 4095) % 4096,
            0 <= (r + 32 + 4095) % 4096 < 4096,
            0 <= r < 4096,
    ;
    assert((q + k) * 4096 == q * 4096 + k * 4096) by (nonlinear_arith);
    assert(growth_pages(size) == q + k);
}

/// Number of payload bytes that block `b` holds once it is handed out for
/// `size` bytes: `size` when the block is cut, else its whole payload.
pub open spec fn handed_out_size(b: BlockHeader, size: nat) -> nat {
    if splits(b, size) {
        size
    } else {
        b.size as nat
    }
}

/// `s` with the `len` bytes from offset `from` set to zero.
pub open spec fn zeroed(s: Seq<u8>, from: int, len: int) -> Seq<u8> {
    Seq::new(s.len(), |k: int| if from <= k < from + len { 0u8 } else { s[k] })
}

/// Rounds `addr` up to a multiple of `align` (a power of two).
pub open spec fn align_up(addr: nat, align: nat) -> nat {
    ((addr + align - 1) as nat / align) * align
}

// ----- lemmas on spans -------------------------------------------------------

proof fn lemma_span_single(b: BlockHeader)
    ensures
        span(seq![b]) == block_span(b),
{
    assert(seq![b].drop_last() =~= Seq::<BlockHeader>::empty());
    assert(span(Seq::<BlockHeader>::empty()) == 0);
    assert(seq![b].last() == b);
}

proof fn lemma_span_concat(a: Seq<BlockHeader>, b: Seq<BlockHeader>)
    ensures
        span(a + b) == span(a) + span(b),
    decreases b.len(),
{
    if b.len() == 0 {
        assert(a + b =~= a);
    } else {
        lemma_span_concat(a, b.drop_last());
        assert((a + b).drop_last() =~= a + b.drop_last());
        assert((a + b).last() == b.last());
    }
}

proof fn lemma_span_take_step(s: Seq<BlockHeader>, i: int)
    requires
        0 <= i < s.len(),
    ensures
        span(s.take(i + 1)) == span(s.take(i)) + block_span(s[i]),
{
    assert(s.take(i + 1).drop_last() =~= s.take(i));
}

proof fn lemma_span_split(s: Seq<BlockHeader>, i: int)
    requires
        0 <= i < s.len(),
    ensures
        span(s) == span(s.take(i)) + block_span(s[i]) + span(s.skip(i + 1)),
{
    assert(s =~= s.take(i) + seq![s[i]] + s.skip(i + 1));
    lemma_span_concat(s.take(i) + seq![s[i]], s.skip(i + 1));
    lemma_span_concat(s.take(i), seq![s[i]]);
    lemma_span_single(s[i]);
}

proof fn lemma_span_take_mono(s: Seq<BlockHeader>, i: int, j: int)
    requires
        0 <= i <= j <= s.len(),
    ensures
        span(s.take(i)) + (j - i) * BLOCK_HEADER_SIZE <= span(s.take(j)),
    decreases j - i,
{
    if i < j {
        lemma_span_take_mono(s, i, j - 1);
        lemma_span_take_step(s, j - 1);
    }
}

proof fn lemma_span_take_le(s: Seq<BlockHeader>, i: int)
    requires
        0 <= i <= s.len(),
    ensures
        span(s.take(i)) <= span(s),
{
    lemma_span_take_mono(s, i, s.len() as int);
    assert(s.take(s.len() as int) =~= s);
}

proof fn lemma_first_fit_is(s: Seq<BlockHeader>, size: nat, i: int)
    requires
        is_first_fit(s, size, i),
    ensures
        first_fit(s, size) == Some(i),
{
    let k = choose|k: int| is_first_fit(s, size, k);
    assert(is_first_fit(s, size, k));
    if k < i {
        assert(!fits(s[k], size));
    }
    if i < k {
        assert(!fits(s[i], size));
    }
}

proof fn lemma_first_fit_none(s: Seq<BlockHeader>, size: nat)
    requires
        forall|j: int| 0 <= j < s.len() ==> !fits(#[trigger] s[j], size),
    ensures
        first_fit(s, size) is None,
{
}

/// The span of the blocks after an allocation is the span before.
proof fn lemma_allocate_span(s: Seq<BlockHeader>, i: int, size: nat)
    requires
        0 <= i < s.len(),
        fits(s[i], size),
    ensures
        span(allocate_block(s, i, size)) == span(s),
        allocate_block(s, i, size).take(i) =~= s.take(i),
        allocate_block(s, i, size).len() >= s.len(),
        i < allocate_block(s, i, size).len(),
{
    lemma_span_split(s, i);
    let b = s[i];
    if splits(b, size) {
        let mid = seq![
            BlockHeader { size: size as usize, free: false },
            BlockHeader { size: (b.size - size - BLOCK_HEADER_SIZE) as usize, free: true },
        ];
        lemma_span_concat(s.take(i) + mid, s.skip(i + 1));
        lemma_span_concat(s.take(i), mid);
        assert(mid.drop_last() =~= seq![mid[0]]);
        lemma_span_single(mid[0]);
        assert((s.take(i) + mid + s.skip(i + 1)).take(i) =~= s.take(i));
    } else {
        let t = s.update(i, BlockHeader { size: b.size, free: false });
        lemma_span_split(t, i);
        assert(t.take(i) =~= s.take(i));
        assert(t.skip(i + 1) =~= s.skip(i + 1));
    }
}

proof fn lemma_merge_span(s: Seq<BlockHeader>, i: int)
    requires
        0 <= i && i + 1 < s.len(),
        s[i].size + BLOCK_HEADER_SIZE + s[i + 1].size <= usize::MAX,
    ensures
        span(merge_with_next(s, i)) == span(s),
        merge_with_next(s, i).take(i) =~= s.take(i),
        merge_with_next(s, i).len() == s.len() - 1,
{
    let m = BlockHeader { size: (s[i].size + BLOCK_HEADER_SIZE + s[i + 1].size) as usize, free: true };
    lemma_span_concat(s.take(i) + seq![m], s.skip(i + 2));
    lemma_span_concat(s.take(i), seq![m]);
    lemma_span_single(m);
    lemma_span_split(s, i);
    lemma_span_split(s.skip(i + 1), 0);
    assert(s.skip(i + 1).take(0) =~= Seq::<BlockHeader>::empty());
    assert(s.skip(i + 1).skip(1) =~= s.skip(i + 2));
    assert((s.take(i) + seq![m] + s.skip(i + 2)).take(i) =~= s.take(i));
}

// ----- laws ------------------------------------------------------------------

/// Where some block can serve `size` bytes, there is a first such block.
proof fn lemma_exists_first_fit(s: Seq<BlockHeader>, size: nat, j: int)
    requires
        0 <= j < s.len(),
        fits(s[j], size),
    ensures
        first_fit(s, size) is Some,
    decreases j,
{
    if exists|k: int| 0 <= k < j && fits(#[trigger] s[k], size) {
        let k = choose|k: int| 0 <= k < j && fits(#[trigger] s[k], size);
        lemma_exists_first_fit(s, size, k);
    } else {
        assert(is_first_fit(s, size, j));
    }
}

/// Giving back a block right after it was handed out restores the heap,
/// when no two neighbouring blocks were free before.
pub proof fn law_free_undoes_malloc(s: Seq<BlockHeader>, i: int, size: nat)
    requires
        0 <= i < s.len(),
        fits(s[i], size),
        coalesced(s),
    ensures
        release_block(allocate_block(s, i, size), i) =~= s,
{
    let b = s[i];
    let t = allocate_block(s, i, size);
    if splits(b, size) {
        assert(t[i] == BlockHeader { size: size as usize, free: false });
        assert(t[i + 1] == BlockHeader { size: (b.size - size - BLOCK_HEADER_SIZE) as usize, free: true });
        assert(i > 0 ==> t[i - 1] == s[i - 1]);
        assert(i > 0 ==> !s[i - 1].free);
        let s1 = t.update(i, BlockHeader { size: t[i].size, free: true });
        assert(merge_with_next(s1, i) =~= s);
    } else {
        assert(t[i] == BlockHeader { size: b.size, free: false });
        assert(i + 1 < s.len() ==> t[i + 1] == s[i + 1] && !s[i + 1].free);
        assert(i > 0 ==> t[i - 1] == s[i - 1] && !s[i - 1].free);
        assert(t.update(i, BlockHeader { size: t[i].size, free: true }) =~= s);
    }
}

/// Giving back a block just handed out, when the block before it is in
/// use, lets the same request take the same block again, at the same
/// address (its bytes are then zeroed again: see `Heap::kmalloc`).
pub proof fn law_free_then_malloc_same_block(start: int, s: Seq<BlockHeader>, size: nat)
    requires
        span(s) <= usize::MAX,
        first_fit(s, size) is Some,
        first_fit(s, size)->0 == 0 || !s[first_fit(s, size)->0 - 1].free,
    ensures
        ({
            let i = first_fit(s, size)->0;
            let u = release_block(allocate_block(s, i, size), i);
            &&& first_fit(u, size) == Some(i)
            &&& payload_addr(start, u, i) == payload_addr(start, s, i)
        }),
{
    let i = first_fit(s, size)->0;
    assert(is_first_fit(s, size, i));
    lemma_allocate_span(s, i, size);
    let t = allocate_block(s, i, size);
    let s1 = t.update(i, BlockHeader { size: t[i].size, free: true });
    let s2 = if i + 1 < t.len() && t[i + 1].free {
        merge_with_next(s1, i)
    } else {
        s1
    };
    assert(t[i].size >= size);
    assert(i > 0 ==> t[i - 1] == s[i - 1]);
    if i + 1 < t.len() && t[i + 1].free {
        lemma_span_split(t, i);
        lemma_span_split(t.skip(i + 1), 0);
        assert(t.skip(i + 1)[0] == t[i + 1]);
        assert(s1[i + 1] == t[i + 1]);
    }
    let u = release_block(t, i);
    assert(u == s2);
    assert(s2.take(i) =~= s.take(i));
    assert(s2[i].free && s2[i].size >= size);
    assert forall|j: int| 0 <= j < i implies !fits(#[trigger] s2[j], size) by {
        assert(s2[j] == s.take(i)[j]);
        assert(s[j] == s.take(i)[j]);
    }
    assert(is_first_fit(s2, size, i));
    lemma_first_fit_is(s2, size, i);
}

proof fn lemma_span_same_sizes(x: Seq<BlockHeader>, y: Seq<BlockHeader>)
    requires
        x.len() == y.len(),
        forall|k: int| 0 <= k < x.len() ==> (#[trigger] x[k]).size == y[k].size,
    ensures
        span(x) == span(y),
    decreases x.len(),
{
    if x.len() > 0 {
        lemma_span_same_sizes(x.drop_last(), y.drop_last());
    }
}

/// Joining blocks `k` and `k + 1` moves every later block down one place
/// and keeps its address; earlier blocks stay where they are.
proof fn lemma_merge_moves(x: Seq<BlockHeader>, k: int, j: int)
    requires
        0 <= k && k + 1 < x.len(),
        x[k].size + BLOCK_HEADER_SIZE + x[k + 1].size <= usize::MAX,
        0 <= j < x.len(),
        j != k && j != k + 1,
    ensures
        j < k ==> merge_with_next(x, k)[j] == x[j] && span(merge_with_next(x, k).take(j)) == span(x.take(j)),
        j > k + 1 ==> merge_with_next(x, k)[j - 1] == x[j] && span(merge_with_next(x, k).take(j - 1)) == span(
            x.take(j),
        ),
{
    let m = BlockHeader { size: (x[k].size + BLOCK_HEADER_SIZE + x[k + 1].size) as usize, free: true };
    let r = merge_with_next(x, k);
    if j < k {
        assert(r.take(j) =~= x.take(j));
    } else {
        assert(r.take(j - 1) =~= x.take(k) + seq![m] + x.subrange(k + 2, j));
        assert(x.take(j) =~= x.take(k) + seq![x[k], x[k + 1]] + x.subrange(k + 2, j));
        lemma_span_concat(x.take(k) + seq![m], x.subrange(k + 2, j));
        lemma_span_concat(x.take(k), seq![m]);
        lemma_span_single(m);
        lemma_span_concat(x.take(k) + seq![x[k], x[k + 1]], x.subrange(k + 2, j));
        lemma_span_concat(x.take(k), seq![x[k], x[k + 1]]);
        assert(seq![x[k], x[k + 1]] =~= seq![x[k]] + seq![x[k + 1]]);
        lemma_span_concat(seq![x[k]], seq![x[k + 1]]);
        lemma_span_single(x[k]);
        lemma_span_single(x[k + 1]);
    }
}

/// Giving back a block keeps every block in use as it was, at its address.
pub proof fn law_free_keeps_used_blocks(start: int, s: Seq<BlockHeader>, i: int, j: int)
    requires
        span(s) <= usize::MAX,
        0 <= i < s.len(),
        0 <= j < s.len(),
        j != i,
        !s[j].free,
    ensures
        exists|j2: int|
            0 <= j2 < release_block(s, i).len() && #[trigger] release_block(s, i)[j2] == s[j] && block_addr(
                start,
                release_block(s, i),
                j2,
            ) == block_addr(start, s, j),
{
    let s1 = s.update(i, BlockHeader { size: s[i].size, free: true });
    assert(s1[j] == s[j]);
    assert forall|n: int| 0 <= n <= s.len() implies span(#[trigger] s1.take(n)) == span(s.take(n)) by {
        lemma_span_same_sizes(s1.take(n), s.take(n));
    }
    assert(span(s1) == span(s)) by {
        lemma_span_same_sizes(s1, s);
    }
    let next = i + 1 < s.len() && s[i + 1].free;
    let s2 = if next { merge_with_next(s1, i) } else { s1 };
    let j1 = if next && j > i + 1 { j - 1 } else { j };
    if next {
        lemma_span_split(s1, i);
        lemma_span_split(s1.skip(i + 1), 0);
        assert(s1.skip(i + 1)[0] == s1[i + 1]);
        lemma_merge_moves(s1, i, j);
        lemma_merge_span(s1, i);
    }
    assert(0 <= j1 < s2.len() && s2[j1] == s[j] && span(s2.take(j1)) == span(s.take(j)));
    assert(span(s2) == span(s));
    assert(s2.len() > i && s2[i].free);
    assert(i > 0 ==> s2[i - 1] == s[i - 1]);
    let prev = i > 0 && s[i - 1].free;
    if prev {
        assert(j1 != i - 1 && j1 != i);
        lemma_span_split(s2, i - 1);
        lemma_span_split(s2.skip(i), 0);
        assert(s2.skip(i)[0] == s2[i]);
        lemma_merge_moves(s2, i - 1, j1);
        let j2 = if j1 > i { j1 - 1 } else { j1 };
        assert(release_block(s, i) == merge_with_next(s2, i - 1));
        assert(release_block(s, i)[j2] == s[j]);
        assert(block_addr(start, release_block(s, i), j2) == block_addr(start, s, j));
    } else {
        assert(release_block(s, i) == s2);
        assert(release_block(s, i)[j1] == s[j]);
        assert(block_addr(start, release_block(s, i), j1) == block_addr(start, s, j));
    }
}

/// Handing out a block never puts two free blocks next to each other.
pub proof fn law_malloc_keeps_coalesced(s: Seq<BlockHeader>, i: int, size: nat)
    requires
        0 <= i < s.len(),
        fits(s[i], size),
        coalesced(s),
    ensures
        coalesced(allocate_block(s, i, size)),
{
    let b = s[i];
    let t = allocate_block(s, i, size);
    if splits(b, size) {
        assert forall|k: int| 0 <= k && k + 1 < t.len() implies !(#[trigger] t[k].free && t[k + 1].free) by {
            if k + 1 < i {
                assert(t[k] == s[k] && t[k + 1] == s[k + 1]);
            } else if k + 1 == i {
                assert(t[k + 1].free == false);
            } else if k == i {
                assert(!t[k].free);
            } else if k == i + 1 {
                assert(t[k + 1] == s[i + 1]);
                assert(!(s[i].free && s[i + 1].free));
            } else {
                assert(t[k] == s[k - 1] && t[k + 1] == s[k]);
            }
        }
    } else {
        assert forall|k: int| 0 <= k && k + 1 < t.len() implies !(#[trigger] t[k].free && t[k + 1].free) by {
            if k != i && k + 1 != i {
                assert(t[k] == s[k] && t[k + 1] == s[k + 1]);
            }
        }
    }
}

/// Giving a block back never leaves two free blocks next to each other.
pub proof fn law_free_keeps_coalesced(s: Seq<BlockHeader>, i: int)
    requires
        0 <= i < s.len(),
        coalesced(s),
    ensures
        coalesced(release_block(s, i)),
{
    let s1 = s.update(i, BlockHeader { size: s[i].size, free: true });
    let next = i + 1 < s.len() && s[i + 1].free;
    let s2 = if next { merge_with_next(s1, i) } else { s1 };
    let r = release_block(s, i);
    // In s2 the block at i is free; its right neighbour is not free.
    assert(s2.len() > i);
    assert(s2[i].free);
    assert(i + 1 < s2.len() ==> !s2[i + 1].free) by {
        if next {
            if i + 1 < s2.len() {
                assert(s2[i + 1] == s[i + 2]);
                assert(!(s[i + 1].free && s[i + 2].free));
            }
        } else {
            if i + 1 < s2.len() {
                assert(s2[i + 1] == s[i + 1]);
            }
        }
    }
    assert(forall|k: int| 0 <= k < i ==> s2[k] == s[k]);
    assert(forall|k: int| i < k && k < s2.len() ==> #[trigger] s2[k] == (if next { s[k + 1] } else { s[k] }));
    if i > 0 && s[i - 1].free {
        assert(i >= 2 ==> !s[i - 2].free);
        assert forall|k: int| 0 <= k && k + 1 < r.len() implies !(#[trigger] r[k].free && r[k + 1].free) by {
            if k + 1 < i - 1 {
                assert(r[k] == s[k] && r[k + 1] == s[k + 1]);
            } else if k + 1 == i - 1 {
                assert(r[k] == s[k]);
            } else if k == i - 1 {
                assert(r[k + 1] == s2[i + 1]);
            } else {
                assert(r[k] == s2[k + 1] && r[k + 1] == s2[k + 2]);
                if next {
                    assert(s2[k + 1] == s[k + 2] && s2[k + 2] == s[k + 3]);
                } else {
                    assert(s2[k + 1] == s[k + 1] && s2[k + 2] == s[k + 2]);
                }
            }
        }
    } else {
        assert forall|k: int| 0 <= k && k + 1 < r.len() implies !(#[trigger] r[k].free && r[k + 1].free) by {
            if k + 1 < i {
                assert(r[k] == s[k] && r[k + 1] == s[k + 1]);
            } else if k + 1 == i {
                assert(r[k] == s[k]);
            } else if k == i {
            } else {
                if next {
                    assert(r[k] == s[k + 1] && r[k + 1] == s[k + 2]);
                } else {
                    assert(r[k] == s[k] && r[k + 1] == s[k + 1]);
                }
            }
        }
    }
}

/// The payload of a block ends at or before the header of every later block.
pub proof fn law_blocks_disjoint(start: int, s: Seq<BlockHeader>, i: int, j: int)
    requires
        0 <= i < j < s.len(),
    ensures
        payload_addr(start, s, i) + s[i].size <= block_addr(start, s, j),
{
    lemma_span_take_step(s, i);
    lemma_span_take_mono(s, i + 1, j);
}

/// The payload of every block lies inside the heap.
pub proof fn law_block_inside_heap(start: int, s: Seq<BlockHeader>, i: int)
    requires
        0 <= i < s.len(),
    ensures
        start <= block_addr(start, s, i),
        payload_addr(start, s, i) + s[i].size <= start + span(s),
{
    lemma_span_take_step(s, i);
    lemma_span_take_le(s, i + 1);
}

/// After the heap grows by the pages asked for, a request of `size` bytes
/// finds a block: one growth is always enough.
pub proof fn law_grow_then_fits(s: Seq<BlockHeader>, size: nat)
    requires
        growth_pages(size) * HEAP_PAGE_SIZE <= usize::MAX,
    ensures
        first_fit(
            s.push(
                BlockHeader {
                    size: (growth_pages(size) * HEAP_PAGE_SIZE - BLOCK_HEADER_SIZE) as usize,
                    free: true,
                },
            ),
            size,
        ) is Some,
{
    let b = BlockHeader {
        size: (growth_pages(size) * HEAP_PAGE_SIZE - BLOCK_HEADER_SIZE) as usize,
        free: true,
    };
    let t = s.push(b);
    lemma_growth_covers(size);
    assert(t[s.len() as int] == b);
    lemma_exists_first_fit(t, size, s.len() as int);
}

/// The `size` bytes handed out from a block that fits lie inside the heap.
pub proof fn lemma_fit_inside_heap(start: int, s: Seq<BlockHeader>, i: int, size: nat)
    requires
        0 <= i < s.len(),
        fits(s[i], size),
    ensures
        start + BLOCK_HEADER_SIZE <= payload_addr(start, s, i),
        payload_addr(start, s, i) + size <= start + span(s),
{
    law_block_inside_heap(start, s, i);
}

/// When no block serves `size` bytes, the block added by growing is the
/// first to serve it.
pub proof fn lemma_grown_block_first_fit(s: Seq<BlockHeader>, size: nat)
    requires
        first_fit(s, size) is None,
        growth_pages(size) * HEAP_PAGE_SIZE <= usize::MAX,
    ensures
        first_fit(
            s.push(
                BlockHeader {
                    size: (growth_pages(size) * HEAP_PAGE_SIZE - BLOCK_HEADER_SIZE) as usize,
                    free: true,
                },
            ),
            size,
        ) == Some(s.len() as int),
{
    let b = BlockHeader {
        size: (growth_pages(size) * HEAP_PAGE_SIZE - BLOCK_HEADER_SIZE) as usize,
        free: true,
    };
    let t = s.push(b);
    lemma_growth_covers(size);
    assert forall|j: int| 0 <= j < s.len() implies !fits(#[trigger] t[j], size) by {
        assert(t[j] == s[j]);
        if fits(s[j], size) {
            lemma_exists_first_fit(s, size, j);
        }
    }
    assert(t[s.len() as int] == b);
    assert(is_first_fit(t, size, s.len() as int));
    lemma_first_fit_is(t, size, s.len() as int);
}

/// The aligned address handed out for an allocation whose block payload
/// starts at `raw`: the first multiple of `align` at or after the room for
/// the aligned header.
pub open spec fn aligned_from_raw(raw: usize, align: usize) -> usize {
    ((raw + ALIGNED_HEADER_SIZE + align - 1) as usize & !((align - 1) as usize)) as usize
}

/// For a power-of-two `align`, the aligned address is a multiple of
/// `align`, leaves room for the aligned header after `raw`, and lies less
/// than `align` bytes after it; so `size` bytes from it stay inside the
/// `size + align + ALIGNED_HEADER_SIZE` bytes that were allocated.
pub proof fn law_aligned_inside_block(raw: usize, align: usize, size: usize, k: usize)
    requires
        k < 32,
        align == 1usize << k,
        raw + ALIGNED_HEADER_SIZE + align - 1 <= usize::MAX,
    ensures
        aligned_from_raw(raw, align) & ((align - 1) as usize) == 0,
        raw + ALIGNED_HEADER_SIZE <= aligned_from_raw(raw, align),
        aligned_from_raw(raw, align) + size <= raw + size + align + ALIGNED_HEADER_SIZE,
{
    let x: usize = (raw + ALIGNED_HEADER_SIZE + align - 1) as usize;
    let m: usize = (align - 1) as usize;
    assert(1usize << k >= 1) by (bit_vector)
        requires k < 32;
    assert((x & !m) & m == 0) by (bit_vector);
    assert((x & !m) + (x & m) == x) by (bit_vector);
    assert(x & m <= m) by (bit_vector);
}

/// One line of the heap dump: the block's header address in hexadecimal,
/// its payload size in decimal and whether it is free.
pub open spec fn block_line(addr: nat, b: BlockHeader) -> Seq<u8> {
    "  Block at 0x".spec_bytes() + hex_text(addr) + ": size ".spec_bytes() + dec_text(b.size as nat)
        + ", free ".spec_bytes() + (if b.free {
        "true".spec_bytes()
    } else {
        "false".spec_bytes()
    }) + "\n".spec_bytes()
}

/// The lines of the heap dump for the blocks `s` laid out from `start`.
pub open spec fn blocks_text(start: int, s: Seq<BlockHeader>) -> Seq<u8>
    decreases s.len(),
{
    if s.len() == 0 {
        Seq::empty()
    } else {
        blocks_text(start, s.drop_last()) + block_line(
            block_addr(start, s, s.len() - 1) as nat,
            s.last(),
        )
    }
}

/// The heap dump: a title line, then one line per block in address order.
pub open spec fn heap_text(start: int, s: Seq<BlockHeader>) -> Seq<u8> {
    "Heap blocks:\n".spec_bytes() + blocks_text(start, s)
}

/// Appends one line of the heap dump (see `block_line`).
fn push_block_line(out: &mut Vec<u8>, addr: usize, b: BlockHeader)
    ensures
        final(out)@ == old(out)@ + block_line(addr as nat, b),
{
    push_str(out, "  Block at 0x");
    push_hex(out, addr as u64);
    push_str(out, ": size ");
    push_dec(out, b.size as u64);
    push_str(out, ", free ");
    if b.free {
        push_str(out, "true");
    } else {
        push_str(out, "false");
    }
    push_str(out, "\n");
    proof {
        assert(out@ =~= old(out)@ + block_line(addr as nat, b));
    }
}

/// Sets the `len` bytes of `mem` from offset `from` to zero.
fn zero_bytes(mem: &mut Vec<u8>, from: usize, len: usize)
    requires
        from + len <= old(mem)@.len(),
    ensures
        final(mem)@ == zeroed(old(mem)@, from as int, len as int),
{
    let mut j: usize = 0;
    while j < len
        invariant
            from + len <= mem.len(),
            mem@.len() == old(mem)@.len(),
            0 <= j <= len,
            mem@ == zeroed(old(mem)@, from as int, j as int),
        decreases len - j,
    {
        mem.set(from + j, 0u8);
        j = j + 1;
        proof {
            assert(mem@ =~= zeroed(old(mem)@, from as int, j as int));
        }
    }
}

impl Heap {
    /// The blocks of the heap, in address order.
    pub closed spec fn blocks(&self) -> Seq<BlockHeader> {
        self.blocks@
    }

    /// First address of the heap.
    pub closed spec fn start(&self) -> nat {
        self.start as nat
    }

    /// One past the last address of the heap.
    pub closed spec fn brk(&self) -> nat {
        self.brk as nat
    }

    /// The aligned allocations handed out, each with the payload address
    /// of the block that holds it.
    pub closed spec fn aligned_links(&self) -> Seq<(usize, usize)> {
        self.aligned_links@
    }

    /// The bytes of the heap, from `start` to `brk`.
    pub closed spec fn contents(&self) -> Seq<u8> {
        self.mem@
    }

    /// The blocks tile the heap exactly, and its bytes cover it.
    pub open spec fn wf(&self) -> bool {
        &&& self.start() + span(self.blocks()) == self.brk()
        &&& self.start() + self.contents().len() == self.brk()
    }

    /// The heap's end is an address.
    pub proof fn lemma_brk_fits(&self)
        ensures
            self.brk() <= usize::MAX,
    {
    }

    /// An empty heap starting (and ending) at `start`.
    pub fn empty(start: usize) -> (h: Heap)
        ensures
            h.wf(),
            h.start() == start,
            h.brk() == start,
            h.blocks() == Seq::<BlockHeader>::empty(),
            h.aligned_links() == Seq::<(usize, usize)>::empty(),
            h.contents() == Seq::<u8>::empty(),
    {
        Heap { start, brk: start, blocks: Vec::new(), aligned_links: Vec::new(), mem: Vec::new() }
    }

    /// A copy of the heap.
    pub fn copy(&self) -> (h: Heap)
        ensures
            h.wf() == self.wf(),
            h.start() == self.start(),
            h.brk() == self.brk(),
            h.blocks() == self.blocks(),
            h.aligned_links() == self.aligned_links(),
            h.contents() == self.contents(),
    {
        let mut links: Vec<(usize, usize)> = Vec::new();
        let n = self.aligned_links.len();
        let mut i: usize = 0;
        while i < n
            invariant
                n == self.aligned_links@.len(),
                0 <= i <= n,
                links@ == self.aligned_links@.take(i as int),
            decreases n - i,
        {
            links.push(self.aligned_links[i]);
            i = i + 1;
            proof {
                assert(links@ =~= self.aligned_links@.take(i as int));
            }
        }
        proof {
            assert(self.aligned_links@.take(n as int) =~= self.aligned_links@);
        }
        let mem = self.mem.clone();
        proof {
            assert(mem@ =~= self.mem@);
        }
        Heap {
            start: self.start,
            brk: self.brk,
            blocks: self.blocks.clone(),
            aligned_links: links,
            mem,
        }
    }

    /// Current end of the heap.
    pub fn heap_break(&self) -> (r: usize)
        ensures
            r == self.brk(),
    {
        self.brk
    }

    /// The bytes of the heap, from its start to its end.
    pub fn bytes(&self) -> (r: &[u8])
        ensures
            r@ == self.contents(),
    {
        self.mem.as_slice()
    }

    /// Writes `value` at address `addr` of the heap, as a user of an
    /// allocation does.
    pub fn write_byte(&mut self, addr: usize, value: u8)
        requires
            old(self).wf(),
            old(self).start() <= addr < old(self).brk(),
        ensures
            final(self).wf(),
            final(self).start() == old(self).start(),
            final(self).brk() == old(self).brk(),
            final(self).blocks() == old(self).blocks(),
            final(self).aligned_links() == old(self).aligned_links(),
            final(self).contents() == old(self).contents().update(addr - old(self).start(), value),
    {
        self.mem.set(addr - self.start, value);
    }

    /// Copy of the block headers, in address order.
    pub fn block_list(&self) -> (r: Vec<BlockHeader>)
        ensures
            r@ == self.blocks(),
    {
        self.blocks.clone()
    }

    /// The heap dump (see `heap_text`).
    pub fn debug_heap(&self) -> (text: Vec<u8>)
        requires
            self.wf(),
        ensures
            text@ == heap_text(self.start() as int, self.blocks()),
    {
        let mut out: Vec<u8> = Vec::new();
        push_str(&mut out, "Heap blocks:\n");
        let ghost base = out@;
        let n = self.blocks.len();
        let mut i: usize = 0;
        let mut addr: usize = self.start;
        proof {
            assert(self.blocks@.take(0) =~= Seq::<BlockHeader>::empty());
        }
        while i < n
            invariant
                self.wf(),
                n == self.blocks@.len(),
                0 <= i <= n,
                addr == block_addr(self.start as int, self.blocks@, i as int),
                base == "Heap blocks:\n".spec_bytes(),
                out@ == base + blocks_text(self.start as int, self.blocks@.take(i as int)),
            decreases n - i,
        {
            let b = self.blocks[i];
            proof {
                lemma_span_take_step(self.blocks@, i as int);
                lemma_span_take_le(self.blocks@, i as int + 1);
                let t = self.blocks@.take(i as int + 1);
                assert(t.drop_last() =~= self.blocks@.take(i as int));
                assert(t.take(i as int) =~= self.blocks@.take(i as int));
                assert(t.last() == b);
            }
            push_block_line(&mut out, addr, b);
            proof {
                assert(out@ =~= base + blocks_text(self.start as int, self.blocks@.take(i as int + 1)));
            }
            addr = addr + BLOCK_HEADER_SIZE + b.size;
            i = i + 1;
        }
        proof {
            assert(self.blocks@.take(n as int) =~= self.blocks@);
        }
        out
    }

    /// Grows the heap by `pages` pages: the new space becomes one free
    /// block placed after the last block.
    pub fn grow(&mut self, pages: usize)
        requires
            old(self).wf(),
            pages >= 1,
            old(self).brk() + pages * HEAP_PAGE_SIZE <= usize::MAX,
        ensures
            final(self).wf(),
            final(self).start() == old(self).start(),
            final(self).brk() == old(self).brk() + pages * HEAP_PAGE_SIZE,
            final(self).blocks() == old(self).blocks().push(
                BlockHeader { size: (pages * HEAP_PAGE_SIZE - BLOCK_HEADER_SIZE) as usize, free: true },
            ),
            final(self).aligned_links() == old(self).aligned_links(),
            final(self).contents().len() == old(self).contents().len() + pages * HEAP_PAGE_SIZE,
            final(self).contents().subrange(0, old(self).contents().len() as int)
                == old(self).contents(),
    {
        let bytes = pages * HEAP_PAGE_SIZE;
        let len = self.mem.len();
        self.mem.resize(len + bytes, 0u8);
        let b = BlockHeader { size: bytes - BLOCK_HEADER_SIZE, free: true };
        proof {
            assert(self.blocks@.push(b).drop_last() =~= self.blocks@);
        }
        self.blocks.push(b);
        self.brk = self.brk + bytes;
    }

    /// A heap at `start` holding one free block of `pages` pages.
    pub fn new(start: usize, pages: usize) -> (h: Heap)
        requires
            pages >= 1,
            start + pages * HEAP_PAGE_SIZE <= usize::MAX,
        ensures
            h.wf(),
            h.start() == start,
            h.brk() == start + pages * HEAP_PAGE_SIZE,
            h.blocks() == seq![
                BlockHeader { size: (pages * HEAP_PAGE_SIZE - BLOCK_HEADER_SIZE) as usize, free: true },
            ],
            h.aligned_links() == Seq::<(usize, usize)>::empty(),
    {
        let mut h = Heap::empty(start);
        h.grow(pages);
        proof {
            assert(h.blocks() =~= seq![
                BlockHeader { size: (pages * HEAP_PAGE_SIZE - BLOCK_HEADER_SIZE) as usize, free: true },
            ]);
        }
        h
    }

    /// First-fit allocation of `size` bytes.  The first free block of at
    /// least `size` bytes is marked used and, when the rest can hold a
    /// header and `SPLIT_MIN_PAYLOAD` bytes, cut in two; its payload address
    /// is returned.  When no block fits, the heap is left unchanged and the
    /// number of pages to grow by is returned.
    pub fn kmalloc(&mut self, size: usize) -> (r: AllocStep)
        requires
            old(self).wf(),
        ensures
            final(self).wf(),
            final(self).start() == old(self).start(),
            final(self).brk() == old(self).brk(),
            final(self).aligned_links() == old(self).aligned_links(),
            match first_fit(old(self).blocks(), size as nat) {
                Some(i) => {
                    &&& r == AllocStep::Allocated(
                        payload_addr(old(self).start() as int, old(self).blocks(), i) as usize,
                    )
                    &&& final(self).blocks() == allocate_block(old(self).blocks(), i, size as nat)
                    &&& final(self).contents() == zeroed(
                        old(self).contents(),
                        payload_addr(old(self).start() as int, old(self).blocks(), i)
                            - old(self).start(),
                        handed_out_size(old(self).blocks()[i], size as nat) as int,
                    )
                },
                None => {
                    &&& r == AllocStep::Grow(growth_pages(size as nat) as usize)
                    &&& final(self).blocks() == old(self).blocks()
                    &&& final(self).contents() == old(self).contents()
                },
            },
    {
        let n = self.blocks.len();
        let mut i: usize = 0;
        let mut addr: usize = self.start;
        while i < n
            invariant
                self.wf(),
                n == self.blocks@.len(),
                0 <= i <= n,
                addr == block_addr(self.start as int, self.blocks@, i as int),
                self.blocks == old(self).blocks,
                self.start == old(self).start,
                self.brk == old(self).brk,
                self.aligned_links == old(self).aligned_links,
                self.mem == old(self).mem,
                forall|j: int| 0 <= j < i ==> !fits(#[trigger] self.blocks@[j], size as nat),
            decreases n - i,
        {
            let b = self.blocks[i];
            proof {
                lemma_span_take_step(self.blocks@, i as int);
                lemma_span_take_le(self.blocks@, i as int + 1);
            }
            if b.free && b.size >= size {
                let ghost s = self.blocks@;
                proof {
                    assert(is_first_fit(s, size as nat, i as int));
                    lemma_first_fit_is(s, size as nat, i as int);
                    lemma_allocate_span(s, i as int, size as nat);
                    law_block_inside_heap(self.start as int, s, i as int);
                }
                let off = addr + BLOCK_HEADER_SIZE - self.start;
                let len = if b.size - size >= BLOCK_HEADER_SIZE + SPLIT_MIN_PAYLOAD {
                    size
                } else {
                    b.size
                };
                zero_bytes(&mut self.mem, off, len);
                if b.size - size >= BLOCK_HEADER_SIZE + SPLIT_MIN_PAYLOAD {
                    let rest = BlockHeader { size: b.size - size - BLOCK_HEADER_SIZE, free: true };
                    self.blocks.set(i, BlockHeader { size, free: false });
                    self.blocks.insert(i + 1, rest);
                    proof {
                        assert(self.blocks@ =~= allocate_block(s, i as int, size as nat));
                    }
                } else {
                    self.blocks.set(i, BlockHeader { size: b.size, free: false });
                    proof {
                        assert(self.blocks@ =~= allocate_block(s, i as int, size as nat));
                    }
                }
                return AllocStep::Allocated(addr + BLOCK_HEADER_SIZE);
            }
            addr = addr + BLOCK_HEADER_SIZE + b.size;
            i = i + 1;
        }
        proof {
            lemma_first_fit_none(self.blocks@, size as nat);
        }
        AllocStep::Grow(size / HEAP_PAGE_SIZE + (size % HEAP_PAGE_SIZE + BLOCK_HEADER_SIZE + HEAP_PAGE_SIZE - 1) / HEAP_PAGE_SIZE)
    }

    /// Index of the block whose payload starts at `ptr`.
    fn find_block(&self, ptr: usize) -> (i: usize)
        requires
            self.wf(),
            exists|k: int|
                0 <= k < self.blocks().len() && payload_addr(self.start() as int, self.blocks(), k)
                    == ptr,
        ensures
            0 <= i < self.blocks().len(),
            payload_addr(self.start() as int, self.blocks(), i as int) == ptr,
    {
        let n = self.blocks.len();
        let mut i: usize = 0;
        let mut addr: usize = self.start;
        let ghost k = choose|k: int|
            0 <= k < self.blocks().len() && payload_addr(self.start() as int, self.blocks(), k)
                == ptr;
        while i < n
            invariant
                self.wf(),
                n == self.blocks@.len(),
                0 <= i <= k,
                0 <= k < n,
                payload_addr(self.start as int, self.blocks@, k) == ptr,
                addr == block_addr(self.start as int, self.blocks@, i as int),
            decreases n - i,
        {
            let b = self.blocks[i];
            proof {
                lemma_span_take_step(self.blocks@, i as int);
                lemma_span_take_le(self.blocks@, i as int + 1);
                lemma_span_take_mono(self.blocks@, i as int, k);
                if i < k {
                    lemma_span_take_mono(self.blocks@, i as int + 1, k);
                }
            }
            if addr + BLOCK_HEADER_SIZE == ptr {
                return i;
            }
            addr = addr + BLOCK_HEADER_SIZE + b.size;
            i = i + 1;
        }
        i
    }

    /// Gives back the allocation whose payload starts at `ptr` (nothing
    /// happens for a null `ptr`): the block is marked free and joined with
    /// a free neighbour on either side.
    pub fn kfree(&mut self, ptr: usize)
        requires
            old(self).wf(),
            ptr != 0 ==> exists|k: int|
                0 <= k < old(self).blocks().len() && payload_addr(
                    old(self).start() as int,
                    old(self).blocks(),
                    k,
                ) == ptr,
        ensures
            final(self).wf(),
            final(self).start() == old(self).start(),
            final(self).brk() == old(self).brk(),
            final(self).aligned_links() == old(self).aligned_links(),
            final(self).contents() == old(self).contents(),
            ptr == 0 ==> final(self).blocks() == old(self).blocks(),
            ptr != 0 ==> exists|k: int|
                0 <= k < old(self).blocks().len() && payload_addr(
                    old(self).start() as int,
                    old(self).blocks(),
                    k,
                ) == ptr && final(self).blocks() == release_block(old(self).blocks(), k),
    {
        if ptr == 0 {
            return;
        }
        let i = self.find_block(ptr);
        self.release(i);
    }

    /// Releases block `i` (see `release_block`).
    fn release(&mut self, i: usize)
        requires
            old(self).wf(),
            i < old(self).blocks().len(),
        ensures
            final(self).wf(),
            final(self).start() == old(self).start(),
            final(self).brk() == old(self).brk(),
            final(self).aligned_links() == old(self).aligned_links(),
            final(self).contents() == old(self).contents(),
            final(self).blocks() == release_block(old(self).blocks(), i as int),
    {
        let ghost s = self.blocks@;
        let n = self.blocks.len();
        let b = self.blocks[i];
        self.blocks.set(i, BlockHeader { size: b.size, free: true });
        let ghost s1 = self.blocks@;
        proof {
            assert(s1 == s.update(i as int, BlockHeader { size: s[i as int].size, free: true }));
            lemma_span_split(s, i as int);
            lemma_span_split(s1, i as int);
            assert(s1.take(i as int) =~= s.take(i as int));
            assert(s1.skip(i as int + 1) =~= s.skip(i as int + 1));
        }
        if i + 1 < n && self.blocks[i + 1].free {
            let nb = self.blocks[i + 1];
            proof {
                lemma_span_split(s1, i as int);
                lemma_span_split(s1.skip(i as int + 1), 0);
                assert(s1.skip(i as int + 1)[0] == s1[i as int + 1]);
            }
            let merged = BlockHeader { size: b.size + BLOCK_HEADER_SIZE + nb.size, free: true };
            self.blocks.set(i, merged);
            self.blocks.remove(i + 1);
            proof {
                assert(self.blocks@ =~= merge_with_next(s1, i as int));
                lemma_merge_span(s1, i as int);
            }
        }
        let ghost s2 = self.blocks@;
        proof {
            assert(s2.len() > i);
            assert(s2[i as int].free);
            assert(i > 0 ==> s2[i as int - 1] == s[i as int - 1]);
            assert(span(s2) == span(s));
        }
        if i > 0 && self.blocks[i - 1].free {
            let pb = self.blocks[i - 1];
            let cb = self.blocks[i];
            proof {
                lemma_span_split(s2, i as int - 1);
                lemma_span_split(s2.skip(i as int), 0);
                assert(s2.skip(i as int)[0] == s2[i as int]);
            }
            let merged = BlockHeader { size: pb.size + BLOCK_HEADER_SIZE + cb.size, free: true };
            self.blocks.set(i - 1, merged);
            self.blocks.remove(i);
            proof {
                assert(self.blocks@ =~= merge_with_next(s2, i as int - 1));
                lemma_merge_span(s2, i as int - 1);
            }
        }
        proof {
            assert(self.blocks@ =~= release_block(s, i as int));
        }
    }
}

impl Heap {
    /// Allocation of `size` bytes at an address aligned to `align`: a block
    /// of `size + align + ALIGNED_HEADER_SIZE` bytes is allocated and the
    /// aligned address inside it is handed out and remembered with the
    /// block, so that `kfree_alligned` can give the block back.
    pub fn kmalloc_alligned(&mut self, size: usize, align: usize) -> (r: AllocStep)
        requires
            old(self).wf(),
            align >= 1,
            size + align + ALIGNED_HEADER_SIZE <= usize::MAX,
        ensures
            final(self).wf(),
            final(self).start() == old(self).start(),
            final(self).brk() == old(self).brk(),
            ({
                let total = (size + align + ALIGNED_HEADER_SIZE) as nat;
                match first_fit(old(self).blocks(), total) {
                    Some(i) => {
                        let raw = payload_addr(old(self).start() as int, old(self).blocks(), i) as usize;
                        &&& r == AllocStep::Allocated(aligned_from_raw(raw, align))
                        &&& final(self).blocks() == allocate_block(old(self).blocks(), i, total)
                        &&& final(self).aligned_links() == old(self).aligned_links().push(
                            (aligned_from_raw(raw, align), raw),
                        )
                        &&& final(self).contents() == zeroed(
                            old(self).contents(),
                            raw - old(self).start(),
                            handed_out_size(old(self).blocks()[i], total) as int,
                        )
                    },
                    None => {
                        &&& r == AllocStep::Grow(growth_pages(total) as usize)
                        &&& final(self).blocks() == old(self).blocks()
                        &&& final(self).aligned_links() == old(self).aligned_links()
                        &&& final(self).contents() == old(self).contents()
                    },
                }
            }),
    {
        let total = size + align + ALIGNED_HEADER_SIZE;
        let step = self.kmalloc(total);
        match step {
            AllocStep::Allocated(raw) => {
                proof {
                    let i = first_fit(old(self).blocks(), total as nat)->0;
                    law_block_inside_heap(old(self).start() as int, old(self).blocks(), i);
                    assert(allocate_block(old(self).blocks(), i, total as nat)[i].size >= total) by {
                        lemma_allocate_span(old(self).blocks(), i, total as nat);
                    }
                }
                let aligned = (raw + ALIGNED_HEADER_SIZE + align - 1) & !(align - 1);
                self.aligned_links.push((aligned, raw));
                AllocStep::Allocated(aligned)
            },
            AllocStep::Grow(p) => AllocStep::Grow(p),
        }
    }

    /// Gives back an allocation made by `kmalloc_alligned` (nothing happens
    /// for a null `ptr`): the block that holds it is released with `kfree`.
    pub fn kfree_alligned(&mut self, ptr: usize)
        requires
            old(self).wf(),
            ptr != 0 ==> exists|j: int|
                0 <= j < old(self).aligned_links().len() && (#[trigger] old(self).aligned_links()[j]).0
                    == ptr,
            forall|j: int|
                0 <= j < old(self).aligned_links().len() ==> exists|k: int|
                    0 <= k < old(self).blocks().len() && payload_addr(
                        old(self).start() as int,
                        old(self).blocks(),
                        k,
                    ) == (#[trigger] old(self).aligned_links()[j]).1,
        ensures
            final(self).wf(),
            final(self).start() == old(self).start(),
            final(self).brk() == old(self).brk(),
            final(self).contents() == old(self).contents(),
            ptr == 0 ==> final(self).blocks() == old(self).blocks() && final(self).aligned_links()
                == old(self).aligned_links(),
            ptr != 0 ==> exists|j: int, k: int|
                0 <= j < old(self).aligned_links().len() && old(self).aligned_links()[j].0 == ptr
                    && 0 <= k < old(self).blocks().len() && payload_addr(
                    old(self).start() as int,
                    old(self).blocks(),
                    k,
                ) == old(self).aligned_links()[j].1 && final(self).blocks() == release_block(
                    old(self).blocks(),
                    k,
                ) && final(self).aligned_links() == old(self).aligned_links().remove(j),
    {
        if ptr == 0 {
            return;
        }
        let n = self.aligned_links.len();
        let mut j: usize = 0;
        while j < n
            invariant
                n == self.aligned_links@.len(),
                self.aligned_links == old(self).aligned_links,
                self.blocks == old(self).blocks,
                self.mem == old(self).mem,
                self.start == old(self).start,
                self.brk == old(self).brk,
                self.wf(),
                ptr != 0,
                forall|t: int|
                    0 <= t < old(self).aligned_links().len() ==> exists|k: int|
                        0 <= k < old(self).blocks().len() && payload_addr(
                            old(self).start() as int,
                            old(self).blocks(),
                            k,
                        ) == (#[trigger] old(self).aligned_links()[t]).1,
                0 <= j <= n,
                forall|t: int| 0 <= t < j ==> (#[trigger] self.aligned_links@[t]).0 != ptr,
            decreases n - j,
        {
            if self.aligned_links[j].0 == ptr {
                let raw = self.aligned_links[j].1;
                let ghost links = self.aligned_links@;
                proof {
                    assert(links[j as int].1 == raw);
                    assert(old(self).aligned_links()[j as int] == links[j as int]);
                    assert(exists|k: int|
                        0 <= k < old(self).blocks().len() && payload_addr(
                            old(self).start() as int,
                            old(self).blocks(),
                            k,
                        ) == raw);
                }
                self.aligned_links.remove(j);
                self.kfree(raw);
                proof {
                    assert(self.aligned_links() == old(self).aligned_links().remove(j as int));
                    let k = choose|k: int|
                        0 <= k < old(self).blocks().len() && payload_addr(
                            old(self).start() as int,
                            old(self).blocks(),
                            k,
                        ) == raw && self.blocks() == release_block(old(self).blocks(), k);
                    assert(0 <= j < old(self).aligned_links().len() && old(self).aligned_links()[j as int].0 == ptr
                        && 0 <= k < old(self).blocks().len() && payload_addr(
                        old(self).start() as int,
                        old(self).blocks(),
                        k,
                    ) == old(self).aligned_links()[j as int].1 && self.blocks() == release_block(
                        old(self).blocks(),
                        k,
                    ) && self.aligned_links() == old(self).aligned_links().remove(j as int));
                }
                return;
            }
            j = j + 1;
        }
    }
}

} // verus!
