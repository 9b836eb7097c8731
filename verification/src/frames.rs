//! Physical frame allocator: one bit per 4 KiB frame, set when the frame is
//! in use, kept in a bitmap placed in the first usable memory region that
//! can hold it.
use vstd::prelude::*;

verus! {

/// Size of a physical frame.
pub const FRAME_SIZE: u64 = 0x1000;

/// Memory map type of usable RAM.
pub const MEMMAP_USABLE: u64 = 0;

/// One region of the boot memory map.
#[derive(Clone, Copy, Debug, PartialEq, Eq, Structural)]
pub struct MemmapEntry {
    pub base: u64,
    pub length: u64,
    pub type_: u64,
}

/// The frame bitmap: `size` bytes placed at physical address `addr`.
pub struct FrameBitmap {
    bits: Vec<u8>,
    size: u64,
    addr: u64,
}

/// Bit `k` of byte `x` is set.
pub open spec fn bit_set(x: u8, k: int) -> bool {
    x & (1u8 << (k as u8)) != 0
}

/// Frame `f` is marked used in `bits`.
pub open spec fn frame_bit(bits: Seq<u8>, f: int) -> bool {
    bit_set(bits[f / 8], f % 8)
}

/// Physical address of frame `frame`.
pub open spec fn frame_addr(frame: nat) -> nat {
    frame * FRAME_SIZE as nat
}

/// Frame `i` is the first frame not in use.
pub open spec fn is_first_free(frames: Seq<bool>, i: int) -> bool {
    &&& 0 <= i < frames.len()
    &&& !frames[i]
    &&& forall|j: int| 0 <= j < i ==> #[trigger] frames[j]
}

/// The first frame not in use, if any.
pub open spec fn first_free_frame(frames: Seq<bool>) -> Option<int> {
    if exists|i: int| is_first_free(frames, i) {
        Some(choose|i: int| is_first_free(frames, i))
    } else {
        None
    }
}

proof fn lemma_bit_or(x: u8, b: u8, k: u8)
    requires
        b < 8,
        k < 8,
    ensures
        ((x | (1u8 << b)) & (1u8 << k) != 0) == (k == b || x & (1u8 << k) != 0),
{
    assert(((x | (1u8 << b)) & (1u8 << k) != 0) == (k == b || x & (1u8 << k) != 0)) by (bit_vector)
        requires
            b < 8,
            k < 8,
    ;
}

proof fn lemma_bit_clear(x: u8, b: u8, k: u8)
    requires
        b < 8,
        k < 8,
    ensures
        ((x & !(1u8 << b)) & (1u8 << k) != 0) == (k != b && x & (1u8 << k) != 0),
{
    assert(((x & !(1u8 << b)) & (1u8 << k) != 0) == (k != b && x & (1u8 << k) != 0)) by (bit_vector)
        requires
            b < 8,
            k < 8,
    ;
}

proof fn lemma_zero_byte(k: u8)
    requires
        k < 8,
    ensures
        0u8 & (1u8 << k) == 0,
{
    assert(0u8 & (1u8 << k) == 0) by (bit_vector);
}

proof fn lemma_first_free_is(frames: Seq<bool>, i: int)
    requires
        is_first_free(frames, i),
    ensures
        first_free_frame(frames) == Some(i),
{
    let k = choose|k: int| is_first_free(frames, k);
    assert(is_first_free(frames, k));
    if k < i {
        assert(frames[k]);
    }
    if i < k {
        assert(frames[i]);
    }
}

/// Frame number of the frame holding physical address `addr`.
pub fn physical_addr_to_frame(addr: u64) -> (f: u64)
    ensures
        f == addr / FRAME_SIZE,
{
    addr / FRAME_SIZE
}

/// Physical address of frame `frame`.
pub fn frame_to_physical_addr(frame: u64) -> (addr: u64)
    requires
        frame * FRAME_SIZE <= u64::MAX,
    ensures
        addr == frame_addr(frame as nat),
{
    frame * FRAME_SIZE
}

/// Byte and bit of the bitmap that hold frame `frame`.
pub fn frame_to_bitmap_index(frame: u64, size: u64) -> (r: (usize, u8))
    requires
        frame / 8 < size,
        size <= usize::MAX,
    ensures
        r.0 == frame / 8,
        r.1 == frame % 8,
{
    ((frame / 8) as usize, (frame % 8) as u8)
}

impl FrameBitmap {
    /// Whether each frame is in use, by frame number.
    pub closed spec fn frames(&self) -> Seq<bool> {
        Seq::new((self.size * 8) as nat, |f: int| frame_bit(self.bits@, f))
    }

    /// Number of bytes of the bitmap.
    pub closed spec fn size(&self) -> nat {
        self.size as nat
    }

    /// Physical address of the bitmap.
    pub closed spec fn addr(&self) -> nat {
        self.addr as nat
    }

    /// The bytes match the size and every frame address fits in 64 bits.
    pub closed spec fn wf(&self) -> bool {
        &&& self.bits@.len() == self.size
        &&& self.size <= usize::MAX
        &&& self.size * 8 * FRAME_SIZE <= u64::MAX
    }

    pub proof fn lemma_frames_len(&self)
        requires
            self.wf(),
        ensures
            self.frames().len() == self.size() * 8,
            self.size() * 8 * FRAME_SIZE <= u64::MAX,
    {
    }

    /// A bitmap of `size` bytes at `addr` with every frame free.
    pub fn empty(size: u64, addr: u64) -> (b: FrameBitmap)
        requires
            size * 8 * FRAME_SIZE <= u64::MAX,
        ensures
            b.wf(),
            b.size() == size,
            b.addr() == addr,
            forall|f: int| 0 <= f < b.frames().len() ==> !(#[trigger] b.frames()[f]),
    {
        let mut bits: Vec<u8> = Vec::new();
        let mut i: u64 = 0;
        while i < size
            invariant
                0 <= i <= size,
                size * 8 * FRAME_SIZE <= u64::MAX,
                bits@.len() == i,
                forall|j: int| 0 <= j < i ==> bits@[j] == 0u8,
            decreases size - i,
        {
            bits.push(0u8);
            i = i + 1;
        }
        let l = bits.len();
        assert(l == size);
        let b = FrameBitmap { bits, size, addr };
        proof {
            assert forall|f: int| 0 <= f < b.frames().len() implies !(#[trigger] b.frames()[f]) by {
                assert(b.bits@[f / 8] == 0u8);
                lemma_zero_byte((f % 8) as u8);
            }
        }
        b
    }

    /// A copy of the bitmap.
    pub fn copy(&self) -> (r: FrameBitmap)
        requires
            self.wf(),
        ensures
            r.wf(),
            r.size() == self.size(),
            r.addr() == self.addr(),
            r.frames() == self.frames(),
    {
        let bits = self.bits.clone();
        proof {
            assert(bits@ =~= self.bits@);
        }
        FrameBitmap { bits, size: self.size, addr: self.addr }
    }

    /// Whether some frame is free.
    pub fn has_free_frame(&self) -> (r: bool)
        requires
            self.wf(),
        ensures
            r == first_free_frame(self.frames()) is Some,
    {
        let total = self.size * 8;
        let mut frame: u64 = 0;
        while frame < total
            invariant
                self.wf(),
                total == self.size() * 8,
                0 <= frame <= total,
                forall|j: int| 0 <= j < frame ==> #[trigger] self.frames()[j],
            decreases total - frame,
        {
            if !self.get_frame(frame) {
                proof {
                    lemma_first_free_is(self.frames(), frame as int);
                }
                return true;
            }
            frame = frame + 1;
        }
        proof {
            if exists|i: int| is_first_free(self.frames(), i) {
                let i = choose|i: int| is_first_free(self.frames(), i);
                assert(self.frames()[i]);
            }
        }
        false
    }

    /// Number of bytes of the bitmap.
    pub fn bitmap_size(&self) -> (r: u64)
        ensures
            r == self.size(),
    {
        self.size
    }

    /// Physical address of the bitmap.
    pub fn bitmap_addr(&self) -> (r: u64)
        ensures
            r == self.addr(),
    {
        self.addr
    }

    /// Marks frame `frame` used or free.
    pub fn set_frame(&mut self, frame: u64, used: bool)
        requires
            old(self).wf(),
            frame / 8 < old(self).size(),
        ensures
            final(self).wf(),
            final(self).size() == old(self).size(),
            final(self).addr() == old(self).addr(),
            final(self).frames() == old(self).frames().update(frame as int, used),
    {
        let (byte_index, bit_index) = frame_to_bitmap_index(frame, self.size);
        let old_byte = self.bits[byte_index];
        let new_byte = if used {
            old_byte | (1u8 << bit_index)
        } else {
            old_byte & !(1u8 << bit_index)
        };
        self.bits.set(byte_index, new_byte);
        proof {
            let o = old(self).frames();
            let n = self.frames();
            assert forall|f: int| 0 <= f < n.len() implies n[f] == o.update(frame as int, used)[f] by {
                if f / 8 == byte_index as int {
                    let k = (f % 8) as u8;
                    if used {
                        lemma_bit_or(old_byte, bit_index, k);
                    } else {
                        lemma_bit_clear(old_byte, bit_index, k);
                    }
                    if f != frame as int {
                        assert(f % 8 != frame as int % 8);
                    }
                } else {
                    assert(f != frame as int);
                }
            }
            assert(n =~= o.update(frame as int, used));
        }
    }

    /// Whether frame `frame` is in use.
    pub fn get_frame(&self, frame: u64) -> (r: bool)
        requires
            self.wf(),
            frame / 8 < self.size(),
        ensures
            r == self.frames()[frame as int],
    {
        let (byte_index, bit_index) = frame_to_bitmap_index(frame, self.size);
        self.bits[byte_index] & (1u8 << bit_index) != 0
    }

    /// Marks frame `frame` used.
    pub fn set_frame_used(&mut self, frame: u64)
        requires
            old(self).wf(),
            frame / 8 < old(self).size(),
        ensures
            final(self).wf(),
            final(self).size() == old(self).size(),
            final(self).addr() == old(self).addr(),
            final(self).frames() == old(self).frames().update(frame as int, true),
    {
        self.set_frame(frame, true);
    }

    /// Marks frame `frame` free.
    pub fn set_frame_free(&mut self, frame: u64)
        requires
            old(self).wf(),
            frame / 8 < old(self).size(),
        ensures
            final(self).wf(),
            final(self).size() == old(self).size(),
            final(self).addr() == old(self).addr(),
            final(self).frames() == old(self).frames().update(frame as int, false),
    {
        self.set_frame(frame, false);
    }

    /// Takes the first free frame: marks it used and returns its physical
    /// address, or returns `None` when every frame is in use.
    pub fn alloc_frame(&mut self) -> (r: Option<u64>)
        requires
            old(self).wf(),
        ensures
            final(self).wf(),
            final(self).size() == old(self).size(),
            final(self).addr() == old(self).addr(),
            match first_free_frame(old(self).frames()) {
                Some(f) => r == Some(frame_addr(f as nat) as u64) && final(self).frames()
                    == old(self).frames().update(f, true),
                None => r is None && final(self).frames() == old(self).frames(),
            },
    {
        let total = self.size * 8;
        let mut frame: u64 = 0;
        while frame < total
            invariant
                self.wf(),
                self == old(self),
                total == self.size() * 8,
                0 <= frame <= total,
                forall|j: int| 0 <= j < frame ==> #[trigger] self.frames()[j],
            decreases total - frame,
        {
            if !self.get_frame(frame) {
                proof {
                    lemma_first_free_is(self.frames(), frame as int);
                    assert(frame * FRAME_SIZE <= self.size() * 8 * FRAME_SIZE) by (nonlinear_arith)
                        requires frame < self.size() * 8;
                }
                self.set_frame_used(frame);
                return Some(frame_to_physical_addr(frame));
            }
            frame = frame + 1;
        }
        proof {
            if exists|i: int| is_first_free(self.frames(), i) {
                let i = choose|i: int| is_first_free(self.frames(), i);
                assert(self.frames()[i]);
            }
        }
        None
    }

    /// Marks the frame holding physical address `addr` free.
    pub fn free_frame(&mut self, addr: u64)
        requires
            old(self).wf(),
            (addr / FRAME_SIZE) / 8 < old(self).size(),
        ensures
            final(self).wf(),
            final(self).size() == old(self).size(),
            final(self).addr() == old(self).addr(),
            final(self).frames() == old(self).frames().update((addr / FRAME_SIZE) as int, false),
    {
        self.set_frame_free(physical_addr_to_frame(addr));
    }

    /// Marks frames `lo..hi` used or free.
    fn set_range(&mut self, lo: u64, hi: u64, used: bool)
        requires
            old(self).wf(),
            lo < hi ==> (hi - 1) / 8 < old(self).size(),
        ensures
            final(self).wf(),
            final(self).size() == old(self).size(),
            final(self).addr() == old(self).addr(),
            final(self).frames() == Seq::new(
                old(self).frames().len(),
                |f: int|
                    if lo <= f < hi {
                        used
                    } else {
                        old(self).frames()[f]
                    },
            ),
    {
        let mut frame = lo;
        while frame < hi
            invariant
                self.wf(),
                self.size() == old(self).size(),
                self.addr() == old(self).addr(),
                lo <= frame,
                lo < hi ==> (hi - 1) / 8 < self.size(),
                frame <= hi || lo >= hi,
                lo >= hi ==> frame == lo,
                self.frames().len() == old(self).frames().len(),
                forall|f: int|
                    0 <= f < self.frames().len() ==> #[trigger] self.frames()[f] == if lo <= f < frame {
                        used
                    } else {
                        old(self).frames()[f]
                    },
            decreases hi - frame,
        {
            self.set_frame(frame, used);
            frame = frame + 1;
        }
        proof {
            let target = Seq::new(
                old(self).frames().len(),
                |f: int|
                    if lo <= f < hi {
                        used
                    } else {
                        old(self).frames()[f]
                    },
            );
            assert forall|f: int| 0 <= f < target.len() implies self.frames()[f] == target[f] by {
                assert(self.frames()[f] == if lo <= f < frame { used } else { old(self).frames()[f] });
            }
            assert(self.frames() =~= Seq::new(
                old(self).frames().len(),
                |f: int|
                    if lo <= f < hi {
                        used
                    } else {
                        old(self).frames()[f]
                    },
            ));
        }
    }
}

// ----- building the bitmap from the memory map ------------------------------

/// End of the highest usable region of the memory map (0 if none).
pub open spec fn last_usable_end(entries: Seq<MemmapEntry>) -> nat
    decreases entries.len(),
{
    if entries.len() == 0 {
        0
    } else {
        let rest = last_usable_end(entries.drop_last());
        let e = entries.last();
        if e.type_ == MEMMAP_USABLE && e.base + e.length > rest {
            (e.base + e.length) as nat
        } else {
            rest
        }
    }
}

/// Bytes of bitmap needed to cover the frames below `last`.
pub open spec fn bitmap_bytes(last: nat) -> nat {
    (last / FRAME_SIZE as nat + 7) / 8
}

/// Region `i` is the first usable region of at least `bytes` bytes.
pub open spec fn is_first_large_usable(entries: Seq<MemmapEntry>, bytes: nat, i: int) -> bool {
    &&& 0 <= i < entries.len()
    &&& entries[i].type_ == MEMMAP_USABLE
    &&& entries[i].length >= bytes
    &&& forall|j: int|
        0 <= j < i ==> !((#[trigger] entries[j]).type_ == MEMMAP_USABLE && entries[j].length >= bytes)
}

/// The first usable region of at least `bytes` bytes.
pub open spec fn first_large_usable(entries: Seq<MemmapEntry>, bytes: nat) -> Option<int> {
    if exists|i: int| is_first_large_usable(entries, bytes, i) {
        Some(choose|i: int| is_first_large_usable(entries, bytes, i))
    } else {
        None
    }
}

/// Frame `f` lies in usable region `e`.
pub open spec fn in_usable(e: MemmapEntry, f: nat) -> bool {
    &&& e.type_ == MEMMAP_USABLE
    &&& e.base / FRAME_SIZE <= f < (e.base + e.length) / (FRAME_SIZE as int)
}

/// Whether frame `f` is in use once the bitmap is built: the frames of the
/// bitmap itself are, and so is every frame below the end of usable memory
/// that no usable region holds.
pub open spec fn initially_used(entries: Seq<MemmapEntry>, bitmap_addr: nat, f: nat) -> bool {
    let last = last_usable_end(entries);
    let bytes = bitmap_bytes(last);
    ||| bitmap_addr / FRAME_SIZE as nat <= f < (bitmap_addr + bytes + 0xFFF) / FRAME_SIZE as nat
    ||| (f < last / FRAME_SIZE as nat && !exists|i: int| 0 <= i < entries.len() && in_usable(#[trigger] entries[i], f))
}

/// What `init` needs of the memory map: every region's end fits in 64 bits;
/// a usable region can hold the bitmap; the bitmap's own frames are covered
/// by it; and every frame address it covers fits in 64 bits.
pub open spec fn memmap_ok(entries: Seq<MemmapEntry>) -> bool {
    let last = last_usable_end(entries);
    let bytes = bitmap_bytes(last);
    &&& forall|i: int| 0 <= i < entries.len() ==> (#[trigger] entries[i]).base + entries[i].length <= u64::MAX
    &&& bytes * 8 * FRAME_SIZE <= u64::MAX
    &&& first_large_usable(entries, bytes) matches Some(i) && {
        let a = entries[i].base;
        &&& a + bytes + 0xFFF <= u64::MAX
        &&& ((a + bytes + 0xFFF) / (FRAME_SIZE as int)) <= bytes * 8
    }
}

proof fn lemma_last_usable_end_bound(entries: Seq<MemmapEntry>, k: int)
    requires
        0 <= k <= entries.len(),
    ensures
        forall|i: int|
            0 <= i < k && (#[trigger] entries[i]).type_ == MEMMAP_USABLE ==> entries[i].base
                + entries[i].length <= last_usable_end(entries.take(k)),
        last_usable_end(entries.take(k)) == 0 || exists|i: int|
            0 <= i < k && entries[i].type_ == MEMMAP_USABLE && last_usable_end(entries.take(k))
                == entries[i].base + entries[i].length,
    decreases k,
{
    if k > 0 {
        lemma_last_usable_end_bound(entries, k - 1);
        assert(entries.take(k).drop_last() =~= entries.take(k - 1));
    }
}

proof fn lemma_first_large_usable_is(entries: Seq<MemmapEntry>, bytes: nat, i: int)
    requires
        is_first_large_usable(entries, bytes, i),
    ensures
        first_large_usable(entries, bytes) == Some(i),
{
    let k = choose|k: int| is_first_large_usable(entries, bytes, k);
    assert(is_first_large_usable(entries, bytes, k));
    if k < i {
        assert(!(entries[k].type_ == MEMMAP_USABLE && entries[k].length >= bytes));
    }
    if i < k {
        assert(!(entries[i].type_ == MEMMAP_USABLE && entries[i].length >= bytes));
    }
}

/// End of the highest usable region.
fn compute_last_usable_end(entries: &Vec<MemmapEntry>) -> (r: u64)
    requires
        forall|i: int| 0 <= i < entries@.len() ==> (#[trigger] entries@[i]).base + entries@[i].length <= u64::MAX,
    ensures
        r == last_usable_end(entries@),
{
    let n = entries.len();
    let mut i: usize = 0;
    let mut last: u64 = 0;
    while i < n
        invariant
            n == entries@.len(),
            0 <= i <= n,
            forall|j: int| 0 <= j < entries@.len() ==> (#[trigger] entries@[j]).base + entries@[j].length <= u64::MAX,
            last == last_usable_end(entries@.take(i as int)),
        decreases n - i,
    {
        let e = entries[i];
        proof {
            assert(entries@.take(i as int + 1).drop_last() =~= entries@.take(i as int));
            assert(entries@.take(i as int + 1).last() == e);
        }
        if e.type_ == MEMMAP_USABLE && e.base + e.length > last {
            last = e.base + e.length;
        }
        i = i + 1;
    }
    proof {
        assert(entries@.take(n as int) =~= entries@);
    }
    last
}

/// Base of the first usable region of at least `bytes` bytes.
fn find_bitmap_region(entries: &Vec<MemmapEntry>, bytes: u64) -> (r: u64)
    requires
        first_large_usable(entries@, bytes as nat) is Some,
    ensures
        r == entries@[first_large_usable(entries@, bytes as nat)->0].base,
{
    let n = entries.len();
    let mut i: usize = 0;
    while i < n
        invariant
            n == entries@.len(),
            0 <= i <= n,
            first_large_usable(entries@, bytes as nat) is Some,
            forall|j: int|
                0 <= j < i ==> !((#[trigger] entries@[j]).type_ == MEMMAP_USABLE && entries@[j].length >= bytes),
        decreases n - i,
    {
        let e = entries[i];
        if e.type_ == MEMMAP_USABLE && e.length >= bytes {
            proof {
                lemma_first_large_usable_is(entries@, bytes as nat, i as int);
            }
            return e.base;
        }
        i = i + 1;
    }
    proof {
        let k = choose|k: int| is_first_large_usable(entries@, bytes as nat, k);
        assert(!(entries@[k].type_ == MEMMAP_USABLE && entries@[k].length >= bytes));
    }
    0
}

/// Position of the first usable region of at least `bytes` bytes.
fn first_large_usable_index(entries: &Vec<MemmapEntry>, bytes: u64) -> (r: Option<usize>)
    ensures
        match first_large_usable(entries@, bytes as nat) {
            Some(i) => r == Some(i as usize),
            None => r is None,
        },
{
    let n = entries.len();
    let mut i: usize = 0;
    while i < n
        invariant
            n == entries@.len(),
            0 <= i <= n,
            forall|j: int|
                0 <= j < i ==> !((#[trigger] entries@[j]).type_ == MEMMAP_USABLE && entries@[j].length >= bytes),
        decreases n - i,
    {
        let e = entries[i];
        if e.type_ == MEMMAP_USABLE && e.length >= bytes {
            proof {
                lemma_first_large_usable_is(entries@, bytes as nat, i as int);
            }
            return Some(i);
        }
        i = i + 1;
    }
    proof {
        if exists|k: int| is_first_large_usable(entries@, bytes as nat, k) {
            let k = choose|k: int| is_first_large_usable(entries@, bytes as nat, k);
            assert(!(entries@[k].type_ == MEMMAP_USABLE && entries@[k].length >= bytes));
        }
    }
    None
}

/// Whether the bitmap can be built from the memory map (see `memmap_ok`).
pub fn init_possible(entries: &Vec<MemmapEntry>) -> (r: bool)
    ensures
        r == memmap_ok(entries@),
{
    let n = entries.len();
    let mut i: usize = 0;
    while i < n
        invariant
            n == entries@.len(),
            0 <= i <= n,
            forall|j: int| 0 <= j < i ==> (#[trigger] entries@[j]).base + entries@[j].length <= u64::MAX,
        decreases n - i,
    {
        let e = entries[i];
        if e.base > u64::MAX - e.length {
            proof {
                assert(!(entries@[i as int].base + entries@[i as int].length <= u64::MAX));
            }
            return false;
        }
        i = i + 1;
    }
    let last = compute_last_usable_end(entries);
    let bytes = (last / FRAME_SIZE + 7) / 8;
    if bytes > 0x1_FFFF_FFFF_FFFF {
        proof {
            assert(bytes * 8 * FRAME_SIZE > u64::MAX) by (nonlinear_arith)
                requires bytes > 0x1_FFFF_FFFF_FFFFu64;
        }
        return false;
    }
    proof {
        assert(bytes * 8 * FRAME_SIZE <= u64::MAX) by (nonlinear_arith)
            requires bytes <= 0x1_FFFF_FFFF_FFFFu64;
    }
    match first_large_usable_index(entries, bytes) {
        None => false,
        Some(k) => {
            let a = entries[k].base;
            if a > u64::MAX - bytes - 0xFFF {
                return false;
            }
            (a + bytes + 0xFFF) / FRAME_SIZE <= bytes * 8
        },
    }
}

impl FrameBitmap {
    /// Builds the frame bitmap from the memory map: it is sized for the
    /// frames below the end of usable memory and placed in the first usable
    /// region that can hold it; every frame below the end of usable memory
    /// is marked used, the frames of usable regions free, then the frames
    /// of the bitmap itself used.  The bitmap starts out zeroed, so the few
    /// frames past the end of usable memory that its last byte covers are
    /// free.
    pub fn init(entries: &Vec<MemmapEntry>) -> (b: FrameBitmap)
        requires
            memmap_ok(entries@),
        ensures
            b.wf(),
            b.size() == bitmap_bytes(last_usable_end(entries@)),
            b.addr() == entries@[first_large_usable(entries@, b.size())->0].base,
            forall|f: int|
                0 <= f < b.frames().len() ==> #[trigger] b.frames()[f] == initially_used(
                    entries@,
                    b.addr(),
                    f as nat,
                ),
    {
        let last = compute_last_usable_end(entries);
        let size = (last / FRAME_SIZE + 7) / 8;
        let addr = find_bitmap_region(entries, size);
        let mut b = FrameBitmap::empty(size, addr);
        let last_frame = last / FRAME_SIZE;
        proof {
            assert(last_frame <= size * 8);
        }
        b.set_range(0, last_frame, true);
        let n = entries.len();
        let mut i: usize = 0;
        while i < n
            invariant
                n == entries@.len(),
                0 <= i <= n,
                memmap_ok(entries@),
                last == last_usable_end(entries@),
                last_frame == last / FRAME_SIZE,
                b.wf(),
                b.size() == size,
                b.addr() == addr,
                size == bitmap_bytes(last as nat),
                b.frames().len() == size * 8,
                forall|f: int|
                    0 <= f < b.frames().len() ==> #[trigger] b.frames()[f] == (f < last_frame
                        && !exists|j: int| 0 <= j < i && in_usable(#[trigger] entries@[j], f as nat)),
            decreases n - i,
        {
            let e = entries[i];
            if e.type_ == MEMMAP_USABLE {
                let start_frame = e.base / FRAME_SIZE;
                let end_frame = (e.base + e.length) / FRAME_SIZE;
                proof {
                    lemma_last_usable_end_bound(entries@, n as int);
                    assert(entries@.take(n as int) =~= entries@);
                    assert(e.base + e.length <= last);
                    assert(end_frame <= last_frame);
                }
                b.set_range(start_frame, end_frame, false);
            }
            proof {
                assert forall|f: int| 0 <= f < b.frames().len() implies #[trigger] b.frames()[f] == (f
                    < last_frame && !exists|j: int| 0 <= j < i + 1 && in_usable(#[trigger] entries@[j], f as nat)) by {
                    if exists|j: int| 0 <= j < i + 1 && in_usable(#[trigger] entries@[j], f as nat) {
                        let j = choose|j: int| 0 <= j < i + 1 && in_usable(#[trigger] entries@[j], f as nat);
                        if j < i {
                            assert(exists|j: int| 0 <= j < i && in_usable(#[trigger] entries@[j], f as nat));
                        }
                    }
                }
            }
            i = i + 1;
        }
        let bm_start = addr / FRAME_SIZE;
        let bm_end = (addr + size + 0xFFF) / FRAME_SIZE;
        proof {
            lemma_first_large_usable_is(entries@, size as nat, first_large_usable(entries@, size as nat)->0);
        }
        b.set_range(bm_start, bm_end, true);
        proof {
            assert forall|f: int| 0 <= f < b.frames().len() implies #[trigger] b.frames()[f] == initially_used(
                entries@,
                b.addr(),
                f as nat,
            ) by {
            }
        }
        b
    }
}

// ----- laws -----------------------------------------------------------------

/// A frame handed out was free before and is used after; no other frame
/// changes; the address handed out is the frame's address.
pub proof fn law_alloc_takes_free_frame(frames: Seq<bool>, f: int)
    requires
        first_free_frame(frames) == Some(f),
    ensures
        0 <= f < frames.len(),
        !frames[f],
        frames.update(f, true)[f],
        forall|g: int| 0 <= g < frames.len() && g != f ==> frames.update(f, true)[g] == frames[g],
        forall|g: int| 0 <= g < f ==> frames[g],
{
    let k = choose|k: int| is_first_free(frames, k);
    assert(is_first_free(frames, k));
}

/// Freeing the frame just handed out gives back the frames as they were.
pub proof fn law_free_undoes_alloc(frames: Seq<bool>, f: int)
    requires
        first_free_frame(frames) == Some(f),
    ensures
        frames.update(f, true).update(f, false) =~= frames,
{
    let k = choose|k: int| is_first_free(frames, k);
    assert(is_first_free(frames, k));
}

} // verus!
