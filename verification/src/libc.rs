//! The user-space side of the system call interface: the request each libc
//! call puts in the registers, and the libc heap.
use vstd::prelude::*;
use crate::syscall::{
    SyscallRequest, SyscallAction, syscall_result, SYS_EXIT, SYS_SLEEP, SYS_DEBUG_WRITE,
    SYS_GET_PID, SYS_SBRK, SYS_GET_FRAMEBUFFER,
};
use crate::heap::{
    Heap, BlockHeader, AllocStep, HEAP_PAGE_SIZE, BLOCK_HEADER_SIZE, first_fit, allocate_block,
    payload_addr, growth_pages, release_block, zeroed, handed_out_size, lemma_growth_covers,
    lemma_grown_block_first_fit,
};
use crate::process::USER_HEAP_START;

verus! {

/// Pages the libc heap starts with.
pub const DEFAULT_HEAP_SIZE_PAGES: usize = 1;

/// A request with number `num` and first two arguments `a1`, `a2`.
pub open spec fn request(num: u64, a1: u64, a2: u64) -> SyscallRequest {
    SyscallRequest { num, args: (a1, a2, 0, 0, 0, 0) }
}

/// Ends the process with `status`.
pub fn exit(status: u64) -> (r: SyscallRequest)
    ensures
        r == request(SYS_EXIT, status, 0),
{
    SyscallRequest { num: SYS_EXIT, args: (status, 0, 0, 0, 0, 0) }
}

/// Sleeps for `ms` milliseconds.
pub fn sleep(ms: u64) -> (r: SyscallRequest)
    ensures
        r == request(SYS_SLEEP, ms, 0),
{
    SyscallRequest { num: SYS_SLEEP, args: (ms, 0, 0, 0, 0, 0) }
}

/// Prints the `msg_len` bytes at `msg_ptr` on the kernel console.
pub fn debug_write(msg_ptr: u64, msg_len: u64) -> (r: SyscallRequest)
    ensures
        r == request(SYS_DEBUG_WRITE, msg_ptr, msg_len),
{
    SyscallRequest { num: SYS_DEBUG_WRITE, args: (msg_ptr, msg_len, 0, 0, 0, 0) }
}

/// Asks for the process id.
pub fn get_pid() -> (r: SyscallRequest)
    ensures
        r == request(SYS_GET_PID, 0, 0),
{
    SyscallRequest { num: SYS_GET_PID, args: (0, 0, 0, 0, 0, 0) }
}

/// Grows the process's heap by `pages` pages; the answer is the new end.
pub fn sbrk(pages: u64) -> (r: SyscallRequest)
    ensures
        r == request(SYS_SBRK, pages, 0),
{
    SyscallRequest { num: SYS_SBRK, args: (pages, 0, 0, 0, 0, 0) }
}

/// Asks for the framebuffer to be mapped and described at `info_ptr`; the
/// answer, read as a signed number, is 0 on success.
pub fn get_framebuffer(info_ptr: u64) -> (r: SyscallRequest)
    ensures
        r == request(SYS_GET_FRAMEBUFFER, info_ptr, 0),
{
    SyscallRequest { num: SYS_GET_FRAMEBUFFER, args: (info_ptr, 0, 0, 0, 0, 0) }
}

/// The framebuffer as the kernel describes it to user space.
#[derive(Clone, Copy, Debug, PartialEq, Eq, Structural)]
pub struct FramebufferInfo {
    pub addr: u64,
    pub width: u32,
    pub height: u32,
    pub pitch: u32,
    pub bpp: u8,
}

impl FramebufferInfo {
    /// An empty description: null address, every size zero.
    pub fn default() -> (r: FramebufferInfo)
        ensures
            r == (FramebufferInfo { addr: 0, width: 0, height: 0, pitch: 0, bpp: 0 }),
    {
        FramebufferInfo { addr: 0, width: 0, height: 0, pitch: 0, bpp: 0 }
    }
}

/// Each libc call reaches the kernel handler that serves it: exit ends the
/// process, sleep blocks it and answers 0, the debug write prints the given
/// bytes tagged with the process id and answers 0, the id call answers the
/// id, sbrk grows the heap by the given pages, and the framebuffer call
/// either answers the null-pointer error or asks for the framebuffer.
pub proof fn law_libc_calls_reach_handlers(status: u64, ms: u64, ptr: u64, len: u64, pages: u64, info: u64, pid: u64)
    ensures
        syscall_result(request(SYS_EXIT, status, 0), pid) == (None::<u64>, SyscallAction::Exit),
        syscall_result(request(SYS_SLEEP, ms, 0), pid) == (Some(0u64), SyscallAction::Sleep),
        syscall_result(request(SYS_DEBUG_WRITE, ptr, len), pid) == (
            Some(0u64),
            SyscallAction::DebugWrite { pid, ptr, len },
        ),
        syscall_result(request(SYS_GET_PID, 0, 0), pid) == (Some(pid), SyscallAction::Done),
        syscall_result(request(SYS_SBRK, pages, 0), pid) == (None::<u64>, SyscallAction::Sbrk { pages }),
        info != 0 ==> syscall_result(request(SYS_GET_FRAMEBUFFER, info, 0), pid) == (
            None::<u64>,
            SyscallAction::GetFramebuffer { info_ptr: info },
        ),
        info == 0 ==> syscall_result(request(SYS_GET_FRAMEBUFFER, info, 0), pid) == (
            Some(1u64),
            SyscallAction::Done,
        ),
{
}

/// The libc heap at the start of the user heap, one page long, holding one
/// free block.
pub fn memory_init() -> (h: Heap)
    requires
        USER_HEAP_START + HEAP_PAGE_SIZE <= usize::MAX,
    ensures
        h.wf(),
        h.start() == USER_HEAP_START,
        h.brk() == USER_HEAP_START + HEAP_PAGE_SIZE,
        h.blocks() == seq![
            BlockHeader { size: (HEAP_PAGE_SIZE - BLOCK_HEADER_SIZE) as usize, free: true },
        ],
{
    Heap::new(USER_HEAP_START as usize, DEFAULT_HEAP_SIZE_PAGES)
}


/// Allocation from the libc heap: the same first-fit step as the kernel's
/// (see `Heap::kmalloc`).  When the heap must grow, the caller asks the
/// kernel for the pages (`sbrk`), grows the heap by them and asks again.
pub fn malloc(heap: &mut Heap, size: usize) -> (r: AllocStep)
    requires
        old(heap).wf(),
    ensures
        final(heap).wf(),
        final(heap).start() == old(heap).start(),
        final(heap).brk() == old(heap).brk(),
        final(heap).aligned_links() == old(heap).aligned_links(),
        match first_fit(old(heap).blocks(), size as nat) {
            Some(i) => {
                &&& r == AllocStep::Allocated(payload_addr(old(heap).start() as int, old(heap).blocks(), i) as usize)
                &&& final(heap).blocks() == allocate_block(old(heap).blocks(), i, size as nat)
                &&& final(heap).contents() == zeroed(
                    old(heap).contents(),
                    payload_addr(old(heap).start() as int, old(heap).blocks(), i) - old(heap).start(),
                    handed_out_size(old(heap).blocks()[i], size as nat) as int,
                )
            },
            None => {
                &&& r == AllocStep::Grow(growth_pages(size as nat) as usize)
                &&& final(heap).blocks() == old(heap).blocks()
                &&& final(heap).contents() == old(heap).contents()
            },
        },
{
    heap.kmalloc(size)
}

/// The rest of `malloc` once the kernel has answered the `sbrk` that asked
/// for `growth_pages(size)` pages: a null answer means no memory, and
/// `malloc` gives a null pointer (`None`) with the heap left as it was;
/// otherwise the heap grows by those pages into one new free block, which
/// serves the request.
pub fn malloc_after_sbrk(heap: &mut Heap, size: usize, new_break: u64) -> (r: Option<usize>)
    requires
        old(heap).wf(),
        first_fit(old(heap).blocks(), size as nat) is None,
        old(heap).brk() + growth_pages(size as nat) * HEAP_PAGE_SIZE <= usize::MAX,
    ensures
        final(heap).wf(),
        final(heap).start() == old(heap).start(),
        final(heap).aligned_links() == old(heap).aligned_links(),
        new_break == 0 ==> {
            &&& r is None
            &&& final(heap).brk() == old(heap).brk()
            &&& final(heap).blocks() == old(heap).blocks()
            &&& final(heap).contents() == old(heap).contents()
        },
        new_break != 0 ==> {
            let pages = growth_pages(size as nat);
            let g = old(heap).blocks().push(
                BlockHeader { size: (pages * HEAP_PAGE_SIZE - BLOCK_HEADER_SIZE) as usize, free: true },
            );
            let i = old(heap).blocks().len() as int;
            &&& final(heap).brk() == old(heap).brk() + pages * HEAP_PAGE_SIZE
            &&& r == Some(payload_addr(old(heap).start() as int, g, i) as usize)
            &&& final(heap).blocks() == allocate_block(g, i, size as nat)
            &&& forall|o: int|
                payload_addr(old(heap).start() as int, g, i) - old(heap).start() <= o < payload_addr(
                    old(heap).start() as int,
                    g,
                    i,
                ) - old(heap).start() + size ==> #[trigger] final(heap).contents()[o] == 0
        },
{
    if new_break == 0 {
        return None;
    }
    let pages = size / HEAP_PAGE_SIZE + (size % HEAP_PAGE_SIZE + BLOCK_HEADER_SIZE + HEAP_PAGE_SIZE - 1) / HEAP_PAGE_SIZE;
    proof {
        lemma_growth_covers(size as nat);
    }
    heap.grow(pages);
    proof {
        lemma_grown_block_first_fit(old(heap).blocks(), size as nat);
    }
    match heap.kmalloc(size) {
        AllocStep::Allocated(p) => Some(p),
        AllocStep::Grow(_) => {
            proof {
                assert(false);
            }
            None
        },
    }
}

/// Gives back the block at `ptr` to the libc heap (see `Heap::kfree`); a
/// null pointer is ignored.
pub fn free(heap: &mut Heap, ptr: usize)
    requires
        old(heap).wf(),
        ptr != 0 ==> exists|k: int|
            0 <= k < old(heap).blocks().len() && payload_addr(old(heap).start() as int, old(heap).blocks(), k)
                == ptr,
    ensures
        final(heap).wf(),
        final(heap).start() == old(heap).start(),
        final(heap).brk() == old(heap).brk(),
        final(heap).contents() == old(heap).contents(),
        ptr == 0 ==> final(heap).blocks() == old(heap).blocks(),
        ptr != 0 ==> exists|k: int|
            0 <= k < old(heap).blocks().len() && payload_addr(old(heap).start() as int, old(heap).blocks(), k)
                == ptr && final(heap).blocks() == release_block(old(heap).blocks(), k),
{
    heap.kfree(ptr)
}

} // verus!
