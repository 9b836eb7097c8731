//! The system call interface: the numbers and registers user space passes,
//! how the kernel decodes and answers a call, and how it grows a process's
//! heap.
use vstd::prelude::*;
use crate::trap::TrapFrame;
use crate::scheduler::{Scheduler, with_state};
use crate::process::{Process, ProcessState};
use crate::frames::FrameBitmap;
use crate::paging::{PageTables, can_map_fresh, fresh_pages_spec, map_all_spec};
use crate::framebuffer::{FramebufferDesc, chosen_framebuffer, get_framebuffer};
use crate::text::{dec_text, push_str, push_dec};
use vstd::string::StringSliceAdditionalSpecFns;
use vstd::utf8::valid_utf8;

verus! {

/// System call numbers.
pub const SYS_EXIT: u64 = 1;
pub const SYS_SLEEP: u64 = 2;
pub const SYS_DEBUG_WRITE: u64 = 3;
pub const SYS_GET_PID: u64 = 4;
pub const SYS_SBRK: u64 = 5;
pub const SYS_GET_FRAMEBUFFER: u64 = 6;

/// Value returned for an unknown system call.
pub const SYSCALL_UNKNOWN: u64 = u64::MAX;

/// Value returned for a call whose return address is not a canonical user
/// address: the call is refused.
pub const SYSCALL_BAD_RETURN: u64 = u64::MAX;

/// Errors of the framebuffer call: no place given to write the answer,
/// and no framebuffer.
pub const FB_ERR_NULL_INFO: u64 = 1;
pub const FB_ERR_NO_FRAMEBUFFER: u64 = 2;

/// Page flags of a page mapped for user space: present, writable, user.
pub const USER_PAGE_FLAGS: u64 = 0x7;

/// Virtual address at which the framebuffer is mapped for user space.
pub const USER_FB_MAP_START: u64 = 0x0000_7000_0000_0000;

/// First non-canonical user address; a return address at or above it
/// cannot be returned to with `sysret`.
pub const USER_ADDR_LIMIT: u64 = 0x0000_8000_0000_0000;

/// A system call as the registers carry it: the number in `rax`, the
/// arguments in `rdi`, `rsi`, `rdx`, `r10`, `r8` and `r9`.
#[derive(Clone, Copy, Debug, PartialEq, Eq)]
pub struct SyscallRequest {
    pub num: u64,
    pub args: (u64, u64, u64, u64, u64, u64),
}

/// Reads the system call from the saved registers.
pub fn decode_syscall(tf: &TrapFrame) -> (r: SyscallRequest)
    ensures
        r == (SyscallRequest { num: tf.rax, args: (tf.rdi, tf.rsi, tf.rdx, tf.r10, tf.r8, tf.r9) }),
{
    SyscallRequest { num: tf.rax, args: (tf.rdi, tf.rsi, tf.rdx, tf.r10, tf.r8, tf.r9) }
}

/// Puts a system call in the registers that carry it.
pub fn encode_syscall(req: &SyscallRequest, tf: &mut TrapFrame)
    ensures
        *final(tf) == (TrapFrame {
            rax: req.num,
            rdi: req.args.0,
            rsi: req.args.1,
            rdx: req.args.2,
            r10: req.args.3,
            r8: req.args.4,
            r9: req.args.5,
            ..*old(tf)
        }),
{
    tf.rax = req.num;
    tf.rdi = req.args.0;
    tf.rsi = req.args.1;
    tf.rdx = req.args.2;
    tf.r10 = req.args.3;
    tf.r8 = req.args.4;
    tf.r9 = req.args.5;
}

/// Decoding the registers that a call was encoded into gives the call back.
pub proof fn law_decode_encode(req: SyscallRequest, tf: TrapFrame)
    ensures
        ({
            let t = TrapFrame {
                rax: req.num,
                rdi: req.args.0,
                rsi: req.args.1,
                rdx: req.args.2,
                r10: req.args.3,
                r8: req.args.4,
                r9: req.args.5,
                ..tf
            };
            (SyscallRequest { num: t.rax, args: (t.rdi, t.rsi, t.rdx, t.r10, t.r8, t.r9) }) == req
        }),
{
}

/// What is left for the caller after the kernel has handled a call.
#[derive(Clone, Copy, Debug, PartialEq, Eq, Structural)]
pub enum SyscallAction {
    /// The process ended: switch to another process and never return.
    Exit,
    /// The process sleeps: switch to another process.
    Sleep,
    /// Print `len` bytes of the process's memory at `ptr`, tagged with `pid`.
    DebugWrite { pid: u64, ptr: u64, len: u64 },
    /// Grow the current process's heap by `pages` pages (see `sbrk`).
    Sbrk { pages: u64 },
    /// Map the framebuffer for the process and describe it at `info_ptr`.
    GetFramebuffer { info_ptr: u64 },
    /// Nothing more: the answer is in `rax`.
    Done,
}

/// What the kernel does with system call `req`.  `rax` is the answer when
/// the call is answered here; otherwise the action says what remains.
pub open spec fn syscall_result(req: SyscallRequest, current_pid: u64) -> (Option<u64>, SyscallAction) {
    if req.num == SYS_EXIT {
        (None, SyscallAction::Exit)
    } else if req.num == SYS_SLEEP {
        (Some(0), SyscallAction::Sleep)
    } else if req.num == SYS_DEBUG_WRITE {
        (Some(0), SyscallAction::DebugWrite { pid: current_pid, ptr: req.args.0, len: req.args.1 })
    } else if req.num == SYS_GET_PID {
        (Some(current_pid), SyscallAction::Done)
    } else if req.num == SYS_SBRK {
        (None, SyscallAction::Sbrk { pages: req.args.0 })
    } else if req.num == SYS_GET_FRAMEBUFFER {
        if req.args.0 == 0 {
            (Some(FB_ERR_NULL_INFO), SyscallAction::Done)
        } else {
            (None, SyscallAction::GetFramebuffer { info_ptr: req.args.0 })
        }
    } else {
        (Some(SYSCALL_UNKNOWN), SyscallAction::Done)
    }
}

/// The system call handler.  A call whose saved return address `rcx` is
/// not a canonical user address is refused: `rax` gets
/// `SYSCALL_BAD_RETURN` and nothing else happens.  Otherwise it decodes the
/// call from the saved registers; `exit` terminates the current process and
/// `sleep` blocks it; the answer, where the kernel gives one at once, is
/// written to `rax`; what needs other hardware or memory is returned as an
/// action.
pub fn syscall_handler_rust(sched: &mut Scheduler, tf: &mut TrapFrame) -> (act: SyscallAction)
    requires
        old(sched).wf(),
    ensures
        final(sched).wf(),
        final(sched).head == old(sched).head,
        final(sched).current == old(sched).current,
        final(sched).next_pid == old(sched).next_pid,
        old(tf).rcx >= USER_ADDR_LIMIT ==> {
            &&& act == SyscallAction::Done
            &&& *final(tf) == (TrapFrame { rax: SYSCALL_BAD_RETURN, ..*old(tf) })
            &&& final(sched).processes@ == old(sched).processes@
        },
        old(tf).rcx < USER_ADDR_LIMIT ==> ({
            let req = SyscallRequest {
                num: old(tf).rax,
                args: (old(tf).rdi, old(tf).rsi, old(tf).rdx, old(tf).r10, old(tf).r8, old(tf).r9),
            };
            let pid = match old(sched).current {
                Some(c) => old(sched).processes@[c as int].pid,
                None => 0,
            };
            let (rax, a) = syscall_result(req, pid);
            &&& act == a
            &&& match rax {
                Some(v) => *final(tf) == (TrapFrame { rax: v, ..*old(tf) }),
                None => *final(tf) == *old(tf),
            }
            &&& req.num == SYS_EXIT ==> match old(sched).current {
                None => final(sched).processes@ == old(sched).processes@,
                Some(c) => match crate::scheduler::first_with_pid(old(sched).processes@, pid) {
                    Some(i) => final(sched).processes@ == with_state(
                        old(sched).processes@,
                        i,
                        ProcessState::Terminated,
                    ),
                    None => final(sched).processes@ == old(sched).processes@,
                },
            }
            &&& req.num == SYS_SLEEP ==> match old(sched).current {
                None => final(sched).processes@ == old(sched).processes@,
                Some(c) => final(sched).processes@ == with_state(
                    old(sched).processes@,
                    c as int,
                    ProcessState::Blocked,
                ),
            }
            &&& req.num != SYS_EXIT && req.num != SYS_SLEEP ==> final(sched).processes@
                == old(sched).processes@
        }),
        old(sched).running_is_current() ==> final(sched).running_is_current(),
        old(sched).pids_unique() ==> final(sched).pids_unique(),
{
    if !return_address_ok(tf) {
        tf.rax = SYSCALL_BAD_RETURN;
        return SyscallAction::Done;
    }
    let req = decode_syscall(tf);
    let num = req.num;
    let arg1 = req.args.0;
    let arg2 = req.args.1;
    if num == SYS_EXIT {
        sched.kill_current();
        SyscallAction::Exit
    } else if num == SYS_SLEEP {
        sched.sleep_current(arg1);
        tf.rax = 0;
        SyscallAction::Sleep
    } else if num == SYS_DEBUG_WRITE {
        let pid = sched.current_pid();
        tf.rax = 0;
        SyscallAction::DebugWrite { pid, ptr: arg1, len: arg2 }
    } else if num == SYS_GET_PID {
        tf.rax = sched.current_pid();
        SyscallAction::Done
    } else if num == SYS_SBRK {
        SyscallAction::Sbrk { pages: arg1 }
    } else if num == SYS_GET_FRAMEBUFFER {
        if arg1 == 0 {
            tf.rax = FB_ERR_NULL_INFO;
            SyscallAction::Done
        } else {
            SyscallAction::GetFramebuffer { info_ptr: arg1 }
        }
    } else {
        tf.rax = SYSCALL_UNKNOWN;
        SyscallAction::Done
    }
}

/// Whether the return address in `rcx` is a canonical user address.
pub fn return_address_ok(tf: &TrapFrame) -> (r: bool)
    ensures
        r == (tf.rcx < USER_ADDR_LIMIT),
{
    tf.rcx < USER_ADDR_LIMIT
}

// ----- growing a process's heap ----------------------------------------------

/// Grows the heap of the current process by `pages` pages: each page at
/// the heap's end gets the first free frame and is mapped there for user
/// space, and the heap's end moves up a page (see `fresh_pages_spec`).
/// Returns the new heap end.
pub fn sbrk(sched: &mut Scheduler, tables: &mut PageTables, frames: &mut FrameBitmap, pages: u64) -> (new_end: u64)
    requires
        old(sched).wf(),
        old(tables).wf(),
        old(frames).wf(),
        old(sched).current is Some,
        ({
            let p = old(sched).processes@[old(sched).current->0 as int];
            can_map_fresh(old(tables)@, old(frames).frames(), p.pml4t, p.heap_end, pages as nat, USER_PAGE_FLAGS)
        }),
    ensures
        final(sched).wf(),
        final(tables).wf(),
        final(frames).wf(),
        final(frames).size() == old(frames).size(),
        final(sched).current == old(sched).current,
        final(sched).head == old(sched).head,
        final(sched).next_pid == old(sched).next_pid,
        ({
            let c = old(sched).current->0 as int;
            let p = old(sched).processes@[c];
            let (m, f, e, ok) = fresh_pages_spec(
                old(tables)@,
                old(frames).frames(),
                p.pml4t,
                p.heap_end,
                pages as nat,
                USER_PAGE_FLAGS,
            );
            &&& final(tables)@ == m
            &&& final(frames).frames() == f
            &&& new_end == e
            &&& final(sched).processes@ == old(sched).processes@.update(c, Process { heap_end: e, ..p })
        }),
{
    let c = match sched.current {
        Some(c) => c,
        None => {
            proof {
                assert(false);
            }
            0
        },
    };
    let mut p = sched.processes[c];
    let (end, _) = tables.map_fresh_pages(frames, p.pml4t, p.heap_end, pages, USER_PAGE_FLAGS);
    p.heap_end = end;
    sched.processes.set(c, p);
    end
}

/// Whether `sbrk` can grow the current process's heap by `pages` pages:
/// there is a current process and every page finds a free frame, a way
/// down the tables, and room below the top of the address space.
pub fn sbrk_possible(sched: &Scheduler, tables: &PageTables, frames: &FrameBitmap, pages: u64) -> (r: bool)
    requires
        sched.wf(),
        tables.wf(),
        frames.wf(),
    ensures
        r == (sched.current is Some && {
            let p = sched.processes@[sched.current->0 as int];
            can_map_fresh(tables@, frames.frames(), p.pml4t, p.heap_end, pages as nat, USER_PAGE_FLAGS)
        }),
{
    match sched.current {
        None => false,
        Some(c) => {
            let p = sched.processes[c];
            tables.can_map_fresh_pages(frames, p.pml4t, p.heap_end, pages, USER_PAGE_FLAGS)
        },
    }
}

// ----- the framebuffer call ---------------------------------------------------

/// The framebuffer as described to user space.
#[derive(Clone, Copy, Debug, PartialEq, Eq, Structural)]
pub struct FramebufferInfo {
    pub addr: u64,
    pub width: u32,
    pub height: u32,
    pub pitch: u32,
    pub bpp: u8,
}

/// The description of `fb` given to user space: mapped at
/// `USER_FB_MAP_START`, its sizes cut to the widths of the fields.
pub fn framebuffer_info(fb: &FramebufferDesc) -> (r: FramebufferInfo)
    ensures
        r == (FramebufferInfo {
            addr: USER_FB_MAP_START,
            width: fb.width as u32,
            height: fb.height as u32,
            pitch: fb.pitch as u32,
            bpp: fb.bpp as u8,
        }),
{
    FramebufferInfo {
        addr: USER_FB_MAP_START,
        width: fb.width as u32,
        height: fb.height as u32,
        pitch: fb.pitch as u32,
        bpp: fb.bpp as u8,
    }
}

/// The pages that map a framebuffer of `size` bytes at physical address
/// `phys` for user space: page `i` at `USER_FB_MAP_START + i * 0x1000` is
/// physical `phys + i * 0x1000`, for every page start below `phys + size`.
pub open spec fn fb_pages(phys: u64, size: u64) -> Seq<(u64, u64)> {
    Seq::new(
        (size as nat + 0xFFF) / 0x1000,
        |i: int| ((USER_FB_MAP_START + i * 0x1000) as u64, (phys + i * 0x1000) as u64),
    )
}

/// The pages that map a framebuffer of `size` bytes at physical address
/// `phys` for user space (see `fb_pages`).
pub fn framebuffer_mappings(phys: u64, size: u64) -> (r: Vec<(u64, u64)>)
    requires
        phys + size + 0x1000 <= u64::MAX,
        USER_FB_MAP_START + size + 0x1000 <= u64::MAX,
    ensures
        r@ == fb_pages(phys, size),
        r@.len() == (size as nat + 0xFFF) / 0x1000,
        forall|i: int|
            0 <= i < r@.len() ==> (#[trigger] r@[i]).0 == USER_FB_MAP_START + i * 0x1000 && r@[i].1 == phys
                + i * 0x1000,
{
    let end = phys + size;
    let mut out: Vec<(u64, u64)> = Vec::new();
    let mut addr = phys;
    let ghost count = (size as nat + 0xFFF) / 0x1000;
    while addr < end
        invariant
            end == phys + size,
            phys <= addr,
            addr <= end + 0xFFF,
            phys + size + 0x1000 <= u64::MAX,
            USER_FB_MAP_START + size + 0x1000 <= u64::MAX,
            addr == phys + out@.len() * 0x1000,
            addr < end ==> out@.len() < count,
            addr >= end ==> out@.len() == count,
            count == (size as nat + 0xFFF) / 0x1000,
            forall|i: int|
                0 <= i < out@.len() ==> (#[trigger] out@[i]).0 == USER_FB_MAP_START + i * 0x1000 && out@[i].1
                    == phys + i * 0x1000,
        decreases count - out@.len(),
    {
        out.push((USER_FB_MAP_START + (addr - phys), addr));
        addr = addr + 0x1000;
        proof {
            let k = out@.len();
            assert(addr == phys + k * 0x1000);
            assert((addr < end ==> k < count) && (addr >= end ==> k == count)) by (nonlinear_arith)
                requires
                    addr == phys + k * 0x1000,
                    end == phys + size,
                    count == (size + 0xFFF) / 0x1000,
                    k >= 1,
                    phys + (k - 1) * 0x1000 < end,
            ;
        }
    }
    proof {
        if size == 0 {
            assert(count == 0);
        }
        assert(out@ =~= fb_pages(phys, size));
    }
    out
}

// ----- finishing the calls the handler leaves to its caller -------------------

/// Finishes `sbrk`: grows the current process's heap by `pages` pages (see
/// `sbrk`) and answers the new heap end in `rax`.
pub fn finish_sbrk(
    sched: &mut Scheduler,
    tables: &mut PageTables,
    frames: &mut FrameBitmap,
    tf: &mut TrapFrame,
    pages: u64,
)
    requires
        old(sched).wf(),
        old(tables).wf(),
        old(frames).wf(),
        old(sched).current is Some,
        ({
            let p = old(sched).processes@[old(sched).current->0 as int];
            can_map_fresh(old(tables)@, old(frames).frames(), p.pml4t, p.heap_end, pages as nat, USER_PAGE_FLAGS)
        }),
    ensures
        final(sched).wf(),
        final(tables).wf(),
        final(frames).wf(),
        final(frames).size() == old(frames).size(),
        final(sched).current == old(sched).current,
        final(sched).head == old(sched).head,
        final(sched).next_pid == old(sched).next_pid,
        ({
            let c = old(sched).current->0 as int;
            let p = old(sched).processes@[c];
            let (m, f, e, ok) = fresh_pages_spec(
                old(tables)@,
                old(frames).frames(),
                p.pml4t,
                p.heap_end,
                pages as nat,
                USER_PAGE_FLAGS,
            );
            &&& final(tables)@ == m
            &&& final(frames).frames() == f
            &&& final(sched).processes@ == old(sched).processes@.update(c, Process { heap_end: e, ..p })
            &&& *final(tf) == (TrapFrame { rax: e, ..*old(tf) })
        }),
{
    let end = sbrk(sched, tables, frames, pages);
    tf.rax = end;
}

/// Physical address of framebuffer `fb`, whose address lies in the direct
/// map at `hhdm`.
pub open spec fn fb_phys(fb: FramebufferDesc, hhdm: u64) -> u64 {
    (fb.address - hhdm) as u64
}

/// Size in bytes of framebuffer `fb`: its height times its pitch.
pub open spec fn fb_size(fb: FramebufferDesc) -> u64 {
    (fb.height * fb.pitch) as u64
}

/// Whether framebuffer `fb` can be mapped for the current process: there
/// is one, the framebuffer lies in the direct map, its pages stay in the
/// address range, and each of them finds a way down the tables.
pub open spec fn can_map_framebuffer(
    sched: Scheduler,
    m: Map<u64, Seq<u64>>,
    fr: Seq<bool>,
    fb: FramebufferDesc,
    hhdm: u64,
) -> bool {
    &&& sched.current is Some
    &&& hhdm <= fb.address
    &&& fb.height * fb.pitch <= u64::MAX
    &&& fb_phys(fb, hhdm) + fb_size(fb) + 0x1000 <= u64::MAX
    &&& USER_FB_MAP_START + fb_size(fb) + 0x1000 <= u64::MAX
    &&& map_all_spec(
        m,
        fr,
        sched.processes@[sched.current->0 as int].pml4t,
        fb_pages(fb_phys(fb, hhdm), fb_size(fb)),
        USER_PAGE_FLAGS,
    ).2
}

/// Finishes the framebuffer call, whose description goes to a non-null
/// place: with no framebuffer the answer is `FB_ERR_NO_FRAMEBUFFER`;
/// otherwise the framebuffer chosen from `fbs` (see `get_framebuffer`) is
/// mapped page by page at `USER_FB_MAP_START` in the current process's
/// space, the answer is 0, and the description to write is returned.
pub fn finish_get_framebuffer(
    sched: &Scheduler,
    tables: &mut PageTables,
    frames: &mut FrameBitmap,
    tf: &mut TrapFrame,
    fbs: &Vec<FramebufferDesc>,
    hhdm: u64,
) -> (info: Option<FramebufferInfo>)
    requires
        sched.wf(),
        old(tables).wf(),
        old(frames).wf(),
        chosen_framebuffer(fbs@) matches Some(fb) ==> can_map_framebuffer(
            *sched,
            old(tables)@,
            old(frames).frames(),
            fb,
            hhdm,
        ),
    ensures
        final(tables).wf(),
        final(frames).wf(),
        final(frames).size() == old(frames).size(),
        final(frames).addr() == old(frames).addr(),
        match chosen_framebuffer(fbs@) {
            None => {
                &&& info is None
                &&& *final(tf) == (TrapFrame { rax: FB_ERR_NO_FRAMEBUFFER, ..*old(tf) })
                &&& final(tables)@ == old(tables)@
                &&& final(frames).frames() == old(frames).frames()
            },
            Some(fb) => {
                let (m, f, ok) = map_all_spec(
                    old(tables)@,
                    old(frames).frames(),
                    sched.processes@[sched.current->0 as int].pml4t,
                    fb_pages(fb_phys(fb, hhdm), fb_size(fb)),
                    USER_PAGE_FLAGS,
                );
                &&& info == Some(
                    FramebufferInfo {
                        addr: USER_FB_MAP_START,
                        width: fb.width as u32,
                        height: fb.height as u32,
                        pitch: fb.pitch as u32,
                        bpp: fb.bpp as u8,
                    },
                )
                &&& *final(tf) == (TrapFrame { rax: 0, ..*old(tf) })
                &&& final(tables)@ == m
                &&& final(frames).frames() == f
            },
        },
{
    let fb = match get_framebuffer(fbs) {
        Some(fb) => fb,
        None => {
            tf.rax = FB_ERR_NO_FRAMEBUFFER;
            return None;
        },
    };
    let c = match sched.current {
        Some(c) => c,
        None => {
            proof {
                assert(false);
            }
            0
        },
    };
    let phys = fb.address - hhdm;
    let size = fb.height * fb.pitch;
    let maps = framebuffer_mappings(phys, size);
    let pml4t = sched.processes[c].pml4t;
    tables.map_pages(frames, pml4t, &maps, USER_PAGE_FLAGS);
    tf.rax = 0;
    Some(framebuffer_info(&fb))
}

/// Whether `finish_get_framebuffer` can serve the call (see
/// `can_map_framebuffer`); true when there is no framebuffer to map.
pub fn get_framebuffer_possible(
    sched: &Scheduler,
    tables: &PageTables,
    frames: &FrameBitmap,
    fbs: &Vec<FramebufferDesc>,
    hhdm: u64,
) -> (r: bool)
    requires
        sched.wf(),
        tables.wf(),
        frames.wf(),
    ensures
        r == (chosen_framebuffer(fbs@) matches Some(fb) ==> can_map_framebuffer(
            *sched,
            tables@,
            frames.frames(),
            fb,
            hhdm,
        )),
{
    let fb = match get_framebuffer(fbs) {
        Some(fb) => fb,
        None => {
            return true;
        },
    };
    let c = match sched.current {
        Some(c) => c,
        None => {
            return false;
        },
    };
    if fb.address < hhdm {
        return false;
    }
    let phys = fb.address - hhdm;
    let size = match fb.height.checked_mul(fb.pitch) {
        Some(v) => v,
        None => {
            return false;
        },
    };
    let ok_phys = match phys.checked_add(size) {
        Some(e) => e.checked_add(0x1000).is_some(),
        None => false,
    };
    let ok_user = match USER_FB_MAP_START.checked_add(size) {
        Some(e) => e.checked_add(0x1000).is_some(),
        None => false,
    };
    if !ok_phys || !ok_user {
        return false;
    }
    let maps = framebuffer_mappings(phys, size);
    let pml4t = sched.processes[c].pml4t;
    tables.can_map_pages(frames, pml4t, &maps, USER_PAGE_FLAGS)
}

/// Whether `bytes` are UTF-8: `core::str::from_utf8` accepts exactly the
/// byte strings that are a well-formed UTF-8 encoding (`valid_utf8`).
#[verifier::external_body]
fn is_utf8(bytes: &[u8]) -> (r: bool)
    ensures
        r == valid_utf8(bytes@),
{
    core::str::from_utf8(bytes).is_ok()
}

/// The console line of a debug write by process `pid`: the tag with the
/// process id, then the message when it is UTF-8, else a placeholder.
pub open spec fn debug_line_text(pid: u64, msg: Seq<u8>, utf8: bool) -> Seq<u8> {
    "[DEBUG - PROCESS - PID=".spec_bytes() + dec_text(pid as nat) + "]: ".spec_bytes() + (if utf8 {
        msg
    } else {
        "<invalid utf-8 message>".spec_bytes()
    }) + seq![0x0Au8]
}

/// The console line of a debug write by `pid` of `msg`, given whether
/// `msg` is UTF-8 (see `debug_line_text`).
pub fn debug_line_from(pid: u64, msg: &[u8], utf8: bool) -> (line: Vec<u8>)
    ensures
        line@ == debug_line_text(pid, msg@, utf8),
{
    let mut out: Vec<u8> = Vec::new();
    push_str(&mut out, "[DEBUG - PROCESS - PID=");
    push_dec(&mut out, pid);
    push_str(&mut out, "]: ");
    if utf8 {
        let ghost before = out@;
        let mut i: usize = 0;
        while i < msg.len()
            invariant
                0 <= i <= msg@.len(),
                out@ == before + msg@.take(i as int),
            decreases msg@.len() - i,
        {
            out.push(msg[i]);
            i = i + 1;
            proof {
                assert(out@ =~= before + msg@.take(i as int));
            }
        }
        proof {
            assert(msg@.take(msg@.len() as int) =~= msg@);
        }
    } else {
        push_str(&mut out, "<invalid utf-8 message>");
    }
    out.push(0x0Au8);
    proof {
        assert(out@ =~= debug_line_text(pid, msg@, utf8));
    }
    out
}

/// The console line of a debug write by `pid` of `msg` (see
/// `debug_line_text`), with `msg` checked for UTF-8.
pub fn debug_line(pid: u64, msg: &[u8]) -> (line: Vec<u8>)
    ensures
        line@ == debug_line_text(pid, msg@, valid_utf8(msg@)),
{
    let utf8 = is_utf8(msg);
    debug_line_from(pid, msg, utf8)
}

// ----- enabling system calls ----------------------------------------------------

/// Model-specific registers used for system calls.
pub const MSR_EFER: u32 = 0xC000_0080;
pub const MSR_STAR: u32 = 0xC000_0081;
pub const MSR_LSTAR: u32 = 0xC000_0082;
pub const MSR_SFMASK: u32 = 0xC000_0084;
pub const MSR_KERNEL_GS_BASE: u32 = 0xC000_0102;

/// Segment selector bases loaded by `syscall` (kernel) and `sysret` (user).
pub const STAR_VALUE: u64 = (0x0008u64 << 32) | (0x0018u64 << 48);

/// RFLAGS bits cleared on `syscall`: the interrupt flag.
pub const SFMASK_VALUE: u64 = 0x200;

/// A write of `value` to model-specific register `msr`.
#[derive(Clone, Copy, Debug, PartialEq, Eq, Structural)]
pub struct MsrWrite {
    pub msr: u32,
    pub value: u64,
}

/// The data that the entry stub reaches through the kernel GS base: the
/// kernel stack to switch to, and the user stack saved there.
#[derive(Clone, Copy, Debug, PartialEq, Eq, Structural)]
pub struct KernelGsData {
    pub pad: u64,
    pub kernel_rsp: u64,
    pub user_rsp: u64,
}

/// The register writes that enable system calls, given the current EFER
/// and the address of the entry stub: EFER with system-call enable set,
/// the selector bases, the entry point, and interrupts masked on entry.
pub fn init(efer: u64, handler: u64) -> (ops: Vec<MsrWrite>)
    ensures
        ops@ == seq![
            MsrWrite { msr: MSR_EFER, value: efer | 1 },
            MsrWrite { msr: MSR_STAR, value: STAR_VALUE },
            MsrWrite { msr: MSR_LSTAR, value: handler },
            MsrWrite { msr: MSR_SFMASK, value: SFMASK_VALUE },
        ],
{
    let mut ops = Vec::new();
    ops.push(MsrWrite { msr: MSR_EFER, value: efer | 1 });
    ops.push(MsrWrite { msr: MSR_STAR, value: STAR_VALUE });
    ops.push(MsrWrite { msr: MSR_LSTAR, value: handler });
    ops.push(MsrWrite { msr: MSR_SFMASK, value: SFMASK_VALUE });
    proof {
        assert(ops@ =~= seq![
            MsrWrite { msr: MSR_EFER, value: efer | 1 },
            MsrWrite { msr: MSR_STAR, value: STAR_VALUE },
            MsrWrite { msr: MSR_LSTAR, value: handler },
            MsrWrite { msr: MSR_SFMASK, value: SFMASK_VALUE },
        ]);
    }
    ops
}

/// Sets the kernel stack that system calls switch to, and returns the
/// write that points the kernel GS base at the data at `gs_addr`.
pub fn set_kernel_stack(gs: &mut KernelGsData, kernel_rsp: u64, gs_addr: u64) -> (w: MsrWrite)
    ensures
        *final(gs) == (KernelGsData { kernel_rsp, ..*old(gs) }),
        w == (MsrWrite { msr: MSR_KERNEL_GS_BASE, value: gs_addr }),
{
    gs.kernel_rsp = kernel_rsp;
    MsrWrite { msr: MSR_KERNEL_GS_BASE, value: gs_addr }
}

} // verus!
