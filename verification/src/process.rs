//! Processes: their state, their file descriptor table, and how a kernel or
//! a user process is laid out when it is created.
use vstd::prelude::*;
use crate::trap::{TrapFrame, zero_frame};
use crate::kernel::{
    Kernel, MemState, kmalloc_spec, can_kmalloc, kernel_levels, lemma_levels_carry,
    lemma_levels_add_process,
};
use crate::paging::{map_all_spec, zero_table, lemma_low_flags, lemma_new_table_levels, lemma_map_all_levels};
use crate::frames::{first_free_frame, frame_addr};
use crate::scheduler::Scheduler;
use vstd::string::StringSliceAdditionalSpecFns;

verus! {

/// Number of slots of a file descriptor table.
pub const FD_TABLE_SIZE: usize = 64;

/// Bytes of a process name that are kept.
pub const PROCESS_NAME_LEN: usize = 32;

/// RFLAGS of a new process: interrupts enabled (IF) and the reserved bit 1.
pub const INITIAL_RFLAGS: u64 = 0x202;

/// Kernel code and data segment selectors.
pub const KERNEL_CS: u64 = 0x08;
pub const KERNEL_SS: u64 = 0x10;

/// User code and data segment selectors (requested privilege level 3).
pub const USER_CS: u64 = 0x2B;
pub const USER_SS: u64 = 0x23;

/// Virtual address at which a user process's stack is mapped.
pub const USER_STACK_BASE: u64 = 0x0000_7fff_0000_0000;

/// Virtual address at which a user process's heap starts.
pub const USER_HEAP_START: u64 = 0x0000_0010_0000_0000;

/// Size of the kernel stack page of a user process.
pub const KERNEL_STACK_PAGE_SIZE: u64 = 0x1000;

/// Page table flags of a user stack page: present, writable, user.
pub const USER_PAGE_FLAGS: u64 = 0x7;

/// Scheduling state of a process.
#[derive(Clone, Copy, Debug, PartialEq, Eq, Structural)]
pub enum ProcessState {
    Ready,
    Running,
    Blocked,
    Terminated,
}

impl ProcessState {
    /// Name of the state.
    pub fn as_str(&self) -> (r: &'static str)
        ensures
            *self == ProcessState::Ready ==> r@ == "Ready"@,
            *self == ProcessState::Running ==> r@ == "Running"@,
            *self == ProcessState::Blocked ==> r@ == "Blocked"@,
            *self == ProcessState::Terminated ==> r@ == "Terminated"@,
    {
        match self {
            ProcessState::Ready => "Ready",
            ProcessState::Running => "Running",
            ProcessState::Blocked => "Blocked",
            ProcessState::Terminated => "Terminated",
        }
    }

    /// Whether both states are the same state.
    pub fn eq(&self, other: &ProcessState) -> (r: bool)
        ensures
            r == (*self == *other),
    {
        match (self, other) {
            (ProcessState::Ready, ProcessState::Ready) => true,
            (ProcessState::Running, ProcessState::Running) => true,
            (ProcessState::Blocked, ProcessState::Blocked) => true,
            (ProcessState::Terminated, ProcessState::Terminated) => true,
            _ => false,
        }
    }
}

/// Open files of a process, by descriptor.
#[derive(Clone, Copy, Debug, PartialEq, Eq)]
pub struct FdTable {
    pub files: [Option<u64>; 64],
}

/// The first free slot of a descriptor table, if any.
pub open spec fn first_free_fd(files: Seq<Option<u64>>) -> Option<int> {
    if exists|i: int| 0 <= i < files.len() && files[i] is None && forall|j: int|
        0 <= j < i ==> #[trigger] files[j] is Some {
        Some(
            choose|i: int|
                0 <= i < files.len() && files[i] is None && forall|j: int|
                    0 <= j < i ==> #[trigger] files[j] is Some,
        )
    } else {
        None
    }
}

impl FdTable {
    /// A table with every slot free.
    pub fn new() -> (t: FdTable)
        ensures
            forall|i: int| 0 <= i < FD_TABLE_SIZE ==> t.files@[i] is None,
    {
        FdTable { files: [None; 64] }
    }

    /// Puts `file` in the first free slot and returns its descriptor, or
    /// returns `None` when every slot is taken.
    pub fn insert(&mut self, file: u64) -> (r: Option<usize>)
        ensures
            match first_free_fd(old(self).files@) {
                Some(i) => r == Some(i as usize) && final(self).files@ == old(self).files@.update(
                    i,
                    Some(file),
                ),
                None => r is None && final(self).files@ == old(self).files@,
            },
    {
        let mut i: usize = 0;
        while i < FD_TABLE_SIZE
            invariant
                0 <= i <= FD_TABLE_SIZE,
                self.files == old(self).files,
                forall|j: int| 0 <= j < i ==> #[trigger] self.files@[j] is Some,
            decreases FD_TABLE_SIZE - i,
        {
            if self.files[i].is_none() {
                proof {
                    let s = self.files@;
                    let k = choose|k: int|
                        0 <= k < s.len() && s[k] is None && forall|j: int|
                            0 <= j < k ==> #[trigger] s[j] is Some;
                    if k < i {
                        assert(s[k] is Some);
                    }
                    if k > i {
                        assert(s[i as int] is Some);
                    }
                }
                self.files[i] = Some(file);
                return Some(i);
            }
            i = i + 1;
        }
        None
    }

    /// The file in slot `fd`, if the slot exists and holds one.
    pub fn get(&mut self, fd: usize) -> (r: Option<&mut u64>)
        ensures
            fd < FD_TABLE_SIZE ==> match old(self).files@[fd as int] {
                Some(f) => r is Some && *r.unwrap() == f && final(self).files@ == old(
                    self,
                ).files@.update(fd as int, Some(*final(r.unwrap()))),
                None => r is None && final(self).files@ == old(self).files@,
            },
            fd >= FD_TABLE_SIZE ==> r is None && final(self).files@ == old(self).files@,
    {
        if fd < FD_TABLE_SIZE {
            self.files[fd].as_mut()
        } else {
            None
        }
    }

    /// Frees slot `fd`; returns whether it held a file.
    pub fn close(&mut self, fd: usize) -> (r: bool)
        ensures
            r == (fd < FD_TABLE_SIZE && old(self).files@[fd as int] is Some),
            r ==> final(self).files@ == old(self).files@.update(fd as int, None),
            !r ==> final(self).files@ == old(self).files@,
    {
        if fd < FD_TABLE_SIZE && self.files[fd].is_some() {
            self.files[fd] = None;
            true
        } else {
            false
        }
    }
}

/// A process.  Addresses are kept as integers; the processes form a list in
/// the scheduler, in the order they were created.
#[derive(Clone, Copy, Debug, PartialEq, Eq)]
pub struct Process {
    pub pid: u64,
    pub name: [u8; 32],
    pub state: ProcessState,
    pub trap_frame: TrapFrame,
    pub process_stack_base: u64,
    pub process_stack_top: u64,
    pub pml4t: u64,
    pub kernel_stack_page: u64,
    pub heap_start: u64,
    pub heap_end: u64,
    pub fd_table: FdTable,
}

/// The stored name: the first 32 bytes of `name`, padded with zeros.
pub open spec fn name_field(name: Seq<u8>) -> Seq<u8> {
    Seq::new(
        PROCESS_NAME_LEN as nat,
        |i: int|
            if i < name.len() {
                name[i]
            } else {
                0u8
            },
    )
}

/// Top of a stack of `size` bytes at `base`, rounded down to 16 bytes.
pub open spec fn stack_top(base: u64, size: u64) -> u64 {
    ((base + size) as u64 & !0xFu64) as u64
}

/// Copies the first 32 bytes of `name` into a zero-padded name field.
pub fn name_bytes(name: &str) -> (r: [u8; 32])
    ensures
        r@ == name_field(name.spec_bytes()),
{
    let bytes = name.as_bytes();
    let mut out = [0u8; 32];
    let len = if bytes.len() > PROCESS_NAME_LEN {
        PROCESS_NAME_LEN
    } else {
        bytes.len()
    };
    let mut i: usize = 0;
    while i < len
        invariant
            len <= PROCESS_NAME_LEN,
            len <= bytes@.len(),
            bytes@ == name.spec_bytes(),
            0 <= i <= len,
            forall|j: int| 0 <= j < i ==> out@[j] == bytes@[j],
            forall|j: int| i <= j < PROCESS_NAME_LEN ==> out@[j] == 0u8,
            len == (if bytes@.len() > PROCESS_NAME_LEN { PROCESS_NAME_LEN as int } else { bytes@.len() as int }),
        decreases len - i,
    {
        out[i] = bytes[i];
        i = i + 1;
    }
    proof {
        assert(out@ =~= name_field(name.spec_bytes()));
    }
    out
}

/// The kernel process laid out for `entry`: it runs on the stack of
/// `stack_size` bytes at `stack_base`, in the kernel's address space
/// `kernel_pml4t`, in kernel segments with interrupts enabled.  The other
/// fields are zero, as in the zeroed memory the process is allocated in.
pub open spec fn kernel_process_spec(
    pid: u64,
    entry: u64,
    stack_base: u64,
    stack_size: u64,
    kernel_pml4t: u64,
) -> Process {
    let top = stack_top(stack_base, stack_size);
    Process {
        pid,
        name: arbitrary(),
        state: ProcessState::Ready,
        trap_frame: TrapFrame {
            rip: entry,
            rsp: top,
            rflags: INITIAL_RFLAGS,
            cs: KERNEL_CS,
            ss: KERNEL_SS,
            ..zero_frame()
        },
        process_stack_base: stack_base,
        process_stack_top: top,
        pml4t: kernel_pml4t,
        kernel_stack_page: 0,
        heap_start: 0,
        heap_end: 0,
        fd_table: arbitrary(),
    }
}

/// The record of a kernel process (see `kernel_process_spec`).
pub fn kernel_process(
    pid: u64,
    entry: u64,
    name: &str,
    stack_base: u64,
    stack_size: u64,
    kernel_pml4t: u64,
) -> (p: Process)
    requires
        stack_base + stack_size <= u64::MAX,
    ensures
        p == (Process {
            name: p.name,
            fd_table: p.fd_table,
            ..kernel_process_spec(pid, entry, stack_base, stack_size, kernel_pml4t)
        }),
        p.name@ == name_field(name.spec_bytes()),
        forall|i: int| 0 <= i < FD_TABLE_SIZE ==> p.fd_table.files@[i] is None,
{
    let top = (stack_base + stack_size) & !0xFu64;
    let mut tf = TrapFrame::new();
    tf.rip = entry;
    tf.rsp = top;
    tf.rflags = INITIAL_RFLAGS;
    tf.cs = KERNEL_CS;
    tf.ss = KERNEL_SS;
    Process {
        pid,
        name: name_bytes(name),
        state: ProcessState::Ready,
        trap_frame: tf,
        process_stack_base: stack_base,
        process_stack_top: top,
        pml4t: kernel_pml4t,
        kernel_stack_page: 0,
        heap_start: 0,
        heap_end: 0,
        fd_table: FdTable::new(),
    }
}

/// The user process laid out for `entry`: its kernel-side stack of
/// `stack_size` bytes is at `stack_base`, it runs in address space `pml4t`
/// on the user stack mapped at `USER_STACK_BASE`, in user segments with
/// interrupts enabled, with an empty heap at `USER_HEAP_START` and the
/// kernel stack page `kernel_stack_page` for interrupts taken in user mode.
pub open spec fn user_process_spec(
    pid: u64,
    entry: u64,
    stack_base: u64,
    stack_size: u64,
    pml4t: u64,
    kernel_stack_page: u64,
) -> Process {
    Process {
        pid,
        name: arbitrary(),
        state: ProcessState::Ready,
        trap_frame: TrapFrame {
            rip: entry,
            rsp: ((USER_STACK_BASE + stack_size) as u64 & !0xFu64) as u64,
            rflags: INITIAL_RFLAGS,
            cs: USER_CS,
            ss: USER_SS,
            ..zero_frame()
        },
        process_stack_base: stack_base,
        process_stack_top: stack_top(stack_base, stack_size),
        pml4t,
        kernel_stack_page,
        heap_start: USER_HEAP_START,
        heap_end: USER_HEAP_START,
        fd_table: arbitrary(),
    }
}

/// The record of a user process (see `user_process_spec`).
pub fn user_process(
    pid: u64,
    entry: u64,
    name: &str,
    stack_base: u64,
    stack_size: u64,
    pml4t: u64,
    kernel_stack_page: u64,
) -> (p: Process)
    requires
        stack_base + stack_size <= u64::MAX,
        USER_STACK_BASE + stack_size <= u64::MAX,
    ensures
        p == (Process {
            name: p.name,
            fd_table: p.fd_table,
            ..user_process_spec(pid, entry, stack_base, stack_size, pml4t, kernel_stack_page)
        }),
        p.name@ == name_field(name.spec_bytes()),
        forall|i: int| 0 <= i < FD_TABLE_SIZE ==> p.fd_table.files@[i] is None,
{
    let top = (stack_base + stack_size) & !0xFu64;
    let mut tf = TrapFrame::new();
    tf.rsp = (USER_STACK_BASE + stack_size) & !0xFu64;
    tf.rip = entry;
    tf.rflags = INITIAL_RFLAGS;
    tf.cs = USER_CS;
    tf.ss = USER_SS;
    Process {
        pid,
        name: name_bytes(name),
        state: ProcessState::Ready,
        trap_frame: tf,
        process_stack_base: stack_base,
        process_stack_top: top,
        pml4t,
        kernel_stack_page,
        heap_start: USER_HEAP_START,
        heap_end: USER_HEAP_START,
        fd_table: FdTable::new(),
    }
}

/// Number of pages of a user stack of `stack_size` bytes.
pub open spec fn stack_pages(stack_size: u64) -> nat {
    (stack_size as nat + 0xFFF) / 0x1000
}

/// The pages that map a user stack: page `i` of the stack, at
/// `USER_STACK_BASE + i * 0x1000`, is backed by the physical page under the
/// kernel allocation `kernel_stack_virt + i * 0x1000`, taken as a
/// higher-half address `hhdm_offset` above it (the subtraction wraps).
pub open spec fn stack_mappings(kernel_stack_virt: u64, hhdm_offset: u64, stack_size: u64) -> Seq<(u64, u64)> {
    Seq::new(
        stack_pages(stack_size),
        |i: int|
            (
                (USER_STACK_BASE + i * 0x1000) as u64,
                ((kernel_stack_virt + i * 0x1000) as u64).wrapping_sub(hhdm_offset),
            ),
    )
}

/// The list of `stack_mappings`.
pub fn user_stack_mappings(kernel_stack_virt: u64, hhdm_offset: u64, stack_size: u64) -> (r: Vec<(u64, u64)>)
    requires
        stack_size as nat + 0xFFF <= u64::MAX,
        kernel_stack_virt + stack_pages(stack_size) * 0x1000 <= u64::MAX,
        USER_STACK_BASE + stack_pages(stack_size) * 0x1000 <= u64::MAX,
    ensures
        r@ == stack_mappings(kernel_stack_virt, hhdm_offset, stack_size),
{
    let pages = (stack_size + 0xFFF) / 0x1000;
    let mut out: Vec<(u64, u64)> = Vec::new();
    let mut i: u64 = 0;
    while i < pages
        invariant
            pages == stack_pages(stack_size),
            0 <= i <= pages,
            kernel_stack_virt + pages * 0x1000 <= u64::MAX,
            USER_STACK_BASE + pages * 0x1000 <= u64::MAX,
            out@ =~= stack_mappings(kernel_stack_virt, hhdm_offset, stack_size).take(i as int),
        decreases pages - i,
    {
        proof {
            assert(i * 0x1000 <= pages * 0x1000) by (nonlinear_arith)
                requires i <= pages;
        }
        let off = i * 0x1000;
        out.push((USER_STACK_BASE + off, (kernel_stack_virt + off).wrapping_sub(hhdm_offset)));
        i = i + 1;
        proof {
            assert(out@ =~= stack_mappings(kernel_stack_virt, hhdm_offset, stack_size).take(i as int));
        }
    }
    proof {
        assert(stack_mappings(kernel_stack_virt, hhdm_offset, stack_size).take(pages as int)
            =~= stack_mappings(kernel_stack_virt, hhdm_offset, stack_size));
    }
    out
}

// ----- creating processes in the kernel -------------------------------------

/// Bytes that a process record keeps for the link to the next record; the
/// process list holds that order itself, by position.
pub const PROCESS_LINK_SIZE: usize = 8;

/// Bytes of kernel heap that a process record takes: the process and the
/// link to the next record.
pub open spec fn record_size() -> nat {
    vstd::layout::size_of::<Process>() + PROCESS_LINK_SIZE as nat
}

/// The bytes a process record takes (see `record_size`).
pub fn process_record_size() -> (r: usize)
    ensures
        r == record_size(),
{
    vstd::layout::layout_for_type_is_valid::<Process>();
    core::mem::size_of::<Process>() + PROCESS_LINK_SIZE
}

/// The state after a new address space is made from the kernel's template
/// `template`: a zeroed top-level table in the first free frame, then the
/// template's entries copied into it; and the table's address.
pub open spec fn new_space_spec(m: MemState, template: u64) -> (MemState, u64) {
    let f = first_free_frame(m.3)->0;
    let pml4 = frame_addr(f as nat) as u64;
    let t1 = m.2.insert(pml4, zero_table());
    ((m.0, m.1, t1.insert(pml4, t1[template]), m.3.update(f, true)), pml4)
}

/// Whether a new address space can be made: a frame is free and the
/// template is a known table.
pub open spec fn can_new_space(m: MemState, template: u64) -> bool {
    first_free_frame(m.3) is Some && m.2.contains_key(template)
}

/// The state after each pair of `maps` is mapped in `pml4` with `flags`,
/// and whether every step could be taken.
pub open spec fn map_list_spec(m: MemState, pml4: u64, maps: Seq<(u64, u64)>, flags: u64) -> (MemState, bool) {
    let (t, f, ok) = map_all_spec(m.2, m.3, pml4, maps, flags);
    ((m.0, m.1, t, f), ok)
}

/// The state after a kernel process with id `pid` is created, and the
/// process: its record and then its stack of `stack_size` bytes are
/// allocated from the kernel heap, and it runs in the kernel's address
/// space `kpml4`.
pub open spec fn created_process(m: MemState, kpml4: u64, pid: u64, entry: u64, stack_size: nat) -> (MemState, Process) {
    let (m1, record) = kmalloc_spec(m, kpml4, record_size());
    let (m2, base) = kmalloc_spec(m1, kpml4, stack_size);
    (m2, kernel_process_spec(pid, entry, base as u64, stack_size as u64, kpml4))
}

/// Whether both allocations of `created_process` return.
pub open spec fn can_create_process(m: MemState, kpml4: u64, stack_size: nat) -> bool {
    let (m1, record) = kmalloc_spec(m, kpml4, record_size());
    &&& can_kmalloc(m, kpml4, record_size())
    &&& can_kmalloc(m1, kpml4, stack_size)
}

/// The state after a user process with id `pid` is created, and the
/// process: its record and its kernel-side stack are allocated, a new
/// address space is made from `template`, a second stack allocation backs
/// the user stack (see `stack_mappings`), mapped user-accessible, and a
/// page is allocated for the stack that interrupts from user mode use.
pub open spec fn created_user_process(
    m: MemState,
    kpml4: u64,
    template: u64,
    hhdm: u64,
    pid: u64,
    entry: u64,
    stack_size: nat,
) -> (MemState, Process) {
    let (m1, record) = kmalloc_spec(m, kpml4, record_size());
    let (m2, base) = kmalloc_spec(m1, kpml4, stack_size);
    let (m3, pml4) = new_space_spec(m2, template);
    let (m4, kstack) = kmalloc_spec(m3, kpml4, stack_size);
    let (m5, ok) = map_list_spec(m4, pml4, stack_mappings(kstack as u64, hhdm, stack_size as u64), USER_PAGE_FLAGS);
    let (m6, kpage) = kmalloc_spec(m5, kpml4, KERNEL_STACK_PAGE_SIZE as nat);
    (m6, user_process_spec(pid, entry, base as u64, stack_size as u64, pml4, kpage as u64))
}

/// Whether every step of `created_user_process` can be taken.
pub open spec fn can_create_user_process(m: MemState, kpml4: u64, template: u64, hhdm: u64, stack_size: nat) -> bool {
    let (m1, record) = kmalloc_spec(m, kpml4, record_size());
    let (m2, base) = kmalloc_spec(m1, kpml4, stack_size);
    let (m3, pml4) = new_space_spec(m2, template);
    let (m4, kstack) = kmalloc_spec(m3, kpml4, stack_size);
    let (m5, ok) = map_list_spec(m4, pml4, stack_mappings(kstack as u64, hhdm, stack_size as u64), USER_PAGE_FLAGS);
    &&& can_kmalloc(m, kpml4, record_size())
    &&& can_kmalloc(m1, kpml4, stack_size)
    &&& can_new_space(m2, template)
    &&& can_kmalloc(m3, kpml4, stack_size)
    &&& stack_size + 0xFFF <= u64::MAX
    &&& kstack + stack_pages(stack_size as u64) * 0x1000 <= u64::MAX
    &&& USER_STACK_BASE + stack_pages(stack_size as u64) * 0x1000 <= u64::MAX
    &&& ok
    &&& can_kmalloc(m5, kpml4, KERNEL_STACK_PAGE_SIZE as nat)
}

/// The process list after `p` is appended, as the kernel's contracts state
/// it: `p` is at position `idx`, with the given name and an empty file
/// table, the earlier processes unchanged, and the next id one higher.
pub open spec fn appended(old_s: Scheduler, new_s: Scheduler, idx: usize, p: Process, name: Seq<u8>) -> bool {
    &&& idx == old_s.processes@.len()
    &&& new_s.processes@.len() == idx + 1
    &&& new_s.processes@.take(idx as int) == old_s.processes@
    &&& new_s.processes@[idx as int] == (Process {
        name: new_s.processes@[idx as int].name,
        fd_table: new_s.processes@[idx as int].fd_table,
        ..p
    })
    &&& new_s.processes@[idx as int].name@ == name_field(name)
    &&& forall|i: int| 0 <= i < FD_TABLE_SIZE ==> new_s.processes@[idx as int].fd_table.files@[i] is None
    &&& new_s.next_pid == old_s.next_pid + 1
    &&& new_s.head == old_s.head
    &&& new_s.current == old_s.current
    &&& old_s.running_is_current() ==> new_s.running_is_current()
    &&& old_s.pids_unique() ==> new_s.pids_unique()
}

/// Creates a kernel process that starts at `entry` on a stack of
/// `stack_size` bytes and appends it to the process list (see
/// `created_process`).  Returns its position in the list.
pub fn create_process(k: &mut Kernel, entry: u64, name: &str, stack_size: usize) -> (idx: usize)
    requires
        old(k).wf(),
        can_create_process(old(k).mem(), old(k).kernel_pml4, stack_size as nat),
        old(k).sched.processes@.len() < usize::MAX,
        old(k).sched.next_pid < u64::MAX,
    ensures
        final(k).wf(),
        final(k).same_spaces(old(k)),
        ({
            let (m, p) = created_process(
                old(k).mem(),
                old(k).kernel_pml4,
                old(k).sched.next_pid,
                entry,
                stack_size as nat,
            );
            &&& final(k).mem() == m
            &&& appended(old(k).sched, final(k).sched, idx, p, name.spec_bytes())
        }),
{
    let _record = k.kmalloc(process_record_size());
    let ghost k0 = *k;
    let pid = k.sched.next_pid();
    proof {
        lemma_levels_carry(k0, *k);
    }
    let base = k.kmalloc(stack_size);
    proof {
        k.heap.lemma_brk_fits();
    }
    let p = kernel_process(pid, entry, name, base as u64, stack_size as u64, k.kernel_pml4);
    let ghost k1 = *k;
    let idx = k.sched.add_process(p);
    proof {
        assert(k.sched.processes@.take(idx as int) =~= old(k).sched.processes@);
        assert(k.sched.processes@.take(idx as int) =~= k1.sched.processes@);
        let lvl = choose|lvl: Map<u64, nat>| kernel_levels(k1, lvl);
        lemma_levels_add_process(k1, *k, lvl, k1.kernel_pml4);
    }
    idx
}

/// Whether `create_process` can create a process with a stack of
/// `stack_size` bytes (see `can_create_process`).
pub fn create_process_possible(k: &Kernel, stack_size: usize) -> (r: bool)
    requires
        k.wf(),
    ensures
        r == can_create_process(k.mem(), k.kernel_pml4, stack_size as nat),
{
    let mut c = k.scratch_copy();
    let rs = process_record_size();
    if !c.kmalloc_possible(rs) {
        return false;
    }
    let _record = c.kmalloc(rs);
    c.kmalloc_possible(stack_size)
}

/// Creates a user process that starts at `entry` with a stack of
/// `stack_size` bytes and appends it to the process list (see
/// `created_user_process`).  Returns its position in the list.
pub fn create_user_process(k: &mut Kernel, entry: u64, name: &str, stack_size: usize) -> (idx: usize)
    requires
        old(k).wf(),
        can_create_user_process(
            old(k).mem(),
            old(k).kernel_pml4,
            old(k).kernel_template,
            old(k).hhdm_offset,
            stack_size as nat,
        ),
        old(k).sched.processes@.len() < usize::MAX,
        old(k).sched.next_pid < u64::MAX,
    ensures
        final(k).wf(),
        final(k).same_spaces(old(k)),
        ({
            let (m, p) = created_user_process(
                old(k).mem(),
                old(k).kernel_pml4,
                old(k).kernel_template,
                old(k).hhdm_offset,
                old(k).sched.next_pid,
                entry,
                stack_size as nat,
            );
            &&& final(k).mem() == m
            &&& appended(old(k).sched, final(k).sched, idx, p, name.spec_bytes())
        }),
{
    let _record = k.kmalloc(process_record_size());
    let ghost k0 = *k;
    let pid = k.sched.next_pid();
    proof {
        lemma_levels_carry(k0, *k);
    }
    let base = k.kmalloc(stack_size);
    proof {
        k.heap.lemma_brk_fits();
    }
    let ghost k1 = *k;
    let pml4 = k.tables.get_new_pml4t(&mut k.frames, k.kernel_template);
    let ghost lvl1 = choose|lvl: Map<u64, nat>| kernel_levels(k1, lvl);
    let ghost lvl2 = lemma_new_table_levels(k1.tables@, k1.frames.frames(), k1.kernel_template, lvl1);
    proof {
        assert(kernel_levels(*k, lvl2));
    }
    let ghost k2 = *k;
    let kstack = k.kmalloc(stack_size);
    let ghost k3 = *k;
    let ghost lvl3 = choose|lvl3: Map<u64, nat>|
        #[trigger] kernel_levels(k3, lvl3) && crate::paging::levels_kept(k2.tables@, lvl2, lvl3);
    proof {
        assert(kernel_levels(k3, lvl3) && crate::paging::levels_kept(k2.tables@, lvl2, lvl3));
        assert(k2.tables@.contains_key(pml4));
    }
    let maps = user_stack_mappings(kstack as u64, k.hhdm_offset, stack_size as u64);
    proof {
        lemma_low_flags(USER_PAGE_FLAGS);
    }
    k.tables.map_pages(&mut k.frames, pml4, &maps, USER_PAGE_FLAGS);
    let ghost lvl4 = lemma_map_all_levels(k3.tables@, k3.frames.frames(), pml4, maps@, USER_PAGE_FLAGS, lvl3);
    proof {
        assert(kernel_levels(*k, lvl4));
    }
    let ghost k4 = *k;
    let kpage = k.kmalloc(KERNEL_STACK_PAGE_SIZE as usize);
    let ghost k5 = *k;
    let ghost lvl5 = choose|lvl5: Map<u64, nat>|
        #[trigger] kernel_levels(k5, lvl5) && crate::paging::levels_kept(k4.tables@, lvl4, lvl5);
    proof {
        assert(kernel_levels(k5, lvl5) && crate::paging::levels_kept(k4.tables@, lvl4, lvl5));
        assert(k4.tables@.contains_key(pml4));
    }
    let p = user_process(pid, entry, name, base as u64, stack_size as u64, pml4, kpage as u64);
    let idx = k.sched.add_process(p);
    proof {
        assert(k.sched.processes@.take(idx as int) =~= old(k).sched.processes@);
        assert(k.sched.processes@.take(idx as int) =~= k5.sched.processes@);
        lemma_levels_add_process(k5, *k, lvl5, pml4);
    }
    idx
}

/// Whether `create_user_process` can create a process with a stack of
/// `stack_size` bytes (see `can_create_user_process`).
pub fn create_user_process_possible(k: &Kernel, stack_size: usize) -> (r: bool)
    requires
        k.wf(),
    ensures
        r == can_create_user_process(k.mem(), k.kernel_pml4, k.kernel_template, k.hhdm_offset, stack_size as nat),
{
    let mut c = k.scratch_copy();
    let rs = process_record_size();
    if !c.kmalloc_possible(rs) {
        return false;
    }
    let _record = c.kmalloc(rs);
    if !c.kmalloc_possible(stack_size) {
        return false;
    }
    let _base = c.kmalloc(stack_size);
    if !c.frames.has_free_frame() || !c.tables.has_table(c.kernel_template) {
        return false;
    }
    let ghost c1 = c;
    let pml4 = c.tables.get_new_pml4t(&mut c.frames, c.kernel_template);
    let ghost lvl1 = choose|lvl: Map<u64, nat>| kernel_levels(c1, lvl);
    let ghost lvl2 = lemma_new_table_levels(c1.tables@, c1.frames.frames(), c1.kernel_template, lvl1);
    proof {
        assert(kernel_levels(c, lvl2));
    }
    if !c.kmalloc_possible(stack_size) {
        return false;
    }
    let ghost c2 = c;
    let kstack = c.kmalloc(stack_size);
    let ghost c3 = c;
    let ghost lvl3 = choose|lvl3: Map<u64, nat>|
        #[trigger] kernel_levels(c3, lvl3) && crate::paging::levels_kept(c2.tables@, lvl2, lvl3);
    proof {
        assert(kernel_levels(c3, lvl3) && crate::paging::levels_kept(c2.tables@, lvl2, lvl3));
        assert(c2.tables@.contains_key(pml4));
    }
    let ss = stack_size as u64;
    if ss > u64::MAX - 0xFFF {
        return false;
    }
    let span = ((ss + 0xFFF) / 0x1000) * 0x1000;
    if kstack as u64 > u64::MAX - span || USER_STACK_BASE > u64::MAX - span {
        return false;
    }
    let maps = user_stack_mappings(kstack as u64, c.hhdm_offset, ss);
    if !c.tables.can_map_pages(&c.frames, pml4, &maps, USER_PAGE_FLAGS) {
        return false;
    }
    proof {
        lemma_low_flags(USER_PAGE_FLAGS);
    }
    c.tables.map_pages(&mut c.frames, pml4, &maps, USER_PAGE_FLAGS);
    proof {
        let lvl4 = lemma_map_all_levels(c3.tables@, c3.frames.frames(), pml4, maps@, USER_PAGE_FLAGS, lvl3);
        assert(kernel_levels(c, lvl4));
    }
    c.kmalloc_possible(KERNEL_STACK_PAGE_SIZE as usize)
}

} // verus!
