//! The interrupt descriptor table and the dispatch of an interrupt to the
//! controller acknowledgement, the scheduler, or a fatal fault.
use vstd::prelude::*;
use crate::trap::TrapFrame;
use crate::scheduler::{Scheduler, SwitchAction, first_with_pid, save_current, pick_next, with_state};
use crate::process::ProcessState;

verus! {

/// Number of vectors in the table.
pub const IDT_ENTRIES: usize = 256;

/// Size in bytes of one gate descriptor.
pub const IDT_ENTRY_SIZE: usize = 16;

/// Code segment selector of the handlers.
pub const KERNEL_CODE_SELECTOR: u16 = 0x08;

/// Gate type and attributes: present 64-bit interrupt gate.
pub const INTERRUPT_GATE: u8 = 0x8E;

/// First and last vector of the remapped controller lines.
pub const IRQ_BASE: u64 = 0x20;
pub const IRQ_LAST: u64 = 0x2F;

/// Vector of the scheduling interrupt (timer and yield).
pub const SCHEDULE_VECTOR: u64 = 0x30;

/// Vector of a page fault.
pub const PAGE_FAULT_VECTOR: u64 = 14;

/// One gate descriptor.
#[derive(Clone, Copy, Debug, PartialEq, Eq, Structural)]
pub struct IdtEntry {
    pub offset_low: u16,
    pub selector: u16,
    pub ist: u8,
    pub type_attr: u8,
    pub offset_mid: u16,
    pub offset_high: u32,
    pub zero: u32,
}

/// The operand of `lidt`: the table's last byte offset and its address.
#[derive(Clone, Copy, Debug, PartialEq, Eq, Structural)]
pub struct IdtPointer {
    pub limit: u16,
    pub base: u64,
}

/// Handler address held by a gate.
pub open spec fn gate_offset(e: IdtEntry) -> int {
    e.offset_low as int + e.offset_mid as int * 0x1_0000 + e.offset_high as int * 0x1_0000_0000
}

/// The interrupt gate for a handler at `offset`.
pub fn idt_entry(offset: u64) -> (e: IdtEntry)
    ensures
        gate_offset(e) == offset,
        e.selector == KERNEL_CODE_SELECTOR,
        e.ist == 0,
        e.type_attr == INTERRUPT_GATE,
        e.zero == 0,
{
    let low = (offset & 0xFFFF) as u16;
    let mid = ((offset >> 16) & 0xFFFF) as u16;
    let high = (offset >> 32) as u32;
    proof {
        assert(offset == (offset & 0xFFFF) + ((offset >> 16) & 0xFFFF) * 0x1_0000 + (offset >> 32)
            * 0x1_0000_0000) by (bit_vector);
        assert((offset & 0xFFFF) < 0x1_0000) by (bit_vector);
        assert(((offset >> 16) & 0xFFFF) < 0x1_0000) by (bit_vector);
        assert((offset >> 32) < 0x1_0000_0000) by (bit_vector);
    }
    IdtEntry {
        offset_low: low,
        selector: KERNEL_CODE_SELECTOR,
        ist: 0,
        type_attr: INTERRUPT_GATE,
        offset_mid: mid,
        offset_high: high,
        zero: 0,
    }
}

/// The table: one interrupt gate per handler address, in vector order.
pub fn build_idt(handlers: &Vec<u64>) -> (t: Vec<IdtEntry>)
    ensures
        t@.len() == handlers@.len(),
        forall|i: int|
            0 <= i < t@.len() ==> gate_offset(#[trigger] t@[i]) == handlers@[i] && t@[i].selector
                == KERNEL_CODE_SELECTOR && t@[i].type_attr == INTERRUPT_GATE && t@[i].ist == 0
                && t@[i].zero == 0,
{
    let mut t: Vec<IdtEntry> = Vec::new();
    let n = handlers.len();
    let mut i: usize = 0;
    while i < n
        invariant
            n == handlers@.len(),
            0 <= i <= n,
            t@.len() == i,
            forall|j: int|
                0 <= j < i ==> gate_offset(#[trigger] t@[j]) == handlers@[j] && t@[j].selector
                    == KERNEL_CODE_SELECTOR && t@[j].type_attr == INTERRUPT_GATE && t@[j].ist == 0
                    && t@[j].zero == 0,
        decreases n - i,
    {
        t.push(idt_entry(handlers[i]));
        i = i + 1;
    }
    t
}

/// The `lidt` operand for the 256-entry table at `base`.
pub fn idt_pointer(base: u64) -> (p: IdtPointer)
    ensures
        p.limit == IDT_ENTRIES * IDT_ENTRY_SIZE - 1,
        p.base == base,
{
    IdtPointer { limit: (IDT_ENTRIES * IDT_ENTRY_SIZE - 1) as u16, base }
}

/// Why a fault stops the kernel.
#[derive(Clone, Copy, Debug, PartialEq, Eq, Structural)]
pub enum FatalKind {
    /// A process was current when the fault came.
    ProcessFault,
    /// A page fault with no process current.
    PageFault,
    /// Any other vector with no process current.
    Unhandled,
}

/// What the dispatcher did with an interrupt.
#[derive(Clone, Copy, Debug, PartialEq, Eq, Structural)]
pub enum InterruptOutcome {
    /// A controller line: its end of interrupt must be sent.
    Hardware { irq: u8 },
    /// The scheduling vector: the timer must be reset before and
    /// acknowledged after; the switch, if any, is given.
    Scheduled { switch: Option<SwitchAction> },
    /// A fault: the kernel stops; the current process, if it was running,
    /// was terminated first.
    Fatal { kind: FatalKind, killed: bool },
}

/// The interrupt dispatcher.  With a current process, the interrupt stack
/// is set to that process's stack top (returned first).  A controller line
/// is acknowledged; the scheduling vector runs the scheduler; any other
/// vector is fatal, terminating the current process first if it is running.
pub fn isr_dispatch(sched: &mut Scheduler, tf: &mut TrapFrame) -> (r: (Option<u64>, InterruptOutcome))
    requires
        old(sched).wf(),
    ensures
        final(sched).wf(),
        final(sched).head == old(sched).head,
        final(sched).next_pid == old(sched).next_pid,
        r.0 == match old(sched).current {
            Some(c) => Some(old(sched).processes@[c as int].process_stack_top),
            None => None::<u64>,
        },
        IRQ_BASE <= old(tf).int_no <= IRQ_LAST ==> {
            &&& r.1 == InterruptOutcome::Hardware { irq: (old(tf).int_no - IRQ_BASE) as u8 }
            &&& final(sched).processes@ == old(sched).processes@
            &&& final(sched).current == old(sched).current
            &&& *final(tf) == *old(tf)
        },
        old(tf).int_no == SCHEDULE_VECTOR ==> r.1 is Scheduled && match old(sched).current {
            None => final(sched).processes@ == old(sched).processes@ && *final(tf) == *old(tf),
            Some(c) => {
                let saved = save_current(old(sched).processes@, c as int, *old(tf));
                match pick_next(saved, c as int) {
                    None => r.1 == (InterruptOutcome::Scheduled { switch: None })
                        && final(sched).processes@ == saved && *final(tf) == *old(tf),
                    Some(n) => r.1->switch is Some && final(sched).processes@ == with_state(
                        saved,
                        n,
                        ProcessState::Running,
                    ) && final(sched).current == Some(n as usize) && *final(tf) == saved[n].trap_frame,
                }
            },
        },
        !(IRQ_BASE <= old(tf).int_no <= IRQ_LAST) && old(tf).int_no != SCHEDULE_VECTOR ==> {
            &&& *final(tf) == *old(tf)
            &&& final(sched).current == old(sched).current
            &&& match old(sched).current {
                Some(c) => {
                    let running = old(sched).processes@[c as int].state == ProcessState::Running;
                    let pid = old(sched).processes@[c as int].pid;
                    &&& r.1 == (InterruptOutcome::Fatal { kind: FatalKind::ProcessFault, killed: running })
                    &&& running ==> match first_with_pid(old(sched).processes@, pid) {
                        Some(i) => final(sched).processes@ == with_state(
                            old(sched).processes@,
                            i,
                            ProcessState::Terminated,
                        ),
                        None => final(sched).processes@ == old(sched).processes@,
                    }
                    &&& !running ==> final(sched).processes@ == old(sched).processes@
                },
                None => {
                    &&& final(sched).processes@ == old(sched).processes@
                    &&& r.1 == (InterruptOutcome::Fatal {
                        kind: if old(tf).int_no == PAGE_FAULT_VECTOR {
                            FatalKind::PageFault
                        } else {
                            FatalKind::Unhandled
                        },
                        killed: false,
                    })
                },
            }
        },
        old(sched).running_is_current() ==> final(sched).running_is_current(),
        old(sched).pids_unique() ==> final(sched).pids_unique(),
{
    let stack = match sched.current {
        Some(c) => Some(sched.processes[c].process_stack_top),
        None => None,
    };
    let v = tf.int_no;
    if v >= IRQ_BASE && v <= IRQ_LAST {
        return (stack, InterruptOutcome::Hardware { irq: (v - IRQ_BASE) as u8 });
    }
    if v == SCHEDULE_VECTOR {
        let switch = sched.schedule(tf);
        return (stack, InterruptOutcome::Scheduled { switch });
    }
    match sched.current {
        Some(c) => {
            let running = sched.processes[c].state.eq(&ProcessState::Running);
            if running {
                sched.kill_current();
            }
            (stack, InterruptOutcome::Fatal { kind: FatalKind::ProcessFault, killed: running })
        },
        None => {
            let kind = if v == PAGE_FAULT_VECTOR {
                FatalKind::PageFault
            } else {
                FatalKind::Unhandled
            };
            (stack, InterruptOutcome::Fatal { kind, killed: false })
        },
    }
}

} // verus!
