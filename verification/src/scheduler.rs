//! Round-robin scheduler over the list of processes.
use vstd::prelude::*;
use crate::trap::TrapFrame;
use crate::process::{Process, ProcessState};

verus! {

/// Offset from a user process's kernel stack page to the top of that page.
pub const KERNEL_STACK_TOP_OFFSET: u64 = 0x1000;

/// What the CPU must be told after a switch to another process: the stack
/// for interrupts (TSS rsp0), the address space to load into CR3, and the
/// stack that system calls enter on.
#[derive(Clone, Copy, Debug, PartialEq, Eq, Structural)]
pub struct SwitchAction {
    pub kernel_stack_top: u64,
    pub pml4t: u64,
    pub syscall_stack_top: u64,
}

/// The scheduler: the process list, its head once scheduling has begun, the
/// running process, and the next process id to hand out.
pub struct Scheduler {
    pub processes: Vec<Process>,
    pub head: Option<usize>,
    pub current: Option<usize>,
    pub next_pid: u64,
}

/// Process `i` is the first ready process at or after `lo`.
pub open spec fn is_first_ready(procs: Seq<Process>, lo: int, i: int) -> bool {
    &&& lo <= i < procs.len()
    &&& 0 <= i
    &&& procs[i].state == ProcessState::Ready
    &&& forall|j: int| lo <= j < i ==> (#[trigger] procs[j]).state != ProcessState::Ready
}

/// The first ready process at or after `lo`, if any.
pub open spec fn first_ready_from(procs: Seq<Process>, lo: int) -> Option<int> {
    if exists|i: int| is_first_ready(procs, lo, i) {
        Some(choose|i: int| is_first_ready(procs, lo, i))
    } else {
        None
    }
}

/// The process that runs after `cur`: the first ready one after it in the
/// list, or else the first ready one from the head.
pub open spec fn pick_next(procs: Seq<Process>, cur: int) -> Option<int> {
    match first_ready_from(procs, cur + 1) {
        Some(i) => Some(i),
        None => first_ready_from(procs, 0),
    }
}

/// The list after the interrupted process `cur` is put aside: if it was
/// running, its registers are saved and it becomes ready.
pub open spec fn save_current(procs: Seq<Process>, cur: int, tf: TrapFrame) -> Seq<Process> {
    if procs[cur].state == ProcessState::Running {
        procs.update(cur, Process { trap_frame: tf, state: ProcessState::Ready, ..procs[cur] })
    } else {
        procs
    }
}

/// `procs` with the state of process `i` set to `st`.
pub open spec fn with_state(procs: Seq<Process>, i: int, st: ProcessState) -> Seq<Process> {
    procs.update(i, Process { state: st, ..procs[i] })
}

/// Process `i` is the first process with id `pid`.
pub open spec fn is_first_with_pid(procs: Seq<Process>, pid: u64, i: int) -> bool {
    &&& 0 <= i < procs.len()
    &&& procs[i].pid == pid
    &&& forall|j: int| 0 <= j < i ==> (#[trigger] procs[j]).pid != pid
}

/// The first process with id `pid`, if any.
pub open spec fn first_with_pid(procs: Seq<Process>, pid: u64) -> Option<int> {
    if exists|i: int| is_first_with_pid(procs, pid, i) {
        Some(choose|i: int| is_first_with_pid(procs, pid, i))
    } else {
        None
    }
}

proof fn lemma_first_with_pid_is(procs: Seq<Process>, pid: u64, i: int)
    requires
        is_first_with_pid(procs, pid, i),
    ensures
        first_with_pid(procs, pid) == Some(i),
{
    let k = choose|k: int| is_first_with_pid(procs, pid, k);
    assert(is_first_with_pid(procs, pid, k));
    if k < i {
        assert(procs[k].pid != pid);
    }
    if i < k {
        assert(procs[i].pid != pid);
    }
}

proof fn lemma_first_ready_is(procs: Seq<Process>, lo: int, i: int)
    requires
        is_first_ready(procs, lo, i),
    ensures
        first_ready_from(procs, lo) == Some(i),
{
    let k = choose|k: int| is_first_ready(procs, lo, k);
    assert(is_first_ready(procs, lo, k));
    if k < i {
        assert(procs[k].state != ProcessState::Ready);
    }
    if i < k {
        assert(procs[i].state != ProcessState::Ready);
    }
}

proof fn lemma_ready_has_first(procs: Seq<Process>, lo: int, j: int)
    requires
        0 <= lo <= j < procs.len(),
        procs[j].state == ProcessState::Ready,
    ensures
        exists|i: int| is_first_ready(procs, lo, i),
    decreases j - lo,
{
    if exists|m: int| lo <= m < j && (#[trigger] procs[m]).state == ProcessState::Ready {
        let m = choose|m: int| lo <= m < j && (#[trigger] procs[m]).state == ProcessState::Ready;
        lemma_ready_has_first(procs, lo, m);
    } else {
        assert(is_first_ready(procs, lo, j));
    }
}

/// How many steps process `x` lies after process `cur` when the list of
/// `len` processes is walked round from `cur + 1`: `cur` itself comes last.
pub open spec fn ring_distance(cur: int, x: int, len: int) -> int {
    if x > cur {
        x - cur - 1
    } else {
        x - cur - 1 + len
    }
}

/// Round robin: whenever some process is ready, the one picked to run
/// after `cur` is ready, and it is the first ready process met when the
/// list is walked round from the one after `cur` (coming back to `cur`
/// last), so no ready process is passed over.
pub proof fn law_pick_next_is_next_ready_in_ring(procs: Seq<Process>, cur: int, j: int)
    requires
        0 <= cur < procs.len(),
        0 <= j < procs.len(),
        procs[j].state == ProcessState::Ready,
    ensures
        pick_next(procs, cur) is Some,
        ({
            let n = pick_next(procs, cur)->0;
            &&& 0 <= n < procs.len()
            &&& procs[n].state == ProcessState::Ready
            &&& forall|x: int|
                0 <= x < procs.len() && (#[trigger] procs[x]).state == ProcessState::Ready
                    ==> ring_distance(cur, n, procs.len() as int) <= ring_distance(cur, x, procs.len() as int)
        }),
{
    let lo = cur + 1;
    if exists|i: int| is_first_ready(procs, lo, i) {
        let i = choose|i: int| is_first_ready(procs, lo, i);
        lemma_first_ready_is(procs, lo, i);
        assert forall|x: int|
            0 <= x < procs.len() && (#[trigger] procs[x]).state == ProcessState::Ready implies ring_distance(
            cur,
            i,
            procs.len() as int,
        ) <= ring_distance(cur, x, procs.len() as int) by {
            if cur < x && x < i {
                assert(procs[x].state != ProcessState::Ready);
            }
        }
    } else {
        assert forall|x: int| lo <= x < procs.len() implies (#[trigger] procs[x]).state
            != ProcessState::Ready by {
            if procs[x].state == ProcessState::Ready {
                lemma_ready_has_first(procs, lo, x);
            }
        }
        assert(first_ready_from(procs, lo) is None);
        lemma_ready_has_first(procs, 0, j);
        let i = choose|i: int| is_first_ready(procs, 0, i);
        lemma_first_ready_is(procs, 0, i);
        assert forall|x: int|
            0 <= x < procs.len() && (#[trigger] procs[x]).state == ProcessState::Ready implies ring_distance(
            cur,
            i,
            procs.len() as int,
        ) <= ring_distance(cur, x, procs.len() as int) by {
            if x < i {
                assert(procs[x].state != ProcessState::Ready);
            }
        }
    }
}

/// The list and the current process after one scheduling step from the
/// current process `cur` (see `Scheduler::schedule`): `cur` is put aside
/// with the registers `tf`, and the next ready process in ring order, if
/// any, runs.
pub open spec fn schedule_step(procs: Seq<Process>, cur: int, tf: TrapFrame) -> (Seq<Process>, int) {
    let saved = save_current(procs, cur, tf);
    match pick_next(saved, cur) {
        Some(n) => (with_state(saved, n, ProcessState::Running), n),
        None => (saved, cur),
    }
}

/// The list and the current process after `j` scheduling steps, the
/// registers put aside at step `i` being `tfs[i]`.
pub open spec fn schedule_steps(procs: Seq<Process>, cur: int, tfs: Seq<TrapFrame>, j: nat) -> (
    Seq<Process>,
    int,
)
    decreases j,
{
    if j == 0 {
        (procs, cur)
    } else {
        let (p1, c1) = schedule_step(procs, cur, tfs[0]);
        schedule_steps(p1, c1, tfs.drop_first(), (j - 1) as nat)
    }
}

proof fn lemma_ready_is_reached(procs: Seq<Process>, cur: int, q: int, tfs: Seq<TrapFrame>)
    requires
        0 <= cur < procs.len(),
        0 <= q < procs.len(),
        procs[q].state == ProcessState::Ready,
        tfs.len() >= ring_distance(cur, q, procs.len() as int) + 1,
    ensures
        exists|j: nat|
            1 <= j <= ring_distance(cur, q, procs.len() as int) + 1 && (#[trigger] schedule_steps(
                procs,
                cur,
                tfs,
                j,
            )).1 == q,
    decreases ring_distance(cur, q, procs.len() as int),
{
    let len = procs.len() as int;
    let saved = save_current(procs, cur, tfs[0]);
    assert(saved.len() == len);
    assert(saved[q].state == ProcessState::Ready);
    law_pick_next_is_next_ready_in_ring(saved, cur, q);
    let n = pick_next(saved, cur)->0;
    let p1 = with_state(saved, n, ProcessState::Running);
    assert(schedule_step(procs, cur, tfs[0]) == (p1, n));
    assert(schedule_steps(procs, cur, tfs, 1) == schedule_steps(p1, n, tfs.drop_first(), 0));
    if n == q {
        assert(schedule_steps(procs, cur, tfs, 1).1 == q);
    } else {
        assert(ring_distance(cur, n, len) < ring_distance(cur, q, len));
        assert(ring_distance(n, q, len) == ring_distance(cur, q, len) - ring_distance(cur, n, len) - 1);
        assert(p1[q].state == ProcessState::Ready);
        lemma_ready_is_reached(p1, n, q, tfs.drop_first());
        let j1 = choose|j: nat|
            1 <= j <= ring_distance(n, q, len) + 1 && (#[trigger] schedule_steps(p1, n, tfs.drop_first(), j)).1
                == q;
        assert(schedule_steps(procs, cur, tfs, j1 + 1) == schedule_steps(p1, n, tfs.drop_first(), j1));
        assert(schedule_steps(procs, cur, tfs, j1 + 1).1 == q);
    }
}

/// No starvation: while scheduling steps follow one another, a process
/// that is ready runs within as many steps as there are processes.
pub proof fn law_round_robin_no_starvation(procs: Seq<Process>, cur: int, q: int, tfs: Seq<TrapFrame>)
    requires
        0 <= cur < procs.len(),
        0 <= q < procs.len(),
        procs[q].state == ProcessState::Ready,
        tfs.len() >= procs.len(),
    ensures
        exists|j: nat| 1 <= j <= procs.len() && (#[trigger] schedule_steps(procs, cur, tfs, j)).1 == q,
{
    lemma_ready_is_reached(procs, cur, q, tfs);
}

impl Scheduler {
    /// Positions are in the list; the head, once set, is the first process;
    /// scheduling begins only with a head.
    pub open spec fn wf(&self) -> bool {
        &&& self.current matches Some(c) ==> c < self.processes@.len()
        &&& self.head matches Some(h) ==> h == 0 && self.processes@.len() > 0
        &&& self.current is Some ==> self.head is Some
    }

    /// Only the current process may be running.
    pub open spec fn running_is_current(&self) -> bool {
        forall|i: int|
            0 <= i < self.processes@.len() && (#[trigger] self.processes@[i]).state
                == ProcessState::Running ==> self.current == Some(i as usize)
    }

    /// Process ids are distinct and below the next id to hand out.
    pub open spec fn pids_unique(&self) -> bool {
        &&& forall|i: int| 0 <= i < self.processes@.len() ==> (#[trigger] self.processes@[i]).pid < self.next_pid
        &&& forall|i: int, j: int|
            0 <= i < j < self.processes@.len() ==> (#[trigger] self.processes@[i]).pid
                != (#[trigger] self.processes@[j]).pid
    }

    /// A scheduler with no process; ids start at 1.
    pub fn new() -> (s: Scheduler)
        ensures
            s.wf(),
            s.running_is_current(),
            s.pids_unique(),
            s.processes@.len() == 0,
            s.head is None,
            s.current is None,
            s.next_pid == 1,
    {
        Scheduler { processes: Vec::new(), head: None, current: None, next_pid: 1 }
    }

    /// Hands out the next process id.
    pub fn next_pid(&mut self) -> (pid: u64)
        requires
            old(self).next_pid < u64::MAX,
        ensures
            pid == old(self).next_pid,
            final(self).next_pid == old(self).next_pid + 1,
            final(self).processes == old(self).processes,
            final(self).head == old(self).head,
            final(self).current == old(self).current,
    {
        let pid = self.next_pid;
        self.next_pid = self.next_pid + 1;
        pid
    }

    /// Appends a process at the end of the list.
    pub fn add_process(&mut self, p: Process) -> (idx: usize)
        requires
            old(self).wf(),
            old(self).processes@.len() < usize::MAX,
        ensures
            final(self).wf(),
            idx == old(self).processes@.len(),
            final(self).processes@ == old(self).processes@.push(p),
            final(self).head == old(self).head,
            final(self).current == old(self).current,
            final(self).next_pid == old(self).next_pid,
            old(self).running_is_current() && p.state != ProcessState::Running
                ==> final(self).running_is_current(),
    {
        let idx = self.processes.len();
        self.processes.push(p);
        idx
    }

    /// Starts scheduling at the head of the list.
    pub fn init(&mut self)
        requires
            old(self).wf(),
        ensures
            final(self).wf(),
            final(self).processes == old(self).processes,
            final(self).next_pid == old(self).next_pid,
            old(self).processes@.len() > 0 ==> final(self).head == Some(0usize) && final(self).current
                == Some(0usize),
            old(self).processes@.len() == 0 ==> final(self).head is None && final(self).current is None,
    {
        if self.processes.len() > 0 {
            self.head = Some(0);
            self.current = Some(0);
        } else {
            self.head = None;
            self.current = None;
        }
    }

    /// The first ready process at or after `lo`.
    fn find_ready(&self, lo: usize) -> (r: Option<usize>)
        ensures
            match first_ready_from(self.processes@, lo as int) {
                Some(i) => r == Some(i as usize) && lo <= i < self.processes@.len(),
                None => r is None,
            },
    {
        let n = self.processes.len();
        let mut i = lo;
        while i < n
            invariant
                n == self.processes@.len(),
                lo <= i,
                forall|j: int| lo <= j < i ==> (#[trigger] self.processes@[j]).state != ProcessState::Ready,
            decreases n - i,
        {
            if self.processes[i].state.eq(&ProcessState::Ready) {
                proof {
                    lemma_first_ready_is(self.processes@, lo as int, i as int);
                }
                return Some(i);
            }
            i = i + 1;
        }
        None
    }

    /// Scheduling on a timer tick or a yield.  If a process is current and
    /// running, the interrupted registers `tf` are saved into it and it
    /// becomes ready.  The next ready process after it in the list (or else
    /// from the head) becomes the running current process and its saved
    /// registers are loaded into `tf`; the returned action tells which
    /// stacks and address space to switch to.  With no current process, or
    /// no ready process, nothing is switched.
    pub fn schedule(&mut self, tf: &mut TrapFrame) -> (r: Option<SwitchAction>)
        requires
            old(self).wf(),
        ensures
            final(self).wf(),
            final(self).head == old(self).head,
            final(self).next_pid == old(self).next_pid,
            match old(self).current {
                None => {
                    &&& r is None
                    &&& final(self).processes@ == old(self).processes@
                    &&& final(self).current is None
                    &&& *final(tf) == *old(tf)
                },
                Some(c) => {
                    let saved = save_current(old(self).processes@, c as int, *old(tf));
                    match pick_next(saved, c as int) {
                        None => {
                            &&& r is None
                            &&& final(self).processes@ == saved
                            &&& final(self).current == old(self).current
                            &&& *final(tf) == *old(tf)
                        },
                        Some(n) => {
                            &&& final(self).processes@ == with_state(saved, n, ProcessState::Running)
                            &&& final(self).current == Some(n as usize)
                            &&& *final(tf) == saved[n].trap_frame
                            &&& r == Some(
                                SwitchAction {
                                    kernel_stack_top: saved[n].process_stack_top,
                                    pml4t: saved[n].pml4t,
                                    syscall_stack_top: saved[n].kernel_stack_page.wrapping_add(
                                        KERNEL_STACK_TOP_OFFSET,
                                    ),
                                },
                            )
                        },
                    }
                },
            },
            old(self).current matches Some(c) ==> ({
                let (procs, next) = schedule_step(old(self).processes@, c as int, *old(tf));
                &&& final(self).processes@ == procs
                &&& final(self).current == Some(next as usize)
            }),
            old(self).running_is_current() ==> final(self).running_is_current(),
            old(self).pids_unique() ==> final(self).pids_unique(),
    {
        let c = match self.current {
            None => {
                return None;
            },
            Some(c) => c,
        };
        let len = self.processes.len();
        let mut cp = self.processes[c];
        if cp.state.eq(&ProcessState::Running) {
            cp.trap_frame.copy_from(tf);
            cp.state = ProcessState::Ready;
            self.processes.set(c, cp);
        }
        let ghost saved = self.processes@;
        proof {
            assert(saved =~= save_current(old(self).processes@, c as int, *old(tf)));
        }
        let next = match self.find_ready(c + 1) {
            Some(i) => Some(i),
            None => self.find_ready(0),
        };
        let n = match next {
            None => {
                return None;
            },
            Some(n) => n,
        };
        self.current = Some(n);
        let mut np = self.processes[n];
        let action = SwitchAction {
            kernel_stack_top: np.process_stack_top,
            pml4t: np.pml4t,
            syscall_stack_top: np.kernel_stack_page.wrapping_add(KERNEL_STACK_TOP_OFFSET),
        };
        tf.copy_from(&np.trap_frame);
        np.state = ProcessState::Running;
        self.processes.set(n, np);
        proof {
            assert(self.processes@ =~= with_state(saved, n as int, ProcessState::Running));
            if old(self).running_is_current() {
                assert forall|i: int|
                    0 <= i < self.processes@.len() && (#[trigger] self.processes@[i]).state
                        == ProcessState::Running implies self.current == Some(i as usize) by {
                    if i != n {
                        assert(saved[i] == self.processes@[i]);
                        if i != c {
                            assert(old(self).processes@[i] == saved[i]);
                            assert(old(self).current == Some(i as usize));
                            assert(false);
                        } else {
                            if old(self).processes@[c as int].state == ProcessState::Running {
                                assert(saved[c as int].state == ProcessState::Ready);
                            } else {
                                assert(saved[c as int] == old(self).processes@[c as int]);
                            }
                            assert(false);
                        }
                    }
                }
            }
            if old(self).pids_unique() {
                assert forall|i: int| 0 <= i < self.processes@.len() implies (#[trigger] self.processes@[i]).pid
                    == old(self).processes@[i].pid by {}
            }
        }
        Some(action)
    }

    /// Position of the first process with id `pid`.
    fn find_pid(&self, pid: u64) -> (r: Option<usize>)
        ensures
            match first_with_pid(self.processes@, pid) {
                Some(i) => r == Some(i as usize) && 0 <= i < self.processes@.len(),
                None => r is None,
            },
    {
        let n = self.processes.len();
        let mut i: usize = 0;
        while i < n
            invariant
                n == self.processes@.len(),
                0 <= i <= n,
                forall|j: int| 0 <= j < i ==> (#[trigger] self.processes@[j]).pid != pid,
            decreases n - i,
        {
            if self.processes[i].pid == pid {
                proof {
                    lemma_first_with_pid_is(self.processes@, pid, i as int);
                }
                return Some(i);
            }
            i = i + 1;
        }
        None
    }

    /// Marks the first process with id `pid` as terminated; returns whether
    /// one was found.
    pub fn kill_process_pid(&mut self, pid: u64) -> (found: bool)
        requires
            old(self).wf(),
        ensures
            final(self).wf(),
            final(self).head == old(self).head,
            final(self).current == old(self).current,
            final(self).next_pid == old(self).next_pid,
            match first_with_pid(old(self).processes@, pid) {
                Some(i) => found && final(self).processes@ == with_state(
                    old(self).processes@,
                    i,
                    ProcessState::Terminated,
                ),
                None => !found && final(self).processes@ == old(self).processes@,
            },
            old(self).running_is_current() ==> final(self).running_is_current(),
            old(self).pids_unique() ==> final(self).pids_unique(),
    {
        let n = self.processes.len();
        let r = self.find_pid(pid);
        match r {
            None => false,
            Some(i) => {
                proof {
                    assert(self.processes@ == old(self).processes@);
                    assert(first_with_pid(old(self).processes@, pid) is Some);
                    let k = first_with_pid(old(self).processes@, pid)->0;
                    assert(r == Some(k as usize));
                    assert(0 <= k < self.processes@.len());
                    assert(k == i as int);
                }
                let mut p = self.processes[i];
                p.state = ProcessState::Terminated;
                self.processes.set(i, p);
                proof {
                    assert(self.processes@ =~= with_state(old(self).processes@, i as int, ProcessState::Terminated));
                    assert forall|k: int| 0 <= k < self.processes@.len() implies (#[trigger] self.processes@[k]).pid
                        == old(self).processes@[k].pid by {}
                    assert forall|k: int| 0 <= k < self.processes@.len() && k != i implies (#[trigger] self.processes@[k]).state
                        == old(self).processes@[k].state by {}
                }
                true
            },
        }
    }

    /// Terminates the current process (found by its id); returns whether a
    /// process was terminated.
    pub fn kill_current(&mut self) -> (found: bool)
        requires
            old(self).wf(),
        ensures
            final(self).wf(),
            final(self).head == old(self).head,
            final(self).current == old(self).current,
            final(self).next_pid == old(self).next_pid,
            match old(self).current {
                None => !found && final(self).processes@ == old(self).processes@,
                Some(c) => match first_with_pid(old(self).processes@, old(self).processes@[c as int].pid) {
                    Some(i) => found && final(self).processes@ == with_state(
                        old(self).processes@,
                        i,
                        ProcessState::Terminated,
                    ),
                    None => !found && final(self).processes@ == old(self).processes@,
                },
            },
            old(self).running_is_current() ==> final(self).running_is_current(),
            old(self).pids_unique() ==> final(self).pids_unique(),
    {
        match self.current {
            None => false,
            Some(c) => {
                let pid = self.processes[c].pid;
                self.kill_process_pid(pid)
            },
        }
    }

    /// Blocks the current process.  Returns whether there was one, in which
    /// case a switch to another process must be requested.  The sleep time
    /// is not used: a blocked process stays blocked.
    pub fn sleep_current(&mut self, ms: u64) -> (blocked: bool)
        requires
            old(self).wf(),
        ensures
            final(self).wf(),
            final(self).head == old(self).head,
            final(self).current == old(self).current,
            final(self).next_pid == old(self).next_pid,
            blocked == old(self).current is Some,
            match old(self).current {
                None => final(self).processes@ == old(self).processes@,
                Some(c) => final(self).processes@ == with_state(
                    old(self).processes@,
                    c as int,
                    ProcessState::Blocked,
                ),
            },
            old(self).running_is_current() ==> final(self).running_is_current(),
            old(self).pids_unique() ==> final(self).pids_unique(),
    {
        match self.current {
            None => false,
            Some(c) => {
                let mut p = self.processes[c];
                p.state = ProcessState::Blocked;
                self.processes.set(c, p);
                proof {
                    assert(self.processes@ =~= with_state(old(self).processes@, c as int, ProcessState::Blocked));
                    assert forall|k: int| 0 <= k < self.processes@.len() implies (#[trigger] self.processes@[k]).pid
                        == old(self).processes@[k].pid by {}
                    assert forall|k: int| 0 <= k < self.processes@.len() && k != c implies (#[trigger] self.processes@[k]).state
                        == old(self).processes@[k].state by {}
                }
                true
            },
        }
    }

    /// Id of the current process, or 0 when there is none.
    pub fn current_pid(&self) -> (pid: u64)
        requires
            self.wf(),
        ensures
            match self.current {
                None => pid == 0,
                Some(c) => pid == self.processes@[c as int].pid,
            },
    {
        match self.current {
            None => 0,
            Some(c) => self.processes[c].pid,
        }
    }

    /// Position of the current process in the list, if any.
    pub fn current_process(&self) -> (r: Option<usize>)
        ensures
            r == self.current,
    {
        self.current
    }
}

} // verus!
