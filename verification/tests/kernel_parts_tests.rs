use rustyos::font::{self, PSF1Font};
use rustyos::framebuffer::{self, Console, FramebufferDesc};
use rustyos::gdt::{self, Tss};
use rustyos::interrupts::{self, FatalKind, InterruptOutcome};
use rustyos::libc;
use rustyos::pic::{self, Pic, PortOp};
use rustyos::process::{self, FdTable, Process, ProcessState};
use rustyos::scheduler::Scheduler;
use rustyos::serial;
use rustyos::syscall::{self, KernelGsData, MsrWrite, SyscallAction, SyscallRequest};
use rustyos::text;
use rustyos::time::{self, ApicTimer, CpuidLeaf, LapicWrite};
use rustyos::trap::TrapFrame;
use rustyos::user;
use rustyos::vfs::{self, File, Filesystem, Mount, MountTable};
use std::cell::Cell;
use std::rc::Rc;

fn proc_with(pid: u64, state: ProcessState, top: u64) -> Process {
    let mut p = process::kernel_process(pid, 0x1000 * pid, "p", top - 0x100, 0x100, 0x8000);
    p.state = state;
    p
}

/// A scheduler with processes 1 (running, current) and 2 (ready).
fn two_processes() -> Scheduler {
    let mut s = Scheduler::new();
    let a = s.next_pid();
    let b = s.next_pid();
    s.add_process(proc_with(a, ProcessState::Running, 0x1_0000));
    s.add_process(proc_with(b, ProcessState::Ready, 0x2_0000));
    s.init();
    s
}

// ----- processes and scheduling ------------------------------------------------------

#[test]
fn process_state_names_and_equality() {
    assert_eq!(ProcessState::Ready.as_str(), "Ready");
    assert_eq!(ProcessState::Running.as_str(), "Running");
    assert_eq!(ProcessState::Blocked.as_str(), "Blocked");
    assert_eq!(ProcessState::Terminated.as_str(), "Terminated");
    assert!(ProcessState::Blocked.eq(&ProcessState::Blocked));
    assert!(!ProcessState::Blocked.eq(&ProcessState::Ready));
}

#[test]
fn fd_table_insert_get_close() {
    let mut t = FdTable::new();
    assert_eq!(t.insert(10), Some(0));
    assert_eq!(t.insert(11), Some(1));
    assert_eq!(t.get(1).copied(), Some(11));
    assert_eq!(t.get(64), None);
    assert!(t.close(0));
    assert!(!t.close(0));
    assert!(!t.close(99));
    assert_eq!(t.insert(12), Some(0));
    for k in 2..64 {
        assert_eq!(t.insert(k), Some(k as usize));
    }
    assert_eq!(t.insert(100), None);
}

#[test]
fn name_is_cut_to_thirty_two_bytes() {
    let long = "abcdefghijklmnopqrstuvwxyz0123456789";
    let n = process::name_bytes(long);
    assert_eq!(&n[..], &long.as_bytes()[..32]);
    let short = process::name_bytes("ab");
    assert_eq!(&short[..3], b"ab\0");
}

#[test]
fn schedule_switches_to_next_ready_process() {
    let mut s = two_processes();
    let mut tf = TrapFrame::new();
    tf.rax = 77;
    let sw = s.schedule(&mut tf).unwrap();
    assert_eq!(s.current, Some(1));
    assert!(s.processes[1].state.eq(&ProcessState::Running));
    assert!(s.processes[0].state.eq(&ProcessState::Ready));
    assert_eq!(s.processes[0].trap_frame.rax, 77);
    assert_eq!(tf.rip, 0x2000);
    assert_eq!(sw.kernel_stack_top, s.processes[1].process_stack_top);
    assert_eq!(sw.pml4t, 0x8000);
    assert_eq!(sw.syscall_stack_top, 0x1000);
    // the next tick wraps around to the first process
    s.schedule(&mut tf);
    assert_eq!(s.current, Some(0));
    assert_eq!(tf.rax, 77);
}

#[test]
fn schedule_without_current_does_nothing() {
    let mut s = Scheduler::new();
    let mut tf = TrapFrame::new();
    assert!(s.schedule(&mut tf).is_none());
    assert_eq!(s.current_pid(), 0);
    assert_eq!(s.current_process(), None);
}

#[test]
fn kill_and_sleep() {
    let mut s = two_processes();
    assert_eq!(s.current_pid(), 1);
    assert!(s.sleep_current(10));
    assert!(s.processes[0].state.eq(&ProcessState::Blocked));
    assert!(s.kill_process_pid(2));
    assert!(s.processes[1].state.eq(&ProcessState::Terminated));
    assert!(!s.kill_process_pid(9));
    assert!(s.kill_current());
    assert!(s.processes[0].state.eq(&ProcessState::Terminated));
    let mut tf = TrapFrame::new();
    assert!(s.schedule(&mut tf).is_none());
}

// ----- system calls -------------------------------------------------------------

#[test]
fn decode_encode_round_trip() {
    let req = SyscallRequest { num: 3, args: (1, 2, 3, 4, 5, 6) };
    let mut tf = TrapFrame::new();
    tf.rbx = 99;
    syscall::encode_syscall(&req, &mut tf);
    assert_eq!(syscall::decode_syscall(&tf), req);
    assert_eq!((tf.rdi, tf.r10, tf.r9, tf.rbx), (1, 4, 6, 99));
}

#[test]
fn handler_answers_each_call() {
    let mut s = two_processes();
    let mut tf = TrapFrame::new();
    syscall::encode_syscall(&libc::get_pid(), &mut tf);
    assert_eq!(syscall::syscall_handler_rust(&mut s, &mut tf), SyscallAction::Done);
    assert_eq!(tf.rax, 1);

    syscall::encode_syscall(&libc::debug_write(0x5000, 12), &mut tf);
    assert_eq!(
        syscall::syscall_handler_rust(&mut s, &mut tf),
        SyscallAction::DebugWrite { pid: 1, ptr: 0x5000, len: 12 }
    );
    assert_eq!(tf.rax, 0);

    syscall::encode_syscall(&libc::sbrk(3), &mut tf);
    assert_eq!(syscall::syscall_handler_rust(&mut s, &mut tf), SyscallAction::Sbrk { pages: 3 });

    syscall::encode_syscall(&libc::get_framebuffer(0), &mut tf);
    assert_eq!(syscall::syscall_handler_rust(&mut s, &mut tf), SyscallAction::Done);
    assert_eq!(tf.rax, 1);
    syscall::encode_syscall(&libc::get_framebuffer(0x7000), &mut tf);
    assert_eq!(
        syscall::syscall_handler_rust(&mut s, &mut tf),
        SyscallAction::GetFramebuffer { info_ptr: 0x7000 }
    );

    let mut unknown = TrapFrame::new();
    unknown.rax = 42;
    assert_eq!(syscall::syscall_handler_rust(&mut s, &mut unknown), SyscallAction::Done);
    assert_eq!(unknown.rax, u64::MAX);

    syscall::encode_syscall(&libc::sleep(5), &mut tf);
    assert_eq!(syscall::syscall_handler_rust(&mut s, &mut tf), SyscallAction::Sleep);
    assert_eq!(tf.rax, 0);
    assert!(s.processes[0].state.eq(&ProcessState::Blocked));

    syscall::encode_syscall(&libc::exit(0), &mut tf);
    assert_eq!(syscall::syscall_handler_rust(&mut s, &mut tf), SyscallAction::Exit);
    assert!(s.processes[0].state.eq(&ProcessState::Terminated));
}

#[test]
fn libc_requests_carry_number_and_arguments() {
    assert_eq!(libc::exit(7), SyscallRequest { num: 1, args: (7, 0, 0, 0, 0, 0) });
    assert_eq!(libc::sleep(9), SyscallRequest { num: 2, args: (9, 0, 0, 0, 0, 0) });
    assert_eq!(libc::debug_write(1, 2), SyscallRequest { num: 3, args: (1, 2, 0, 0, 0, 0) });
    assert_eq!(libc::get_pid(), SyscallRequest { num: 4, args: (0, 0, 0, 0, 0, 0) });
    assert_eq!(libc::sbrk(4), SyscallRequest { num: 5, args: (4, 0, 0, 0, 0, 0) });
    assert_eq!(libc::get_framebuffer(8), SyscallRequest { num: 6, args: (8, 0, 0, 0, 0, 0) });
    let d = libc::FramebufferInfo::default();
    assert_eq!((d.addr, d.width, d.height, d.pitch, d.bpp), (0, 0, 0, 0, 0));
}

#[test]
fn return_address_must_be_canonical_user() {
    let mut tf = TrapFrame::new();
    tf.rcx = 0x7fff_ffff_ffff;
    assert!(syscall::return_address_ok(&tf));
    tf.rcx = 0x8000_0000_0000;
    assert!(!syscall::return_address_ok(&tf));
}

#[test]
fn framebuffer_for_user_space() {
    let fb = FramebufferDesc { address: 0xffff_8000_fd00_0000, width: 1024, height: 768, pitch: 4096, bpp: 32 };
    let info = syscall::framebuffer_info(&fb);
    assert_eq!((info.addr, info.width, info.height, info.pitch, info.bpp), (0x7000_0000_0000, 1024, 768, 4096, 32));
    let maps = syscall::framebuffer_mappings(0xfd00_0000, 0x2001);
    assert_eq!(maps, vec![
        (0x7000_0000_0000, 0xfd00_0000),
        (0x7000_0000_1000, 0xfd00_1000),
        (0x7000_0000_2000, 0xfd00_2000),
    ]);
    assert!(syscall::framebuffer_mappings(0x1000, 0).is_empty());
}

#[test]
fn syscall_msr_setup() {
    let ops = syscall::init(0xD01, 0xffff_ffff_8000_1000);
    assert_eq!(ops, vec![
        MsrWrite { msr: 0xC000_0080, value: 0xD01 },
        MsrWrite { msr: 0xC000_0081, value: (0x08u64 << 32) | (0x18u64 << 48) },
        MsrWrite { msr: 0xC000_0082, value: 0xffff_ffff_8000_1000 },
        MsrWrite { msr: 0xC000_0084, value: 0x200 },
    ]);
    let mut gs = KernelGsData { pad: 0, kernel_rsp: 0, user_rsp: 5 };
    let w = syscall::set_kernel_stack(&mut gs, 0x9000, 0x1234);
    assert_eq!(gs, KernelGsData { pad: 0, kernel_rsp: 0x9000, user_rsp: 5 });
    assert_eq!(w, MsrWrite { msr: 0xC000_0102, value: 0x1234 });
}

// ----- interrupts ---------------------------------------------------------------

#[test]
fn idt_gates_hold_handler_addresses() {
    let e = interrupts::idt_entry(0xffff_ffff_8012_3456);
    assert_eq!((e.offset_low, e.offset_mid, e.offset_high), (0x3456, 0x8012, 0xffff_ffff));
    assert_eq!((e.selector, e.type_attr), (0x08, 0x8E));
    let table = interrupts::build_idt(&vec![0x1000, 0x2000]);
    assert_eq!(table.len(), 2);
    assert_eq!(table[1].offset_low, 0x2000);
    let p = interrupts::idt_pointer(0x5000);
    assert_eq!((p.limit, p.base), (4095, 0x5000));
}

#[test]
fn dispatch_hardware_schedule_and_faults() {
    let mut s = two_processes();
    let mut tf = TrapFrame::new();
    tf.int_no = 0x21;
    let (stack, out) = interrupts::isr_dispatch(&mut s, &mut tf);
    assert_eq!(stack, Some(0x1_0000));
    assert_eq!(out, InterruptOutcome::Hardware { irq: 1 });

    tf.int_no = 0x30;
    let (_, out) = interrupts::isr_dispatch(&mut s, &mut tf);
    assert!(matches!(out, InterruptOutcome::Scheduled { switch: Some(_) }));
    assert_eq!(s.current, Some(1));

    let mut fault = TrapFrame::new();
    fault.int_no = 13;
    let (_, out) = interrupts::isr_dispatch(&mut s, &mut fault);
    assert_eq!(out, InterruptOutcome::Fatal { kind: FatalKind::ProcessFault, killed: true });
    assert!(s.processes[1].state.eq(&ProcessState::Terminated));

    let mut idle = Scheduler::new();
    fault.int_no = 14;
    assert_eq!(
        interrupts::isr_dispatch(&mut idle, &mut fault),
        (None, InterruptOutcome::Fatal { kind: FatalKind::PageFault, killed: false })
    );
    fault.int_no = 6;
    assert_eq!(
        interrupts::isr_dispatch(&mut idle, &mut fault).1,
        InterruptOutcome::Fatal { kind: FatalKind::Unhandled, killed: false }
    );
}

#[test]
fn pic_masks_and_remap() {
    let mut p = Pic::new();
    assert_eq!(p.mask_all(), vec![PortOp::Out { port: 0x21, value: 0xFF }, PortOp::Out { port: 0xA1, value: 0xFF }]);
    let ops = p.remap(0x12, 0x34, 0x20, 0x28);
    assert_eq!(ops.len(), 18);
    assert_eq!(ops[0], PortOp::Out { port: 0x20, value: 0x11 });
    assert_eq!(ops[4], PortOp::Out { port: 0x21, value: 0x20 });
    assert_eq!(ops[17], PortOp::Out { port: 0xA1, value: 0x34 });
    assert_eq!(p.clear_mask(1), PortOp::Out { port: 0x21, value: 0x10 });
    assert_eq!(p.set_mask(1), PortOp::Out { port: 0x21, value: 0x12 });
    assert_eq!(p.clear_mask(10), PortOp::Out { port: 0xA1, value: 0x30 });
    assert_eq!(p.set_mask(10), PortOp::Out { port: 0xA1, value: 0x34 });
    assert_eq!(pic::eoi(3), vec![PortOp::Out { port: 0x20, value: 0x20 }]);
    assert_eq!(pic::eoi(9), vec![PortOp::Out { port: 0xA0, value: 0x20 }, PortOp::Out { port: 0x20, value: 0x20 }]);
}

#[test]
fn gdt_and_tss() {
    let (g, ptr) = gdt::init(0x1234_5678_9ABC_DEF0, 0x7000);
    assert_eq!(g.entries[1].access, 0x9A);
    assert_eq!(g.entries[5].access, 0xFA);
    assert_eq!(g.entries[0].limit_low, 0);
    assert_eq!((g.tss_desc.base_low, g.tss_desc.base_mid, g.tss_desc.base_high, g.tss_desc.base_upper), (0xDEF0, 0xBC, 0x9A, 0x1234_5678));
    assert_eq!((ptr.limit, ptr.base), (63, 0x7000));
    let mut t = Tss::new();
    gdt::set_kernel_stack(&mut t, 0xABC0);
    assert_eq!(t.rsp0, 0xABC0);
    assert_eq!(gdt::tss_descriptor(0x10).limit_low, 103);
}

// ----- time -------------------------------------------------------------------

#[test]
fn pit_and_tsc_arithmetic() {
    assert_eq!(time::pit_init(), vec![(0x43, 0x34), (0x40, 0xFF), (0x40, 0xFF)]);
    assert_eq!(time::pit_latch(), (0x43, 0));
    assert_eq!(time::pit_counter(0x34, 0x12), 0x1234);
    assert_eq!(time::tsc_from_parts(1, 2), 0x1_0000_0002);
    assert_eq!(time::pit_delta(100, 40), 60);
    assert_eq!(time::pit_delta(10, 0xFFF0), 10 + 0xF);
    assert!(!time::calibration_done(11931));
    assert!(time::calibration_done(11932));
    assert_eq!(time::tsc_frequency(1000, 1000 + 30_000_000, 11932), 30_000_000 * 1_193_180 / 11932);
    assert_eq!(time::read_millis(3_000_000, 1_000_000), 3000);
    assert_eq!(time::read_micros(3_000, 1_000_000), 3000);
}

#[test]
fn tsc_frequency_from_cpuid_leaves() {
    let z = CpuidLeaf { eax: 0, ebx: 0, ecx: 0, edx: 0 };
    let l15 = CpuidLeaf { eax: 2, ebx: 100, ecx: 1, edx: 0 };
    assert_eq!(time::get_tsc_freq_from_cpuid(l15, z, z, z, z), Some(50_000_000));
    let l16 = CpuidLeaf { eax: 3, ebx: 6, ecx: 2000, edx: 0 };
    assert_eq!(time::get_tsc_freq_from_cpuid(z, l16, z, z, z), Some(4000));
    let l1 = CpuidLeaf { eax: 0, ebx: 0, ecx: 0x8000_0000, edx: 0 };
    let hv = CpuidLeaf { eax: 0x4000_0010, ebx: 0, ecx: 0, edx: 0 };
    let hv10 = CpuidLeaf { eax: 2_500_000, ebx: 0, ecx: 0, edx: 0 };
    assert_eq!(time::get_tsc_freq_from_cpuid(z, z, l1, hv, hv10), Some(2_500_000_000));
    assert_eq!(time::get_tsc_freq_from_cpuid(z, z, z, hv, hv10), None);
}

#[test]
fn apic_registers() {
    assert_eq!(time::get_base(0xFEE0_0900, 0xffff_8000_0000_0000), 0xffff_8000_fee0_0000);
    let (msr, base, virt) = time::apic_enable(0xFEE0_0100, 0x1000_0000_0000);
    assert_eq!((msr, base, virt), (0xFEE0_0900, 0xFEE0_0000, 0x1000_FEE0_0000));
    assert_eq!(time::spurious_enable(0x0F), 0x10F);
    assert_eq!(time::spurious_vector(0x1234_5600), 0x1234_56FF);
    assert_eq!(time::lvt_timer_oneshot(0x0003_0011), 0x30);
    assert_eq!(time::eoi(), LapicWrite { reg: 0xB0, value: 0 });
    assert_eq!(time::reset(), LapicWrite { reg: 0x380, value: 0 });
    let mut t = ApicTimer::new();
    t.calibrate(0xFFFF_FFFF - 50_000, 10);
    assert_eq!(t.ticks_rate_ms, 5_000);
    assert_eq!(t.start_timer(30), LapicWrite { reg: 0x380, value: 150_000 });
}

// ----- serial, text, console -------------------------------------------------------

#[test]
fn serial_setup_and_bytes() {
    assert_eq!(serial::init()[1], (0x3FB, 0x80));
    assert_eq!(serial::line_status_port(), 0x3FD);
    assert!(serial::transmit_ready(0x60));
    assert!(!serial::transmit_ready(0x40));
    assert_eq!(serial::write_str("hé"), "hé".as_bytes().to_vec());
}

#[test]
fn numbers_as_text() {
    let mut out = Vec::new();
    text::push_dec(&mut out, 0);
    text::push_str(&mut out, " ");
    text::push_dec(&mut out, 1_234_567);
    text::push_str(&mut out, " ");
    text::push_hex(&mut out, 0xfee0);
    text::push_str(&mut out, " ");
    text::push_hex(&mut out, 0);
    assert_eq!(String::from_utf8(out).unwrap(), "0 1234567 fee0 0");
}

#[test]
fn pid_digits_in_order() {
    assert_eq!(user::pid_digits(0), Vec::<u8>::new());
    assert_eq!(user::pid_digits(7), b"7".to_vec());
    assert_eq!(user::pid_digits(1024), b"1024".to_vec());
    assert_eq!(user::pid_digits(u64::MAX), u64::MAX.to_string().into_bytes());
}

#[test]
fn trap_frame_dumps() {
    let mut tf = TrapFrame::new();
    tf.r15 = 0xABC;
    tf.rbx = 1;
    tf.ss = 0x23;
    let console = String::from_utf8(tf.display_console()).unwrap();
    assert!(console.starts_with("TrapFrame {\n  r15: 0x0000000000000abc\n"));
    assert!(console.contains("  rbx: 0x0000000000000001\n"));
    assert!(console.ends_with("  ss: 0x0000000000000023\n}\n"));
    assert_eq!(console.lines().count(), 24);
    let serial = String::from_utf8(tf.display_serial()).unwrap();
    assert!(serial.starts_with("TrapFrame {\n  r15: 0x0000000000000abc\n"));
    assert!(serial.ends_with("  rbx: 0x0000000000000001\n"));
    assert_eq!(serial.lines().count(), 15);
    let mut copy = TrapFrame::new();
    copy.copy_from(&tf);
    assert_eq!(copy, tf);
}

fn font_file() -> Vec<u8> {
    let mut d = vec![0x36, 0x04, 0, 2];
    d.extend(std::iter::repeat(0u8).take(256 * 2));
    // glyph of 'A' (65): top-left pixel and bottom-right pixel
    d[4 + 65 * 2] = 0x80;
    d[4 + 65 * 2 + 1] = 0x01;
    d
}

#[test]
fn font_glyphs() {
    let f: PSF1Font = font::load_font(&font_file());
    assert_eq!((f.header.magic, f.header.charsize), (0x0436, 2));
    assert_eq!(f.char_width(), 8);
    assert_eq!(f.char_height(), 2);
    assert_eq!(f.get_glyph('A'), &[0x80, 0x01]);
    assert_eq!(font::ascii_to_glyph_index('é'), '?');
    assert_eq!(font::ascii_to_glyph_index('z'), 'z');
    assert_eq!(font::get_glyph(&f, 'B'), &[0, 0]);
}

#[test]
fn console_draws_and_wraps() {
    let fb = FramebufferDesc { address: 0, width: 16, height: 4, pitch: 64, bpp: 32 };
    let mut screen = vec![7u32; 64];
    let fbs = vec![FramebufferDesc { bpp: 24, ..fb }, fb];
    assert_eq!(framebuffer::get_framebuffer(&fbs), Some(fb));
    let mut c: Console = framebuffer::init_global_console(&fbs, &mut screen, &font_file()).unwrap();
    assert!(screen.iter().all(|p| *p == 0));
    assert_eq!((c.cursor_x, c.cursor_y, c.max_cursor_x), (0, 0, 2));
    c.write_char('A', &mut screen);
    assert_eq!(screen[0], 0xFFFF_FFFF);
    assert_eq!(screen[1], 0);
    assert_eq!(screen[16 + 7], 0xFFFF_FFFF);
    assert_eq!((c.cursor_x, c.cursor_y), (8, 0));
    c.write_char('A', &mut screen);
    assert_eq!((c.cursor_x, c.cursor_y), (0, 2));
    c.write_str("\nA", &mut screen);
    // the newline moved past the bottom: the screen scrolled one line up
    assert_eq!((c.cursor_x, c.cursor_y), (8, 2));
    assert_eq!(screen[2 * 16], 0xFFFF_FFFF);
}

#[test]
fn no_framebuffer_no_console() {
    let mut screen = vec![1u32; 4];
    assert!(framebuffer::init_global_console(&Vec::new(), &mut screen, &[]).is_none());
    assert_eq!(screen, vec![1, 1, 1, 1]);
    let fb = FramebufferDesc { address: 0, width: 2, height: 2, pitch: 8, bpp: 32 };
    framebuffer::clear_framebuffer(&mut screen, &fb, 9);
    assert_eq!(screen, vec![9, 9, 9, 9]);
    let c = Console::new(fb, font::load_font(&font_file()));
    assert_eq!(c.fg_color, 0xFFFF_FFFF);
}

// ----- mounts -------------------------------------------------------------------

/// A filesystem that only counts how often it was unmounted.
struct CountingFs {
    id: usize,
    unmounts: Rc<Cell<usize>>,
}

impl Filesystem for CountingFs {
    fn open(&self, _path: &str) -> Option<File> {
        None
    }
    fn read(&self, _file: &mut File, _buf: &mut [u8]) -> isize {
        0
    }
    fn write(&self, _file: &mut File, _buf: &[u8]) -> isize {
        0
    }
    fn close(&self, _file: &mut File) {}
    fn seek(&self, _file: &mut File, _offset: usize) -> bool {
        false
    }
    fn unmount(&self) {
        self.unmounts.set(self.unmounts.get() + 1);
    }
}

fn counting(id: usize, unmounts: &Rc<Cell<usize>>) -> CountingFs {
    CountingFs { id, unmounts: unmounts.clone() }
}

#[test]
fn mount_resolve_unmount() {
    let root_count = Rc::new(Cell::new(0));
    let dev_count = Rc::new(Cell::new(0));
    let mut t = MountTable::new();
    assert!(t.mount(Mount { mountpoint: String::from("/"), fs: counting(1, &root_count) }));
    assert!(t.mount(Mount { mountpoint: String::from("/dev"), fs: counting(2, &dev_count) }));
    assert_eq!(t.get_mount_for_path("/dev/tty").map(|m| m.fs.id), Some(1));
    assert!(t.unmount("/"));
    assert_eq!(root_count.get(), 1);
    assert_eq!(dev_count.get(), 0);
    assert_eq!(t.get_mount_for_path("/dev/tty").map(|m| m.fs.id), Some(2));
    assert!(t.get_mount_for_path("/home").is_none());
    assert!(!t.unmount("/"));
    assert_eq!(root_count.get(), 1);
}

#[test]
fn mount_table_full() {
    let count = Rc::new(Cell::new(0));
    let mut t = MountTable::new();
    for i in 0..4 {
        assert!(t.mount(Mount { mountpoint: format!("/m{}", i), fs: counting(i, &count) }));
    }
    assert!(!t.mount(Mount { mountpoint: String::from("/x"), fs: counting(9, &count) }));
    assert!(vfs::str_eq("abc", "abc"));
    assert!(!vfs::str_eq("abc", "ab"));
    assert!(vfs::starts_with("/dev/tty", "/dev"));
    assert!(!vfs::starts_with("/de", "/dev"));
}

#[test]
fn debug_write_line_tags_message_with_pid() {
    assert_eq!(syscall::debug_line(7, b"hello"), b"[DEBUG - PROCESS - PID=7]: hello\n".to_vec());
    assert_eq!(
        syscall::debug_line(12, &[0xFF, 0xFE]),
        b"[DEBUG - PROCESS - PID=12]: <invalid utf-8 message>\n".to_vec()
    );
    assert_eq!(syscall::debug_line(0, "é".as_bytes()), "[DEBUG - PROCESS - PID=0]: é\n".as_bytes().to_vec());
    assert_eq!(
        syscall::debug_line_from(3, b"x", false),
        b"[DEBUG - PROCESS - PID=3]: <invalid utf-8 message>\n".to_vec()
    );
}

#[test]
fn schedule_wraps_round_to_first_ready() {
    // processes 1 (ready), 2 (blocked), 3 (running, current): the walk from
    // after 3 wraps round to 1
    let mut s = Scheduler::new();
    for st in [ProcessState::Ready, ProcessState::Blocked, ProcessState::Running] {
        let pid = s.next_pid();
        s.add_process(proc_with(pid, st, 0x1_0000 * pid));
    }
    s.init();
    s.current = Some(2);
    let mut tf = TrapFrame::new();
    assert!(s.schedule(&mut tf).is_some());
    assert_eq!(s.current, Some(0));
    assert!(s.processes[2].state.eq(&ProcessState::Ready));
    // next: from after 1, process 2 is blocked, so 3 runs
    assert!(s.schedule(&mut tf).is_some());
    assert_eq!(s.current, Some(2));
}

#[test]
fn call_with_non_canonical_return_address_is_refused() {
    let mut s = two_processes();
    let mut tf = TrapFrame::new();
    syscall::encode_syscall(&libc::get_pid(), &mut tf);
    tf.rcx = 0x0000_8000_0000_0000;
    assert_eq!(syscall::syscall_handler_rust(&mut s, &mut tf), SyscallAction::Done);
    assert_eq!(tf.rax, u64::MAX);
    syscall::encode_syscall(&libc::exit(0), &mut tf);
    assert_eq!(syscall::syscall_handler_rust(&mut s, &mut tf), SyscallAction::Done);
    assert_eq!(tf.rax, u64::MAX);
    assert!(s.processes[0].state.eq(&ProcessState::Running));
    // just below the limit the call is served
    syscall::encode_syscall(&libc::get_pid(), &mut tf);
    tf.rcx = 0x0000_7FFF_FFFF_FFFF;
    assert_eq!(syscall::syscall_handler_rust(&mut s, &mut tf), SyscallAction::Done);
    assert_eq!(tf.rax, 1);
}

#[test]
fn ready_process_runs_within_list_length_calls() {
    // 0 running (current), 1 and 2 ready, 3 blocked: process 2 runs by the
    // second call, and 0 runs again by the fourth
    let mut s = Scheduler::new();
    for st in [ProcessState::Running, ProcessState::Ready, ProcessState::Ready, ProcessState::Blocked] {
        let pid = s.next_pid();
        s.add_process(proc_with(pid, st, 0x1_0000 * pid));
    }
    s.init();
    let mut tf = TrapFrame::new();
    let mut seen = Vec::new();
    for _ in 0..4 {
        s.schedule(&mut tf);
        seen.push(s.current.unwrap());
    }
    assert_eq!(seen, vec![1, 2, 0, 1]);
}
