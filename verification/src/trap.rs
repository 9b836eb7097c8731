//! The register frame saved on an interrupt or a system call.
use vstd::prelude::*;
use vstd::string::StringSliceAdditionalSpecFns;

use crate::text::push_str;

verus! {

/// Registers saved on entry to the kernel, in the order the entry stubs
/// push them, followed by the vector number, the error code and the frame
/// the CPU pushes.
#[derive(Clone, Copy, Debug, PartialEq, Eq, Structural)]
pub struct TrapFrame {
    pub r15: u64,
    pub r14: u64,
    pub r13: u64,
    pub r12: u64,
    pub r11: u64,
    pub r10: u64,
    pub r9: u64,
    pub r8: u64,
    pub rbp: u64,
    pub rdi: u64,
    pub rsi: u64,
    pub rdx: u64,
    pub rcx: u64,
    pub rbx: u64,
    pub rax: u64,
    pub int_no: u64,
    pub error_code: u64,
    pub rip: u64,
    pub cs: u64,
    pub rflags: u64,
    pub rsp: u64,
    pub ss: u64,
}

/// The frame with every register zero.
pub open spec fn zero_frame() -> TrapFrame {
    TrapFrame {
        r15: 0,
        r14: 0,
        r13: 0,
        r12: 0,
        r11: 0,
        r10: 0,
        r9: 0,
        r8: 0,
        rbp: 0,
        rdi: 0,
        rsi: 0,
        rdx: 0,
        rcx: 0,
        rbx: 0,
        rax: 0,
        int_no: 0,
        error_code: 0,
        rip: 0,
        cs: 0,
        rflags: 0,
        rsp: 0,
        ss: 0,
    }
}

impl TrapFrame {
    /// A frame with every register zero.
    pub fn new() -> (tf: TrapFrame)
        ensures
            tf == zero_frame(),
    {
        TrapFrame {
            r15: 0,
            r14: 0,
            r13: 0,
            r12: 0,
            r11: 0,
            r10: 0,
            r9: 0,
            r8: 0,
            rbp: 0,
            rdi: 0,
            rsi: 0,
            rdx: 0,
            rcx: 0,
            rbx: 0,
            rax: 0,
            int_no: 0,
            error_code: 0,
            rip: 0,
            cs: 0,
            rflags: 0,
            rsp: 0,
            ss: 0,
        }
    }

    /// Copies every register of `other` into `self`.
    pub fn copy_from(&mut self, other: &TrapFrame)
        ensures
            *final(self) == *other,
    {
        self.r15 = other.r15;
        self.r14 = other.r14;
        self.r13 = other.r13;
        self.r12 = other.r12;
        self.r11 = other.r11;
        self.r10 = other.r10;
        self.r9 = other.r9;
        self.r8 = other.r8;
        self.rbp = other.rbp;
        self.rdi = other.rdi;
        self.rsi = other.rsi;
        self.rdx = other.rdx;
        self.rcx = other.rcx;
        self.rbx = other.rbx;
        self.rax = other.rax;
        self.int_no = other.int_no;
        self.error_code = other.error_code;
        self.rip = other.rip;
        self.cs = other.cs;
        self.rflags = other.rflags;
        self.rsp = other.rsp;
        self.ss = other.ss;
    }
}

/// ASCII of the lower-case hexadecimal digit `n` (below 16).
pub open spec fn hex_digit(n: u64) -> u8 {
    if n < 10 {
        (0x30 + n) as u8
    } else {
        (0x61 + n - 10) as u8
    }
}

/// Hexadecimal digit `k` of `v`, counting from the least significant.
pub open spec fn nibble(v: u64, k: int) -> u64 {
    (v >> ((4 * k) as u64)) & 0xF
}

/// `v` written as `0x` and 16 hexadecimal digits.
pub open spec fn hex18(v: u64) -> Seq<u8> {
    seq![0x30u8, 0x78u8] + Seq::new(16, |i: int| hex_digit(nibble(v, 15 - i)))
}

/// One line of the frame dump: the label, the value in hexadecimal, and a
/// newline.
pub open spec fn line(label: &str, v: u64) -> Seq<u8> {
    label.spec_bytes() + hex18(v) + seq![0x0Au8]
}

/// The text of the frame dump: a header, one line per register in the
/// order of the frame, and a closing brace.
pub open spec fn display_text(tf: TrapFrame) -> Seq<u8> {
    "TrapFrame {\n".spec_bytes()
        + line("  r15: ", tf.r15)
        + line("  r14: ", tf.r14)
        + line("  r13: ", tf.r13)
        + line("  r12: ", tf.r12)
        + line("  r11: ", tf.r11)
        + line("  r10: ", tf.r10)
        + line("  r9 : ", tf.r9)
        + line("  r8 : ", tf.r8)
        + line("  rbp: ", tf.rbp)
        + line("  rdi: ", tf.rdi)
        + line("  rsi: ", tf.rsi)
        + line("  rdx: ", tf.rdx)
        + line("  rcx: ", tf.rcx)
        + line("  rbx: ", tf.rbx)
        + line("  rax: ", tf.rax)
        + line("  int_no: ", tf.int_no)
        + line("  error_code: ", tf.error_code)
        + line("  rip: ", tf.rip)
        + line("  cs: ", tf.cs)
        + line("  rflags: ", tf.rflags)
        + line("  rsp: ", tf.rsp)
        + line("  ss: ", tf.ss)
        + "}\n".spec_bytes()
}

/// The text of the frame dump sent to the serial port: the header and the
/// general registers from `r15` down to `rbx`.
pub open spec fn serial_text(tf: TrapFrame) -> Seq<u8> {
    "TrapFrame {\n".spec_bytes()
        + line("  r15: ", tf.r15)
        + line("  r14: ", tf.r14)
        + line("  r13: ", tf.r13)
        + line("  r12: ", tf.r12)
        + line("  r11: ", tf.r11)
        + line("  r10: ", tf.r10)
        + line("  r9 : ", tf.r9)
        + line("  r8 : ", tf.r8)
        + line("  rbp: ", tf.rbp)
        + line("  rdi: ", tf.rdi)
        + line("  rsi: ", tf.rsi)
        + line("  rdx: ", tf.rdx)
        + line("  rcx: ", tf.rcx)
        + line("  rbx: ", tf.rbx)
}

/// Appends `v` written as `0x` and 16 hexadecimal digits.
fn push_hex(out: &mut Vec<u8>, v: u64)
    ensures
        final(out)@ == old(out)@ + hex18(v),
{
    out.push(0x30u8);
    out.push(0x78u8);
    let ghost base = out@;
    let mut k: usize = 0;
    while k < 16
        invariant
            0 <= k <= 16,
            out@ == base + Seq::new(k as nat, |i: int| hex_digit(nibble(v, 15 - i))),
        decreases 16 - k,
    {
        let shift = (4 * (15 - k)) as u64;
        let n = (v >> shift) & 0xF;
        proof {
            assert(n < 16) by (bit_vector)
                requires n == (v >> shift) & 0xF;
        }
        let d: u8 = if n < 10 {
            (0x30 + n) as u8
        } else {
            (0x61 + n - 10) as u8
        };
        out.push(d);
        proof {
            assert(out@ =~= base + Seq::new((k + 1) as nat, |i: int| hex_digit(nibble(v, 15 - i))));
        }
        k = k + 1;
    }
    proof {
        assert(out@ =~= old(out)@ + hex18(v));
    }
}

/// Appends one line of the frame dump.
fn push_line(out: &mut Vec<u8>, label: &str, v: u64)
    ensures
        final(out)@ == old(out)@ + line(label, v),
{
    let bytes = label.as_bytes();
    let mut i: usize = 0;
    let ghost base = out@;
    while i < bytes.len()
        invariant
            0 <= i <= bytes@.len(),
            bytes@ == label.spec_bytes(),
            out@ == base + bytes@.subrange(0, i as int),
        decreases bytes@.len() - i,
    {
        out.push(bytes[i]);
        proof {
            assert(out@ =~= base + bytes@.subrange(0, i as int + 1));
        }
        i = i + 1;
    }
    push_hex(out, v);
    out.push(0x0Au8);
    proof {
        assert(bytes@.subrange(0, bytes@.len() as int) =~= bytes@);
        assert(out@ =~= old(out)@ + line(label, v));
    }
}

impl TrapFrame {
    /// The frame dump shown on the console (see `display_text`).
    pub fn display_console(&self) -> (text: Vec<u8>)
        ensures
            text@ == display_text(*self),
    {
        let mut out: Vec<u8> = Vec::new();
        push_str(&mut out, "TrapFrame {\n");
        push_line(&mut out, "  r15: ", self.r15);
        push_line(&mut out, "  r14: ", self.r14);
        push_line(&mut out, "  r13: ", self.r13);
        push_line(&mut out, "  r12: ", self.r12);
        push_line(&mut out, "  r11: ", self.r11);
        push_line(&mut out, "  r10: ", self.r10);
        push_line(&mut out, "  r9 : ", self.r9);
        push_line(&mut out, "  r8 : ", self.r8);
        push_line(&mut out, "  rbp: ", self.rbp);
        push_line(&mut out, "  rdi: ", self.rdi);
        push_line(&mut out, "  rsi: ", self.rsi);
        push_line(&mut out, "  rdx: ", self.rdx);
        push_line(&mut out, "  rcx: ", self.rcx);
        push_line(&mut out, "  rbx: ", self.rbx);
        push_line(&mut out, "  rax: ", self.rax);
        push_line(&mut out, "  int_no: ", self.int_no);
        push_line(&mut out, "  error_code: ", self.error_code);
        push_line(&mut out, "  rip: ", self.rip);
        push_line(&mut out, "  cs: ", self.cs);
        push_line(&mut out, "  rflags: ", self.rflags);
        push_line(&mut out, "  rsp: ", self.rsp);
        push_line(&mut out, "  ss: ", self.ss);
        push_str(&mut out, "}\n");
        proof {
            assert(out@ =~= display_text(*self));
        }
        out
    }

    /// The frame dump sent to the serial port (see `serial_text`).
    pub fn display_serial(&self) -> (text: Vec<u8>)
        ensures
            text@ == serial_text(*self),
    {
        let mut out: Vec<u8> = Vec::new();
        push_str(&mut out, "TrapFrame {\n");
        push_line(&mut out, "  r15: ", self.r15);
        push_line(&mut out, "  r14: ", self.r14);
        push_line(&mut out, "  r13: ", self.r13);
        push_line(&mut out, "  r12: ", self.r12);
        push_line(&mut out, "  r11: ", self.r11);
        push_line(&mut out, "  r10: ", self.r10);
        push_line(&mut out, "  r9 : ", self.r9);
        push_line(&mut out, "  r8 : ", self.r8);
        push_line(&mut out, "  rbp: ", self.rbp);
        push_line(&mut out, "  rdi: ", self.rdi);
        push_line(&mut out, "  rsi: ", self.rsi);
        push_line(&mut out, "  rdx: ", self.rdx);
        push_line(&mut out, "  rcx: ", self.rcx);
        push_line(&mut out, "  rbx: ", self.rbx);
        proof {
            assert(out@ =~= serial_text(*self));
        }
        out
    }
}

} // verus!
