//! The pair of 8259 interrupt controllers: their masks and the port writes
//! that program them.
use vstd::prelude::*;

verus! {

/// Command and data ports of the two controllers.
pub const PIC1_CMD: u16 = 0x20;
pub const PIC1_DATA: u16 = 0x21;
pub const PIC2_CMD: u16 = 0xA0;
pub const PIC2_DATA: u16 = 0xA1;

/// Commands: start initialisation, expect a fourth word, end of interrupt.
pub const PIC_INIT: u8 = 0x10;
pub const PIC_ICW4: u8 = 0x01;
pub const PIC_EOI: u8 = 0x20;

/// One step of talking to the controllers: a byte written to a port, or a
/// short wait for the controller to catch up.
#[derive(Clone, Copy, Debug, PartialEq, Eq, Structural)]
pub enum PortOp {
    Out { port: u16, value: u8 },
    Wait,
}

/// The masks of both controllers, as last written.
#[derive(Clone, Copy, Debug, PartialEq, Eq, Structural)]
pub struct Pic {
    pub mask1: u8,
    pub mask2: u8,
}

/// The mask bit of `irq` on its controller.
pub open spec fn irq_bit(irq: u8) -> u8 {
    if irq < 8 {
        (1u8 << irq) as u8
    } else {
        (1u8 << ((irq - 8) as u8)) as u8
    }
}

impl Pic {
    /// Both controllers with every line masked.
    pub fn new() -> (p: Pic)
        ensures
            p.mask1 == 0xFF && p.mask2 == 0xFF,
    {
        Pic { mask1: 0xFF, mask2: 0xFF }
    }

    /// Masks every line of both controllers.
    pub fn mask_all(&mut self) -> (ops: Vec<PortOp>)
        ensures
            final(self).mask1 == 0xFF && final(self).mask2 == 0xFF,
            ops@ == seq![
                PortOp::Out { port: PIC1_DATA, value: 0xFF },
                PortOp::Out { port: PIC2_DATA, value: 0xFF },
            ],
    {
        self.mask1 = 0xFF;
        self.mask2 = 0xFF;
        let mut ops = Vec::new();
        ops.push(PortOp::Out { port: PIC1_DATA, value: self.mask1 });
        ops.push(PortOp::Out { port: PIC2_DATA, value: self.mask2 });
        proof {
            assert(ops@ =~= seq![
                PortOp::Out { port: PIC1_DATA, value: 0xFF },
                PortOp::Out { port: PIC2_DATA, value: 0xFF },
            ]);
        }
        ops
    }

    /// Reprograms both controllers to deliver their lines at vectors
    /// `offset1` and `offset2`, cascaded, in 8086 mode, keeping the masks
    /// `saved1` and `saved2` that were read from them before.
    pub fn remap(&mut self, saved1: u8, saved2: u8, offset1: u8, offset2: u8) -> (ops: Vec<PortOp>)
        ensures
            final(self).mask1 == saved1 && final(self).mask2 == saved2,
            ops@ == seq![
                PortOp::Out { port: PIC1_CMD, value: PIC_INIT | PIC_ICW4 },
                PortOp::Wait,
                PortOp::Out { port: PIC2_CMD, value: PIC_INIT | PIC_ICW4 },
                PortOp::Wait,
                PortOp::Out { port: PIC1_DATA, value: offset1 },
                PortOp::Wait,
                PortOp::Out { port: PIC2_DATA, value: offset2 },
                PortOp::Wait,
                PortOp::Out { port: PIC1_DATA, value: 0x04 },
                PortOp::Wait,
                PortOp::Out { port: PIC2_DATA, value: 0x02 },
                PortOp::Wait,
                PortOp::Out { port: PIC1_DATA, value: PIC_ICW4 },
                PortOp::Wait,
                PortOp::Out { port: PIC2_DATA, value: PIC_ICW4 },
                PortOp::Wait,
                PortOp::Out { port: PIC1_DATA, value: saved1 },
                PortOp::Out { port: PIC2_DATA, value: saved2 },
            ],
    {
        self.mask1 = saved1;
        self.mask2 = saved2;
        let mut ops = Vec::new();
        ops.push(PortOp::Out { port: PIC1_CMD, value: PIC_INIT | PIC_ICW4 });
        ops.push(PortOp::Wait);
        ops.push(PortOp::Out { port: PIC2_CMD, value: PIC_INIT | PIC_ICW4 });
        ops.push(PortOp::Wait);
        ops.push(PortOp::Out { port: PIC1_DATA, value: offset1 });
        ops.push(PortOp::Wait);
        ops.push(PortOp::Out { port: PIC2_DATA, value: offset2 });
        ops.push(PortOp::Wait);
        ops.push(PortOp::Out { port: PIC1_DATA, value: 0x04 });
        ops.push(PortOp::Wait);
        ops.push(PortOp::Out { port: PIC2_DATA, value: 0x02 });
        ops.push(PortOp::Wait);
        ops.push(PortOp::Out { port: PIC1_DATA, value: PIC_ICW4 });
        ops.push(PortOp::Wait);
        ops.push(PortOp::Out { port: PIC2_DATA, value: PIC_ICW4 });
        ops.push(PortOp::Wait);
        ops.push(PortOp::Out { port: PIC1_DATA, value: self.mask1 });
        ops.push(PortOp::Out { port: PIC2_DATA, value: self.mask2 });
        proof {
            assert(ops@ =~= seq![
                PortOp::Out { port: PIC1_CMD, value: PIC_INIT | PIC_ICW4 },
                PortOp::Wait,
                PortOp::Out { port: PIC2_CMD, value: PIC_INIT | PIC_ICW4 },
                PortOp::Wait,
                PortOp::Out { port: PIC1_DATA, value: offset1 },
                PortOp::Wait,
                PortOp::Out { port: PIC2_DATA, value: offset2 },
                PortOp::Wait,
                PortOp::Out { port: PIC1_DATA, value: 0x04 },
                PortOp::Wait,
                PortOp::Out { port: PIC2_DATA, value: 0x02 },
                PortOp::Wait,
                PortOp::Out { port: PIC1_DATA, value: PIC_ICW4 },
                PortOp::Wait,
                PortOp::Out { port: PIC2_DATA, value: PIC_ICW4 },
                PortOp::Wait,
                PortOp::Out { port: PIC1_DATA, value: saved1 },
                PortOp::Out { port: PIC2_DATA, value: saved2 },
            ]);
        }
        ops
    }

    /// Masks line `irq` (0 to 15) and writes the new mask to its controller.
    pub fn set_mask(&mut self, irq: u8) -> (op: PortOp)
        requires
            irq < 16,
        ensures
            irq < 8 ==> final(self).mask1 == old(self).mask1 | irq_bit(irq) && final(self).mask2
                == old(self).mask2 && op == (PortOp::Out { port: PIC1_DATA, value: final(self).mask1 }),
            irq >= 8 ==> final(self).mask2 == old(self).mask2 | irq_bit(irq) && final(self).mask1
                == old(self).mask1 && op == (PortOp::Out { port: PIC2_DATA, value: final(self).mask2 }),
    {
        if irq < 8 {
            self.mask1 = self.mask1 | (1u8 << irq);
            PortOp::Out { port: PIC1_DATA, value: self.mask1 }
        } else {
            self.mask2 = self.mask2 | (1u8 << (irq - 8));
            PortOp::Out { port: PIC2_DATA, value: self.mask2 }
        }
    }

    /// Unmasks line `irq` (0 to 15) and writes the new mask to its
    /// controller.
    pub fn clear_mask(&mut self, irq: u8) -> (op: PortOp)
        requires
            irq < 16,
        ensures
            irq < 8 ==> final(self).mask1 == old(self).mask1 & !irq_bit(irq) && final(self).mask2
                == old(self).mask2 && op == (PortOp::Out { port: PIC1_DATA, value: final(self).mask1 }),
            irq >= 8 ==> final(self).mask2 == old(self).mask2 & !irq_bit(irq) && final(self).mask1
                == old(self).mask1 && op == (PortOp::Out { port: PIC2_DATA, value: final(self).mask2 }),
    {
        if irq < 8 {
            self.mask1 = self.mask1 & !(1u8 << irq);
            PortOp::Out { port: PIC1_DATA, value: self.mask1 }
        } else {
            self.mask2 = self.mask2 & !(1u8 << (irq - 8));
            PortOp::Out { port: PIC2_DATA, value: self.mask2 }
        }
    }
}

/// End of interrupt for line `irq`: the second controller is told first
/// when the line is one of its own, then the first controller.
pub fn eoi(irq: u8) -> (ops: Vec<PortOp>)
    ensures
        irq >= 8 ==> ops@ == seq![
            PortOp::Out { port: PIC2_CMD, value: PIC_EOI },
            PortOp::Out { port: PIC1_CMD, value: PIC_EOI },
        ],
        irq < 8 ==> ops@ == seq![PortOp::Out { port: PIC1_CMD, value: PIC_EOI }],
{
    let mut ops = Vec::new();
    if irq >= 8 {
        ops.push(PortOp::Out { port: PIC2_CMD, value: PIC_EOI });
    }
    ops.push(PortOp::Out { port: PIC1_CMD, value: PIC_EOI });
    proof {
        if irq >= 8 {
            assert(ops@ =~= seq![
                PortOp::Out { port: PIC2_CMD, value: PIC_EOI },
                PortOp::Out { port: PIC1_CMD, value: PIC_EOI },
            ]);
        } else {
            assert(ops@ =~= seq![PortOp::Out { port: PIC1_CMD, value: PIC_EOI }]);
        }
    }
    ops
}

/// Masking a line then unmasking it leaves that line unmasked and every
/// other line of the controller as it was.
pub proof fn law_clear_after_set(mask: u8, bit: u8, k: u8)
    requires
        bit < 8,
        k < 8,
    ensures
        ((mask | (1u8 << bit)) & !(1u8 << bit)) & (1u8 << k) == if k == bit {
            0u8
        } else {
            mask & (1u8 << k)
        },
{
    assert(((mask | (1u8 << bit)) & !(1u8 << bit)) & (1u8 << k) == if k == bit {
        0u8
    } else {
        mask & (1u8 << k)
    }) by (bit_vector)
        requires
            bit < 8,
            k < 8,
    ;
}

} // verus!
