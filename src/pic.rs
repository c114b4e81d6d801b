//! The 8259A interrupt controller pair: remapping, masking and
//! end-of-interrupt, as the port writes that perform them.
use vstd::prelude::*;

use crate::port::{pw, PortWrite};

verus! {

pub const PIC_MASTER_PORT1: u16 = 0x20;

pub const PIC_MASTER_PORT2: u16 = 0x21;

pub const PIC_SLAVE_PORT1: u16 = 0xA0;

pub const PIC_SLAVE_PORT2: u16 = 0xA1;

/// Vector of IRQ0 after remapping; the slave starts 8 later.
pub const PIC_IRQSTARTVECTOR: u8 = 0x20;

/// ICW1 to ICW4 for both controllers: master at vectors 0x20 to 0x27 with
/// the slave on IRQ2, slave at 0x28 to 0x2F, 8086 mode.
#[allow(non_snake_case)]
pub fn InitializePIC() -> (r: Vec<PortWrite>)
    ensures
        r@ == seq![
            pw(PIC_MASTER_PORT1, 0x11),
            pw(PIC_MASTER_PORT2, PIC_IRQSTARTVECTOR),
            pw(PIC_MASTER_PORT2, 0x04),
            pw(PIC_MASTER_PORT2, 0x01),
            pw(PIC_SLAVE_PORT1, 0x11),
            pw(PIC_SLAVE_PORT2, (PIC_IRQSTARTVECTOR + 8) as u8),
            pw(PIC_SLAVE_PORT2, 0x02),
            pw(PIC_SLAVE_PORT2, 0x01),
        ],
{
    let mut r: Vec<PortWrite> = Vec::new();
    r.push(PortWrite { port: PIC_MASTER_PORT1, value: 0x11 });
    r.push(PortWrite { port: PIC_MASTER_PORT2, value: PIC_IRQSTARTVECTOR });
    r.push(PortWrite { port: PIC_MASTER_PORT2, value: 0x04 });
    r.push(PortWrite { port: PIC_MASTER_PORT2, value: 0x01 });
    r.push(PortWrite { port: PIC_SLAVE_PORT1, value: 0x11 });
    r.push(PortWrite { port: PIC_SLAVE_PORT2, value: PIC_IRQSTARTVECTOR + 8 });
    r.push(PortWrite { port: PIC_SLAVE_PORT2, value: 0x02 });
    r.push(PortWrite { port: PIC_SLAVE_PORT2, value: 0x01 });
    assert(r@ =~= seq![
        pw(PIC_MASTER_PORT1, 0x11),
        pw(PIC_MASTER_PORT2, PIC_IRQSTARTVECTOR),
        pw(PIC_MASTER_PORT2, 0x04),
        pw(PIC_MASTER_PORT2, 0x01),
        pw(PIC_SLAVE_PORT1, 0x11),
        pw(PIC_SLAVE_PORT2, (PIC_IRQSTARTVECTOR + 8) as u8),
        pw(PIC_SLAVE_PORT2, 0x02),
        pw(PIC_SLAVE_PORT2, 0x01),
    ]);
    r
}

/// Writes the mask: the low byte of `irq_bitmask` to the master, the high
/// byte to the slave (a set bit masks that IRQ).
#[allow(non_snake_case)]
pub fn MaskedPICInterrupt(irq_bitmask: u16) -> (r: [PortWrite; 2])
    ensures
        r[0] == pw(PIC_MASTER_PORT2, (irq_bitmask % 0x100) as u8),
        r[1] == pw(PIC_SLAVE_PORT2, (irq_bitmask / 0x100) as u8),
{
    assert((irq_bitmask & 0xFF) as u8 == (irq_bitmask % 0x100) as u8 && (irq_bitmask >> 8) as u8 == (irq_bitmask / 0x100) as u8) by (bit_vector);
    [
        PortWrite { port: PIC_MASTER_PORT2, value: (irq_bitmask & 0xFF) as u8 },
        PortWrite { port: PIC_SLAVE_PORT2, value: (irq_bitmask >> 8) as u8 },
    ]
}

/// End of interrupt for `irq_number`: to the master, and to the slave too for
/// IRQ 8 and above.
#[allow(non_snake_case)]
pub fn SendEOI(irq_number: u16) -> (r: Vec<PortWrite>)
    ensures
        irq_number < 8 ==> r@ == seq![pw(PIC_MASTER_PORT1, 0x20)],
        irq_number >= 8 ==> r@ == seq![pw(PIC_MASTER_PORT1, 0x20), pw(PIC_SLAVE_PORT1, 0x20)],
{
    let mut r: Vec<PortWrite> = Vec::new();
    r.push(PortWrite { port: PIC_MASTER_PORT1, value: 0x20 });
    if irq_number >= 8 {
        r.push(PortWrite { port: PIC_SLAVE_PORT1, value: 0x20 });
    }
    assert(irq_number < 8 ==> r@ =~= seq![pw(PIC_MASTER_PORT1, 0x20)]);
    assert(irq_number >= 8 ==> r@ =~= seq![pw(PIC_MASTER_PORT1, 0x20), pw(PIC_SLAVE_PORT1, 0x20)]);
    r
}

} // verus!
