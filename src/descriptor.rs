//! Segment and interrupt descriptors, and the tables built from them.
use vstd::prelude::*;

verus! {

pub const GDT_TYPE_CODE: u8 = 0x0A;

pub const GDT_TYPE_DATA: u8 = 0x02;

pub const GDT_TYPE_TSS: u8 = 0x09;

pub const GDT_FLAGS_LOWER_S: u8 = 0x10;

pub const GDT_FLAGS_LOWER_DPL0: u8 = 0x00;

pub const GDT_FLAGS_LOWER_P: u8 = 0x80;

pub const GDT_FLAGS_UPPER_L: u8 = 0x20;

pub const GDT_FLAGS_UPPER_G: u8 = 0x80;

pub const GDT_FLAG_LOWER_KERNELCODE: u8 = GDT_TYPE_CODE | GDT_FLAGS_LOWER_S | GDT_FLAGS_LOWER_DPL0 | GDT_FLAGS_LOWER_P;

pub const GDT_FLAG_LOWER_KERNELDATA: u8 = GDT_TYPE_DATA | GDT_FLAGS_LOWER_S | GDT_FLAGS_LOWER_DPL0 | GDT_FLAGS_LOWER_P;

pub const GDT_FLAG_LOWER_TSS: u8 = GDT_FLAGS_LOWER_DPL0 | GDT_FLAGS_LOWER_P;

pub const GDT_FLAGS_UPPER_CODE: u8 = GDT_FLAGS_UPPER_G | GDT_FLAGS_UPPER_L;

pub const GDT_FLAGS_UPPER_DATA: u8 = GDT_FLAGS_UPPER_G | GDT_FLAGS_UPPER_L;

pub const GDT_FLAGS_UPPER_TSS: u8 = GDT_FLAGS_UPPER_G;

pub const GDT_KERNELCODESEGMENT: u16 = 0x08;

pub const GDT_KERNELDATASEGMENT: u16 = 0x10;

pub const GDT_TSSSEGMENT: u16 = 0x18;

/// Physical address of the GDTR, which the tables follow.
pub const GDTR_STARTADDRESS: u64 = 0x142000;

/// Bytes of a GDTR or IDTR record.
pub const GDTR_SIZE: u64 = 16;

/// Three 8-byte entries and one 16-byte entry.
pub const GDT_TABLESIZE: u64 = 8 * 3 + 16;

/// Bytes of the TSS.
pub const TSS_SEGMENTSIZE: u64 = 104;

pub const IDT_TYPE_INTERRUPT: u8 = 0x0E;

pub const IDT_FLAGS_DPL0: u8 = 0x00;

pub const IDT_FLAGS_P: u8 = 0x80;

pub const IDT_FLAGS_IST1: u8 = 1;

pub const IDT_FLAGS_KERNEL: u8 = IDT_FLAGS_DPL0 | IDT_FLAGS_P;

/// Number of interrupt gates.
pub const IDT_MAXENTRYCOUNT: u64 = 100;

/// Bytes of one gate.
pub const IDT_ENTRYSIZE: u64 = 16;

pub const IDTR_STARTADDRESS: u64 = GDTR_STARTADDRESS + GDTR_SIZE + GDT_TABLESIZE + TSS_SEGMENTSIZE;

pub const IDT_STARTADDRESS: u64 = IDTR_STARTADDRESS + GDTR_SIZE;

pub const IST_STARTADDRESS: u64 = 0x700000;

pub const IST_SIZE: u64 = 0x100000;

/// Interrupt stack pointers in the TSS.
pub const TSS_ISTCOUNT: usize = 7;

/// Limit and base of a descriptor table.
#[derive(Clone, Copy, PartialEq, Eq, Structural)]
pub struct GDTRStruct {
    pub limit: u16,
    pub base_address: u64,
}

/// An 8-byte segment descriptor.
#[derive(Clone, Copy, PartialEq, Eq, Structural)]
pub struct GDTEntry8Struct {
    pub lower_limit: u16,
    pub lower_base_address: u16,
    pub upper_base_address1: u8,
    pub type_and_lower_flag: u8,
    pub upper_limit_and_upper_flag: u8,
    pub upper_base_address2: u8,
}

/// A 16-byte system descriptor (the TSS).
#[derive(Clone, Copy, PartialEq, Eq, Structural)]
pub struct GDTEntry16Struct {
    pub lower_limit: u16,
    pub lower_base_address: u16,
    pub middle_base_address1: u8,
    pub type_and_lower_flag: u8,
    pub upper_limit_and_upper_flag: u8,
    pub middle_base_address2: u8,
    pub upper_base_address: u32,
    pub reserved: u32,
}

/// A 16-byte interrupt gate.
#[derive(Clone, Copy, PartialEq, Eq, Structural)]
pub struct IDTEntryStruct {
    pub lower_base_address: u16,
    pub segment_selector: u16,
    pub ist: u8,
    pub type_and_flags: u8,
    pub middle_base_address: u16,
    pub upper_base_address: u32,
    pub reserved: u32,
}

/// The task-state segment; only the interrupt stacks and the I/O map base
/// are used.
#[derive(Clone, Copy)]
pub struct TSSDataStruct {
    pub ist: [u64; TSS_ISTCOUNT],
    pub io_map_base_address: u16,
}

impl GDTEntry8Struct {
    /// The base address the entry encodes.
    pub open spec fn base(&self) -> int {
        self.lower_base_address + self.upper_base_address1 * 0x10000 + self.upper_base_address2
            * 0x1000000
    }

    /// A zero entry.
    pub fn new() -> (r: Self)
        ensures
            r.base() == 0 && r.lower_limit == 0 && r.type_and_lower_flag == 0
                && r.upper_limit_and_upper_flag == 0,
    {
        GDTEntry8Struct {
            lower_limit: 0,
            lower_base_address: 0,
            upper_base_address1: 0,
            type_and_lower_flag: 0,
            upper_limit_and_upper_flag: 0,
            upper_base_address2: 0,
        }
    }

    /// Packs base, 20-bit limit, flags and type.
    pub fn set(&mut self, base_address: u32, limit: u32, upper_flags: u8, lower_flags: u8, typ: u8)
        ensures
            final(self).base() == base_address,
            final(self).lower_limit == limit % 0x10000,
            final(self).upper_limit_and_upper_flag == ((limit / 0x10000) % 0x100) as u8 | upper_flags,
            final(self).type_and_lower_flag == lower_flags | typ,
    {
        self.lower_limit = (limit & 0xFFFF) as u16;
        self.lower_base_address = (base_address & 0xFFFF) as u16;
        self.upper_base_address1 = ((base_address >> 16) & 0xFF) as u8;
        self.type_and_lower_flag = lower_flags | typ;
        self.upper_limit_and_upper_flag = ((limit >> 16) & 0xFF) as u8 | upper_flags;
        self.upper_base_address2 = ((base_address >> 24) & 0xFF) as u8;
        proof {
            lemma_split_u32(base_address);
            lemma_split_u32(limit);
        }
    }
}

/// The byte fields of a 32-bit value.
proof fn lemma_split_u32(x: u32)
    ensures
        (x & 0xFFFF) as int == x % 0x10000,
        ((x >> 16) & 0xFF) as int == (x / 0x10000) % 0x100,
        ((x >> 24) & 0xFF) as int == x / 0x1000000,
        x == x % 0x10000 + ((x / 0x10000) % 0x100) * 0x10000 + (x / 0x1000000) * 0x1000000,
{
    assert(x & 0xFFFF == x % 0x10000) by (bit_vector);
    assert((x >> 16) & 0xFF == (x / 0x10000) % 0x100) by (bit_vector);
    assert((x >> 24) & 0xFF == x / 0x1000000) by (bit_vector);
    assert(x == x % 0x10000 + ((x / 0x10000) % 0x100) * 0x10000 + (x / 0x1000000) * 0x1000000) by (nonlinear_arith);
}

/// The 16-bit fields of a 64-bit value.
proof fn lemma_split_u64(x: u64)
    ensures
        (x & 0xFFFF) as int == x % 0x10000,
        ((x >> 16) & 0xFF) as int == (x / 0x10000) % 0x100,
        ((x >> 24) & 0xFF) as int == (x / 0x1000000) % 0x100,
        ((x >> 16) & 0xFFFF) as int == (x / 0x10000) % 0x10000,
        (x >> 32) as int == x / 0x100000000,
        x == x % 0x10000 + ((x / 0x10000) % 0x100) * 0x10000 + ((x / 0x1000000) % 0x100) * 0x1000000 + (x / 0x100000000) * 0x100000000,
        x == x % 0x10000 + ((x / 0x10000) % 0x10000) * 0x10000 + (x / 0x100000000) * 0x100000000,
{
    assert(x & 0xFFFF == x % 0x10000) by (bit_vector);
    assert((x >> 16) & 0xFF == (x / 0x10000) % 0x100) by (bit_vector);
    assert((x >> 24) & 0xFF == (x / 0x1000000) % 0x100) by (bit_vector);
    assert((x >> 16) & 0xFFFF == (x / 0x10000) % 0x10000) by (bit_vector);
    assert(x >> 32 == x / 0x100000000) by (bit_vector);
    assert(x == x % 0x10000 + ((x / 0x10000) % 0x100) * 0x10000 + ((x / 0x1000000) % 0x100) * 0x1000000 + (x / 0x100000000) * 0x100000000) by (nonlinear_arith);
    assert(x == x % 0x10000 + ((x / 0x10000) % 0x10000) * 0x10000 + (x / 0x100000000) * 0x100000000) by (nonlinear_arith);
}

impl GDTEntry16Struct {
    /// The base address the entry encodes.
    pub open spec fn base(&self) -> int {
        self.lower_base_address + self.middle_base_address1 * 0x10000 + self.middle_base_address2
            * 0x1000000 + self.upper_base_address * 0x100000000
    }

    /// A zero entry.
    pub fn new() -> (r: Self)
        ensures
            r.base() == 0 && r.reserved == 0,
    {
        GDTEntry16Struct {
            lower_limit: 0,
            lower_base_address: 0,
            middle_base_address1: 0,
            type_and_lower_flag: 0,
            upper_limit_and_upper_flag: 0,
            middle_base_address2: 0,
            upper_base_address: 0,
            reserved: 0,
        }
    }

    /// Packs a 64-bit base, 20-bit limit, flags and type.
    pub fn set(&mut self, base_address: u64, limit: u32, upper_flags: u8, lower_flags: u8, typ: u8)
        ensures
            final(self).base() == base_address,
            final(self).lower_limit == limit % 0x10000,
            final(self).upper_limit_and_upper_flag == ((limit / 0x10000) % 0x100) as u8 | upper_flags,
            final(self).type_and_lower_flag == lower_flags | typ,
            final(self).reserved == 0,
    {
        self.lower_limit = (limit & 0xFFFF) as u16;
        self.lower_base_address = (base_address & 0xFFFF) as u16;
        self.middle_base_address1 = ((base_address >> 16) & 0xFF) as u8;
        self.type_and_lower_flag = lower_flags | typ;
        self.upper_limit_and_upper_flag = ((limit >> 16) & 0xFF) as u8 | upper_flags;
        self.middle_base_address2 = ((base_address >> 24) & 0xFF) as u8;
        self.upper_base_address = (base_address >> 32) as u32;
        self.reserved = 0;
        proof {
            lemma_split_u64(base_address);
            lemma_split_u32(limit);
        }
    }
}

impl IDTEntryStruct {
    /// The handler address held in the entry.
    pub open spec fn handler(&self) -> int {
        self.lower_base_address + self.middle_base_address * 0x10000 + self.upper_base_address
            * 0x100000000
    }

    /// A zero gate.
    pub fn new() -> (r: Self)
        ensures
            r.handler() == 0 && r.segment_selector == 0 && r.ist == 0 && r.type_and_flags == 0
                && r.reserved == 0,
    {
        IDTEntryStruct {
            lower_base_address: 0,
            segment_selector: 0,
            ist: 0,
            type_and_flags: 0,
            middle_base_address: 0,
            upper_base_address: 0,
            reserved: 0,
        }
    }

    /// Packs the handler address, selector, stack index (two bits), flags and
    /// type.
    pub fn set(&mut self, handler: u64, selector: u16, ist: u8, flags: u8, typ: u8)
        ensures
            final(self).handler() == handler,
            final(self).segment_selector == selector,
            final(self).ist == ist % 4,
            final(self).type_and_flags == typ | flags,
            final(self).reserved == 0,
    {
        self.lower_base_address = (handler & 0xFFFF) as u16;
        self.segment_selector = selector;
        self.ist = ist & 0x3;
        self.type_and_flags = typ | flags;
        self.middle_base_address = ((handler >> 16) & 0xFFFF) as u16;
        self.upper_base_address = (handler >> 32) as u32;
        self.reserved = 0;
        proof {
            lemma_split_u64(handler);
            assert(ist & 0x3 == ist % 4) by (bit_vector);
        }
    }
}

/// The entry stub a vector is wired to.
#[derive(Clone, Copy, PartialEq, Eq, Structural, Debug)]
pub enum VectorHandler {
    /// The architectural exception of that number (0 to 19).
    Exception(u8),
    /// Reserved exception vectors 20 to 31 share one stub.
    CommonException,
    /// Hardware IRQ 0 to 15, at vectors 32 to 47 after remapping.
    Irq(u8),
    /// Every vector from 48 on.
    CommonInterrupt,
}

/// Which stub vector `vector` is wired to.
pub fn vector_handler(vector: u8) -> (r: VectorHandler)
    ensures
        vector < 20 ==> r == VectorHandler::Exception(vector),
        20 <= vector < 32 ==> r == VectorHandler::CommonException,
        32 <= vector < 48 ==> r == VectorHandler::Irq((vector - 32) as u8),
        48 <= vector ==> r == VectorHandler::CommonInterrupt,
{
    if vector < 20 {
        VectorHandler::Exception(vector)
    } else if vector < 32 {
        VectorHandler::CommonException
    } else if vector < 48 {
        VectorHandler::Irq(vector - 32)
    } else {
        VectorHandler::CommonInterrupt
    }
}

/// A kernel interrupt gate: kernel code selector, interrupt stack 1, present,
/// privilege 0, interrupt-gate type.
pub open spec fn is_kernel_gate(e: IDTEntryStruct, handler: u64) -> bool {
    &&& e.handler() == handler
    &&& e.segment_selector == GDT_KERNELCODESEGMENT
    &&& e.ist == IDT_FLAGS_IST1
    &&& e.type_and_flags == IDT_TYPE_INTERRUPT | IDT_FLAGS_KERNEL
    &&& e.reserved == 0
}

/// The IDTR and one kernel interrupt entry per vector; entry `v` points at
/// `handlers[v]`.
#[allow(non_snake_case)]
pub fn InitializeIDTTables(handlers: &Vec<u64>) -> (r: (GDTRStruct, Vec<IDTEntryStruct>))
    requires
        handlers@.len() == IDT_MAXENTRYCOUNT,
    ensures
        r.0.base_address == IDT_STARTADDRESS,
        r.0.limit == IDT_MAXENTRYCOUNT * IDT_ENTRYSIZE - 1,
        r.1@.len() == IDT_MAXENTRYCOUNT,
        forall|v: int| 0 <= v < IDT_MAXENTRYCOUNT ==> is_kernel_gate(#[trigger] r.1@[v], handlers@[v]),
{
    let mut entries: Vec<IDTEntryStruct> = Vec::new();
    let mut v: usize = 0;
    while v < IDT_MAXENTRYCOUNT as usize
        invariant
            handlers@.len() == IDT_MAXENTRYCOUNT,
            v <= IDT_MAXENTRYCOUNT,
            entries@.len() == v,
            forall|k: int| 0 <= k < v ==> is_kernel_gate(#[trigger] entries@[k], handlers@[k]),
        decreases IDT_MAXENTRYCOUNT - v,
    {
        let mut gate = IDTEntryStruct::new();
        gate.set(handlers[v], GDT_KERNELCODESEGMENT, IDT_FLAGS_IST1, IDT_FLAGS_KERNEL, IDT_TYPE_INTERRUPT);
        entries.push(gate);
        v = v + 1;
    }
    let idtr = GDTRStruct {
        limit: (IDT_MAXENTRYCOUNT * IDT_ENTRYSIZE - 1) as u16,
        base_address: IDT_STARTADDRESS,
    };
    (idtr, entries)
}

/// The descriptor region: GDTR, null / kernel code / kernel data entries, the
/// TSS descriptor and the TSS.
pub struct GdtTables {
    pub gdtr: GDTRStruct,
    pub entries: [GDTEntry8Struct; 3],
    pub tss_descriptor: GDTEntry16Struct,
    pub tss: TSSDataStruct,
}

/// Builds the descriptor region laid out from `GDTR_STARTADDRESS`.
#[allow(non_snake_case)]
pub fn InitializeGDTTableAndTTS() -> (r: GdtTables)
    ensures
        r.gdtr.base_address == GDTR_STARTADDRESS + GDTR_SIZE,
        r.gdtr.limit == GDT_TABLESIZE - 1,
        r.entries[0].base() == 0 && r.entries[0].lower_limit == 0 && r.entries[0].type_and_lower_flag == 0,
        r.entries[1].base() == 0 && r.entries[1].lower_limit == 0xFFFF
            && r.entries[1].upper_limit_and_upper_flag == 0x0F | GDT_FLAGS_UPPER_CODE
            && r.entries[1].type_and_lower_flag == GDT_FLAG_LOWER_KERNELCODE | GDT_TYPE_CODE,
        r.entries[2].base() == 0 && r.entries[2].lower_limit == 0xFFFF
            && r.entries[2].upper_limit_and_upper_flag == 0x0F | GDT_FLAGS_UPPER_DATA
            && r.entries[2].type_and_lower_flag == GDT_FLAG_LOWER_KERNELDATA | GDT_TYPE_DATA,
        r.tss_descriptor.base() == GDTR_STARTADDRESS + GDTR_SIZE + GDT_TABLESIZE,
        r.tss_descriptor.lower_limit == TSS_SEGMENTSIZE - 1,
        r.tss_descriptor.type_and_lower_flag == GDT_FLAG_LOWER_TSS | GDT_TYPE_TSS,
        r.tss.ist[0] == IST_STARTADDRESS + IST_SIZE,
        forall|i: int| 1 <= i < 7 ==> r.tss.ist[i] == 0,
        r.tss.io_map_base_address == 0xFFFF,
{
    let mut null = GDTEntry8Struct::new();
    null.set(0, 0, 0, 0, 0);
    assert(0u8 | 0u8 == 0u8) by (bit_vector);
    let mut code = GDTEntry8Struct::new();
    code.set(0, 0xFFFFF, GDT_FLAGS_UPPER_CODE, GDT_FLAG_LOWER_KERNELCODE, GDT_TYPE_CODE);
    let mut data = GDTEntry8Struct::new();
    data.set(0, 0xFFFFF, GDT_FLAGS_UPPER_DATA, GDT_FLAG_LOWER_KERNELDATA, GDT_TYPE_DATA);
    let mut tss_descriptor = GDTEntry16Struct::new();
    tss_descriptor.set(
        GDTR_STARTADDRESS + GDTR_SIZE + GDT_TABLESIZE,
        (TSS_SEGMENTSIZE - 1) as u32,
        GDT_FLAGS_UPPER_TSS,
        GDT_FLAG_LOWER_TSS,
        GDT_TYPE_TSS,
    );
    let mut ist = [0u64; TSS_ISTCOUNT];
    ist[0] = IST_STARTADDRESS + IST_SIZE;
    GdtTables {
        gdtr: GDTRStruct { limit: (GDT_TABLESIZE - 1) as u16, base_address: GDTR_STARTADDRESS + GDTR_SIZE },
        entries: [null, code, data],
        tss_descriptor,
        tss: TSSDataStruct { ist, io_map_base_address: 0xFFFF },
    }
}

} // verus!
