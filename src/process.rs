//! Task records and the fixed pool they live in. A task id is
//! `(generation << 32) | slot`; generation 0 marks a free slot.
use vstd::prelude::*;

use crate::descriptor::{GDT_KERNELCODESEGMENT, GDT_KERNELDATASEGMENT};
use crate::round_robin::PROCESS_MAXCOUNT;

verus! {

/// Registers saved per task: four segment selectors, the general registers,
/// then RIP, CS, RFLAGS, RSP and SS.
pub const PROCESS_REGISTERCOUNT: usize = 24;

/// Physical address of the pool.
pub const PROCESS_POOLADDRESS: u64 = 0x800000;

/// Bytes of one task record.
pub const PROCESS_RECORDSIZE: u64 = 224;

/// Kernel stack of each task.
pub const PROCESS_STACKSIZE: u64 = 8192;

/// The stacks follow the pool, one per slot.
pub const PROCESS_STACKADDRESS: u64 = PROCESS_POOLADDRESS + PROCESS_RECORDSIZE * 1024;

/// The task has ended and waits to be reaped.
pub const PROCESS_FLAG_ENDTASK: u64 = 0x8000000000000000;

/// The task is the idle task.
pub const PROCESS_FLAG_IDLETASK: u64 = 0x0800000000000000;

/// Largest generation; the next one after it is 1.
pub const PROCESS_MAXGENERATION: u64 = 0xFFFF_FFFF;

pub const REG_GS: usize = 0;

pub const REG_FS: usize = 1;

pub const REG_ES: usize = 2;

pub const REG_DS: usize = 3;

pub const REG_RBP: usize = 18;

pub const REG_RIP: usize = 19;

pub const REG_CS: usize = 20;

pub const REG_RFLAGS: usize = 21;

pub const REG_RSP: usize = 22;

pub const REG_SS: usize = 23;

/// The interrupt-enable bit of RFLAGS.
pub const RFLAGS_IF: u64 = 0x0200;

/// Slot of an id: its low 32 bits.
pub open spec fn slot_of(id: u64) -> u64 {
    id & 0xFFFF_FFFF
}

/// Generation of an id: its high 32 bits.
pub open spec fn generation_of(id: u64) -> u64 {
    id >> 32
}

/// The id of generation `g` in slot `i`.
pub open spec fn make_id(g: u64, i: u64) -> u64 {
    (g << 32) | i
}

pub proof fn lemma_make_id(g: u64, i: u64)
    requires
        g <= 0xFFFF_FFFF,
        i <= 0xFFFF_FFFF,
    ensures
        slot_of(make_id(g, i)) == i,
        generation_of(make_id(g, i)) == g,
{
    assert(((g << 32) | i) & 0xFFFF_FFFF == i && ((g << 32) | i) >> 32 == g) by (bit_vector)
        requires
            g <= 0xFFFF_FFFF,
            i <= 0xFFFF_FFFF,
    ;
}

/// A slot index is its own slot and has generation 0.
pub proof fn lemma_slot_id(i: u64)
    requires
        i <= 0xFFFF_FFFF,
    ensures
        slot_of(i) == i,
        generation_of(i) == 0,
{
    assert(i & 0xFFFF_FFFF == i && i >> 32 == 0) by (bit_vector)
        requires
            i <= 0xFFFF_FFFF,
    ;
}

/// The register file of a task.
#[derive(Clone, Copy)]
pub struct Context {
    pub registers: [u64; PROCESS_REGISTERCOUNT],
}

impl Context {
    /// All registers zero.
    pub fn empty() -> (r: Self)
        ensures
            forall|i: int| 0 <= i < PROCESS_REGISTERCOUNT ==> r.registers[i] == 0,
    {
        Context { registers: [0u64; PROCESS_REGISTERCOUNT] }
    }
}

/// The registers of a fresh task entering at `entry` with its stack top at
/// `top`: RSP and RBP at the top, kernel code and data selectors, RIP at the
/// entry, interrupts enabled, the rest zero.
pub open spec fn initial_register(entry: u64, top: u64, i: int) -> u64 {
    if i == REG_RSP || i == REG_RBP {
        top
    } else if i == REG_CS {
        GDT_KERNELCODESEGMENT as u64
    } else if i == REG_DS || i == REG_ES || i == REG_FS || i == REG_GS || i == REG_SS {
        GDT_KERNELDATASEGMENT as u64
    } else if i == REG_RIP {
        entry
    } else if i == REG_RFLAGS {
        RFLAGS_IF
    } else {
        0
    }
}

/// One task record.
#[derive(Clone, Copy)]
pub struct Process {
    pub context: Context,
    pub id: u64,
    pub flags: u64,
    pub stack: u64,
    pub stack_size: u64,
}

impl Process {
    /// A record set up as `set` leaves it, with id 0.
    pub fn new(flags: u64, entry_point: u64, stack: u64, stack_size: u64) -> (r: Self)
        requires
            stack + stack_size <= u64::MAX,
        ensures
            r.id == 0,
            r.flags == flags,
            r.stack == stack,
            r.stack_size == stack_size,
            forall|i: int|
                0 <= i < PROCESS_REGISTERCOUNT ==> r.context.registers[i] == initial_register(
                    entry_point,
                    (stack + stack_size) as u64,
                    i,
                ),
    {
        let mut process = Process { context: Context::empty(), id: 0, flags, stack, stack_size };
        process.set(flags, entry_point, stack, stack_size);
        process
    }

    /// Resets the registers for a task that enters at `entry_point` on the
    /// stack `stack .. stack + stack_size`, and stores the flags and stack.
    pub fn set(&mut self, flags: u64, entry_point: u64, stack: u64, stack_size: u64)
        requires
            stack + stack_size <= u64::MAX,
        ensures
            final(self).id == old(self).id,
            final(self).flags == flags,
            final(self).stack == stack,
            final(self).stack_size == stack_size,
            forall|i: int|
                0 <= i < PROCESS_REGISTERCOUNT ==> final(self).context.registers[i]
                    == initial_register(entry_point, (stack + stack_size) as u64, i),
    {
        let top = stack + stack_size;
        let mut registers = [0u64; PROCESS_REGISTERCOUNT];
        registers[REG_RSP] = top;
        registers[REG_RBP] = top;
        registers[REG_CS] = GDT_KERNELCODESEGMENT as u64;
        registers[REG_DS] = GDT_KERNELDATASEGMENT as u64;
        registers[REG_ES] = GDT_KERNELDATASEGMENT as u64;
        registers[REG_FS] = GDT_KERNELDATASEGMENT as u64;
        registers[REG_GS] = GDT_KERNELDATASEGMENT as u64;
        registers[REG_SS] = GDT_KERNELDATASEGMENT as u64;
        registers[REG_RIP] = entry_point;
        registers[REG_RFLAGS] = registers[REG_RFLAGS] | RFLAGS_IF;
        assert(0u64 | RFLAGS_IF == RFLAGS_IF) by (bit_vector);
        self.context = Context { registers };
        self.flags = flags;
        self.stack = stack;
        self.stack_size = stack_size;
        assert forall|i: int| 0 <= i < PROCESS_REGISTERCOUNT implies self.context.registers[i]
            == initial_register(entry_point, top, i) by {}
    }
}

/// Number of used records (generation not 0) among the first `n` of `s`.
pub open spec fn count_used(s: Seq<Process>, n: int) -> nat
    decreases n,
{
    if n <= 0 {
        0
    } else {
        count_used(s, n - 1) + if generation_of(s[n - 1].id) != 0 {
            1nat
        } else {
            0nat
        }
    }
}

proof fn lemma_count_used_bound(s: Seq<Process>, n: int)
    requires
        0 <= n,
    ensures
        count_used(s, n) <= n,
    decreases n,
{
    if n > 0 {
        lemma_count_used_bound(s, n - 1);
    }
}

/// Replacing record `i` changes the count only by its own change of state.
proof fn lemma_count_used_update(s: Seq<Process>, n: int, i: int, p: Process)
    requires
        0 <= i < s.len(),
        0 <= n <= s.len(),
    ensures
        count_used(s.update(i, p), n) + (if i < n && generation_of(s[i].id) != 0 {
            1nat
        } else {
            0nat
        }) == count_used(s, n) + (if i < n && generation_of(p.id) != 0 {
            1nat
        } else {
            0nat
        }),
    decreases n,
{
    if n > 0 {
        lemma_count_used_update(s, n - 1, i, p);
    }
}

/// When every one of the first `n` records is used, the count is `n`; a
/// count of `n` leaves no free record among them.
proof fn lemma_count_used_full(s: Seq<Process>, n: int)
    requires
        0 <= n <= s.len(),
    ensures
        count_used(s, n) == n <==> forall|i: int| 0 <= i < n ==> generation_of(s[i].id) != 0,
    decreases n,
{
    lemma_count_used_bound(s, n);
    if n > 0 {
        lemma_count_used_full(s, n - 1);
        lemma_count_used_bound(s, n - 1);
    }
}

/// The fixed pool of task records.
pub struct ProcessPool {
    pool: Vec<Process>,
    max_count: usize,
    use_count: usize,
    alloc_count: u64,
}

impl ProcessPool {
    /// The records, by slot.
    pub closed spec fn view(&self) -> Seq<Process> {
        self.pool@
    }

    /// Slot `i` holds a task.
    pub open spec fn used(&self, i: int) -> bool {
        generation_of(self@[i].id) != 0
    }

    /// Number of used slots.
    pub closed spec fn in_use(&self) -> nat {
        self.use_count as nat
    }

    /// The generation the next allocation gets.
    pub closed spec fn next_generation(&self) -> u64 {
        self.alloc_count
    }

    pub closed spec fn inv(&self) -> bool {
        &&& self.pool@.len() == PROCESS_MAXCOUNT
        &&& self.max_count == PROCESS_MAXCOUNT
        &&& self.use_count == count_used(self.pool@, PROCESS_MAXCOUNT as int)
        &&& 1 <= self.alloc_count <= PROCESS_MAXGENERATION
        &&& forall|i: int| 0 <= i < PROCESS_MAXCOUNT ==> slot_of(#[trigger] self.pool@[i].id) == i
    }

    /// Facts every caller may use.
    pub proof fn lemma_inv(&self)
        requires
            self.inv(),
        ensures
            self@.len() == PROCESS_MAXCOUNT,
            forall|i: int| 0 <= i < PROCESS_MAXCOUNT ==> slot_of(#[trigger] self@[i].id) == i,
            1 <= self.next_generation() <= PROCESS_MAXGENERATION,
            self.in_use() <= PROCESS_MAXCOUNT,
            self.in_use() == PROCESS_MAXCOUNT <==> forall|i: int|
                0 <= i < PROCESS_MAXCOUNT ==> #[trigger] self.used(i),
    {
        lemma_count_used_bound(self.pool@, PROCESS_MAXCOUNT as int);
        lemma_count_used_full(self.pool@, PROCESS_MAXCOUNT as int);
        if forall|i: int| 0 <= i < PROCESS_MAXCOUNT ==> #[trigger] self.used(i) {
            assert forall|i: int| 0 <= i < PROCESS_MAXCOUNT implies generation_of(
                self.pool@[i].id,
            ) != 0 by {
                assert(self.used(i));
            }
        }
    }

    /// Every slot free, its id its own index; the first generation is 1.
    pub fn new() -> (r: Self)
        ensures
            r.inv(),
            r.in_use() == 0,
            r.next_generation() == 1,
            forall|i: int| 0 <= i < PROCESS_MAXCOUNT ==> (#[trigger] r@[i]).id == i,
    {
        let mut pool: Vec<Process> = Vec::new();
        let mut i: usize = 0;
        while i < PROCESS_MAXCOUNT
            invariant
                i <= PROCESS_MAXCOUNT,
                pool@.len() == i,
                forall|k: int| 0 <= k < i ==> (#[trigger] pool@[k]).id == k,
                count_used(pool@, i as int) == 0,
            decreases PROCESS_MAXCOUNT - i,
        {
            let process = Process {
                context: Context::empty(),
                id: i as u64,
                flags: 0,
                stack: 0,
                stack_size: 0,
            };
            proof {
                lemma_slot_id(i as u64);
            }
            let ghost before = pool@;
            pool.push(process);
            proof {
                assert forall|n: int| 0 <= n <= i implies count_used(pool@, n) == count_used(before, n) by {
                    lemma_count_prefix(before, pool@, n);
                }
            }
            i = i + 1;
        }
        let r = ProcessPool { pool, max_count: PROCESS_MAXCOUNT, use_count: 0, alloc_count: 1 };
        proof {
            assert forall|k: int| 0 <= k < PROCESS_MAXCOUNT implies slot_of(#[trigger] r.pool@[k].id) == k by {
                lemma_slot_id(k as u64);
            }
        }
        r
    }

    /// Number of used slots.
    pub fn in_use_count(&self) -> (r: usize)
        ensures
            r == self.in_use(),
    {
        self.use_count
    }

    /// Record `idx`, whatever its generation.
    pub fn get(&self, idx: usize) -> (r: &Process)
        requires
            self.inv(),
            idx < PROCESS_MAXCOUNT,
        ensures
            *r == self@[idx as int],
    {
        &self.pool[idx]
    }

    /// The record of `id`, only while `id` is its live id.
    pub fn get_by_id(&self, id: u64) -> (r: Option<&Process>)
        requires
            self.inv(),
        ensures
            r is Some <==> slot_of(id) < PROCESS_MAXCOUNT && self@[slot_of(id) as int].id == id,
            r is Some ==> *r->Some_0 == self@[slot_of(id) as int],
    {
        let idx = id & 0xFFFF_FFFF;
        if idx >= PROCESS_MAXCOUNT as u64 {
            return None;
        }
        if self.pool[idx as usize].id == id {
            Some(&self.pool[idx as usize])
        } else {
            None
        }
    }

    /// Replaces record `idx` by `p`, which keeps its id.
    fn replace_same_id(&mut self, idx: usize, p: Process)
        requires
            old(self).inv(),
            idx < PROCESS_MAXCOUNT,
            p.id == old(self)@[idx as int].id,
        ensures
            final(self).inv(),
            final(self)@ == old(self)@.update(idx as int, p),
            final(self).in_use() == old(self).in_use(),
            final(self).next_generation() == old(self).next_generation(),
    {
        let ghost before = self.pool@;
        self.pool.set(idx, p);
        proof {
            lemma_count_used_update(before, PROCESS_MAXCOUNT as int, idx as int, p);
            assert forall|i: int| 0 <= i < PROCESS_MAXCOUNT implies slot_of(#[trigger] self.pool@[i].id) == i by {
                assert(slot_of(before[i].id) == i);
            }
        }
    }

    /// Stores `flags` in record `idx`.
    pub fn set_flags(&mut self, idx: usize, flags: u64)
        requires
            old(self).inv(),
            idx < PROCESS_MAXCOUNT,
        ensures
            final(self).inv(),
            final(self)@ == old(self)@.update(idx as int, Process { flags, ..old(self)@[idx as int] }),
            final(self).in_use() == old(self).in_use(),
            final(self).next_generation() == old(self).next_generation(),
    {
        let mut p = self.pool[idx];
        p.flags = flags;
        self.replace_same_id(idx, p);
    }

    /// Stores `context` in record `idx`.
    pub fn set_context(&mut self, idx: usize, context: Context)
        requires
            old(self).inv(),
            idx < PROCESS_MAXCOUNT,
        ensures
            final(self).inv(),
            final(self)@ == old(self)@.update(idx as int, Process { context, ..old(self)@[idx as int] }),
            final(self).in_use() == old(self).in_use(),
            final(self).next_generation() == old(self).next_generation(),
    {
        let mut p = self.pool[idx];
        p.context = context;
        self.replace_same_id(idx, p);
    }

    /// Sets record `idx` up as `Process::set` does.
    pub fn setup(&mut self, idx: usize, flags: u64, entry_point: u64, stack: u64, stack_size: u64)
        requires
            old(self).inv(),
            idx < PROCESS_MAXCOUNT,
            stack + stack_size <= u64::MAX,
        ensures
            final(self).inv(),
            final(self)@.len() == old(self)@.len(),
            forall|i: int| 0 <= i < PROCESS_MAXCOUNT && i != idx ==> #[trigger] final(self)@[i] == old(self)@[i],
            final(self)@[idx as int].id == old(self)@[idx as int].id,
            final(self)@[idx as int].flags == flags,
            final(self)@[idx as int].stack == stack,
            final(self)@[idx as int].stack_size == stack_size,
            forall|i: int|
                0 <= i < PROCESS_REGISTERCOUNT ==> final(self)@[idx as int].context.registers[i]
                    == initial_register(entry_point, (stack + stack_size) as u64, i),
            final(self).in_use() == old(self).in_use(),
            final(self).next_generation() == old(self).next_generation(),
    {
        let mut p = self.pool[idx];
        p.set(flags, entry_point, stack, stack_size);
        self.replace_same_id(idx, p);
    }

    /// Takes the lowest free slot and gives it the next generation. Returns the
    /// new id, `(generation << 32) | slot`; `None`, changing nothing, when every
    /// slot is used. The generation after the largest one is 1, as 0 marks a
    /// free slot.
    pub fn allocate(&mut self) -> (r: Option<u64>)
        requires
            old(self).inv(),
        ensures
            final(self).inv(),
            r is None <==> old(self).in_use() == PROCESS_MAXCOUNT,
            r is None ==> *final(self) == *old(self),
            r is Some ==> ({
                let id = r->Some_0;
                let slot = slot_of(id) as int;
                &&& slot < PROCESS_MAXCOUNT
                &&& !old(self).used(slot)
                &&& forall|j: int| 0 <= j < slot ==> #[trigger] old(self).used(j)
                &&& id == make_id(old(self).next_generation(), slot as u64)
                &&& generation_of(id) == old(self).next_generation()
                &&& final(self)@ == old(self)@.update(slot, Process { id, ..old(self)@[slot] })
                &&& final(self).in_use() == old(self).in_use() + 1
                &&& final(self).next_generation() == if old(self).next_generation()
                    == PROCESS_MAXGENERATION {
                    1
                } else {
                    old(self).next_generation() + 1
                }
            }),
    {
        proof {
            self.lemma_inv();
        }
        if self.use_count == self.max_count {
            return None;
        }
        let mut i: usize = 0;
        while i < PROCESS_MAXCOUNT
            invariant
                self.inv(),
                self == old(self),
                i <= PROCESS_MAXCOUNT,
                forall|j: int| 0 <= j < i ==> #[trigger] self.used(j),
            decreases PROCESS_MAXCOUNT - i,
        {
            if self.pool[i].id >> 32 == 0 {
                let gen = self.alloc_count;
                let id = (gen << 32) | (i as u64);
                proof {
                    lemma_make_id(gen, i as u64);
                    lemma_count_used_update(self.pool@, PROCESS_MAXCOUNT as int, i as int, Process { id, ..self.pool@[i as int] });
                    lemma_count_used_bound(self.pool@.update(i as int, Process { id, ..self.pool@[i as int] }), PROCESS_MAXCOUNT as int);
                }
                let mut p = self.pool[i];
                p.id = id;
                let ghost before = self.pool@;
                self.pool.set(i, p);
                self.alloc_count = if gen == PROCESS_MAXGENERATION {
                    1
                } else {
                    gen + 1
                };
                self.use_count = self.use_count + 1;
                proof {
                    assert forall|k: int| 0 <= k < PROCESS_MAXCOUNT implies slot_of(#[trigger] self.pool@[k].id) == k by {
                        assert(slot_of(before[k].id) == k);
                    }
                }
                return Some(id);
            }
            i = i + 1;
        }
        proof {
            self.lemma_inv();
        }
        None
    }

    /// Frees the slot of `id` (its low 32 bits): zeroes its registers and
    /// resets its id to the slot index. `None`, changing nothing, when that
    /// slot is out of range or already free.
    pub fn dealloc(&mut self, id: u64) -> (r: Option<()>)
        requires
            old(self).inv(),
        ensures
            final(self).inv(),
            r is Some <==> slot_of(id) < PROCESS_MAXCOUNT && old(self).used(slot_of(id) as int),
            r is None ==> final(self)@ == old(self)@ && final(self).in_use() == old(self).in_use(),
            r is Some ==> ({
                let slot = slot_of(id) as int;
                &&& final(self)@.len() == old(self)@.len()
                &&& forall|i: int| 0 <= i < PROCESS_MAXCOUNT && i != slot ==> #[trigger] final(self)@[i] == old(self)@[i]
                &&& final(self)@[slot].id == slot
                &&& final(self)@[slot].flags == old(self)@[slot].flags
                &&& forall|k: int| 0 <= k < PROCESS_REGISTERCOUNT ==> final(self)@[slot].context.registers[k] == 0
                &&& final(self).in_use() + 1 == old(self).in_use()
            }),
            final(self).next_generation() == old(self).next_generation(),
    {
        let idx = id & 0xFFFF_FFFF;
        if idx >= PROCESS_MAXCOUNT as u64 {
            return None;
        }
        if self.pool[idx as usize].id >> 32 == 0 {
            return None;
        }
        let mut p = self.pool[idx as usize];
        p.context = Context::empty();
        p.id = idx;
        proof {
            lemma_slot_id(idx);
            lemma_count_used_update(self.pool@, PROCESS_MAXCOUNT as int, idx as int, p);
        }
        let ghost before = self.pool@;
        self.pool.set(idx as usize, p);
        self.use_count = self.use_count - 1;
        proof {
            assert forall|k: int| 0 <= k < PROCESS_MAXCOUNT implies slot_of(#[trigger] self.pool@[k].id) == k by {
                assert(slot_of(before[k].id) == k);
            }
        }
        Some(())
    }
}

/// Counting a prefix sees only the prefix.
proof fn lemma_count_prefix(a: Seq<Process>, b: Seq<Process>, n: int)
    requires
        0 <= n <= a.len(),
        n <= b.len(),
        forall|i: int| 0 <= i < n ==> a[i] == b[i],
    ensures
        count_used(a, n) == count_used(b, n),
    decreases n,
{
    if n > 0 {
        lemma_count_prefix(a, b, n - 1);
    }
}

/// A slot freed and allocated again gets a later generation: the new id's
/// generation is the pool's next one, which exceeds the old task's while the
/// generation counter has not wrapped since that task was created.
pub proof fn lemma_reuse_advances_generation(before: ProcessPool, freed: ProcessPool, id: u64, old_id: u64)
    requires
        before.inv(),
        generation_of(old_id) < before.next_generation(),
        freed.next_generation() == before.next_generation(),
        generation_of(id) == freed.next_generation(),
    ensures
        generation_of(id) >= generation_of(old_id) + 1,
{
}

} // verus!
