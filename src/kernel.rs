//! Task lifecycle over the pool and the scheduler: creation, preemption,
//! cooperative yield, priority change, termination and reaping.
use vstd::prelude::*;

use crate::process::{
    generation_of, initial_register, lemma_make_id, make_id, slot_of, Context, ProcessPool,
    PROCESS_FLAG_ENDTASK, PROCESS_FLAG_IDLETASK, PROCESS_REGISTERCOUNT, PROCESS_STACKADDRESS,
    PROCESS_STACKSIZE,
};
use crate::round_robin::{
    get_priority, picks, set_priority, RRScheduler, PRIORITY_HIGHIST, PRIORITY_WAIT, PROCESS_MAXCOUNT,
    PROCESS_READYLISTCOUNT, PROCESS_TIME,
};

verus! {

/// A context switch that the caller carries out: save the registers of
/// `current` (unless it ended) and load those of `next`.
#[derive(Clone, Copy, PartialEq, Eq, Structural)]
pub struct Switch {
    pub current: u64,
    pub next: u64,
    pub save_current: bool,
}

/// The list a task goes back to: its priority's ready list, or the wait list.
pub open spec fn requeue_target(priority: u64) -> int {
    if priority == PRIORITY_WAIT {
        5
    } else {
        priority as int
    }
}

/// `b`'s lists are `a`'s with `pid` appended to the list of `priority`
/// (nothing appended for a priority that names no list); tokens kept.
pub open spec fn requeued(a: RRScheduler, b: RRScheduler, pid: u64, priority: u64) -> bool {
    let valid = priority == PRIORITY_WAIT || priority < PROCESS_READYLISTCOUNT;
    &&& forall|p: int|
        0 <= p < 5 ==> #[trigger] b.ready_list(p) == if valid && requeue_target(priority) == p {
            a.ready_list(p).push(pid)
        } else {
            a.ready_list(p)
        }
    &&& b.wait_list() == if valid && priority == PRIORITY_WAIT {
        a.wait_list().push(pid)
    } else {
        a.wait_list()
    }
    &&& forall|p: int| 0 <= p < 5 ==> #[trigger] b.tokens(p) == a.tokens(p)
}

/// A counter after one more event, wrapping to 0 after the largest value.
pub open spec fn bumped(c: u64) -> u64 {
    if c == u64::MAX {
        0
    } else {
        (c + 1) as u64
    }
}

/// Ready list `s` after `pid` left it (when `from`) and joined its tail
/// (when `to`).
pub open spec fn moved_list(s: Seq<u64>, pid: u64, from: bool, to: bool) -> Seq<u64> {
    let t = if from {
        s.remove(s.index_of(pid))
    } else {
        s
    };
    if to {
        t.push(pid)
    } else {
        t
    }
}

/// Id and flags of the used records among the first `n`, in order.
pub open spec fn used_tasks(s: Seq<crate::process::Process>, n: int) -> Seq<(u64, u64)>
    decreases n,
{
    if n <= 0 {
        Seq::empty()
    } else if generation_of(s[n - 1].id) != 0 {
        used_tasks(s, n - 1).push((s[n - 1].id, s[n - 1].flags))
    } else {
        used_tasks(s, n - 1)
    }
}

/// `b` and `sb` are the kernel and the saved frame after preempting `a`,
/// whose interrupted task's frame was `sa`: with a task ready the next one
/// runs, the interrupted one keeps `sa` as its registers (unless it ended),
/// is counted and goes back on its list, and `sb` holds the next task's
/// registers; with none ready nothing changes but the tokens.
pub open spec fn preempted(a: Kernel, b: Kernel, sa: Context, sb: Context) -> bool {
    &&& b.scheduler.quantum() == PROCESS_TIME
    &&& ((forall|p: int| 0 <= p < 5 ==> #[trigger] a.scheduler.ready_list(p).len() == 0) ==> {
                &&& b.scheduler.same_lists(a.scheduler)
                &&& b.running() == a.running()
                &&& b.pool == a.pool
                &&& sb == sa
                &&& b.idle_count == a.idle_count
                &&& b.tick_count == a.tick_count
            })
    &&& (!(forall|p: int| 0 <= p < 5 ==> #[trigger] a.scheduler.ready_list(p).len() == 0) ==> ({
                let cur = a.running();
                let flags = a.pool@[cur as int].flags;
                let ended = flags & PROCESS_FLAG_ENDTASK != 0;
                &&& exists|mid: RRScheduler, p: int|
                    #[trigger] picks(a.scheduler, mid, p) && requeued(mid, b.scheduler, cur, flags & 0xFF)
                        && b.running() == a.scheduler.ready_list(p)[0]
                &&& ended ==> b.pool@ == a.pool@
                &&& !ended ==> b.pool@ == a.pool@.update(cur as int, crate::process::Process { context: sa, ..a.pool@[cur as int] })
                &&& sb == a.pool@[b.running() as int].context
                &&& b.tick_count == if ended { a.tick_count } else { bumped(a.tick_count) }
                &&& b.idle_count == if !ended && flags & PROCESS_FLAG_IDLETASK != 0 {
                    bumped(a.idle_count)
                } else {
                    a.idle_count
                }
            }))
}

/// The whole task state of the kernel.
pub struct Kernel {
    pub pool: ProcessPool,
    pub scheduler: RRScheduler,
    /// Switches away from the idle task.
    pub idle_count: u64,
    /// Switches away from any task that had not ended.
    pub tick_count: u64,
}

impl Kernel {
    pub open spec fn running(&self) -> u64 {
        self.scheduler.running_spec()
    }

    /// The running task holds a used slot and is on no list; every queued
    /// slot is used.
    pub open spec fn inv(&self) -> bool {
        &&& self.pool.inv()
        &&& self.scheduler.inv()
        &&& self.running() < PROCESS_MAXCOUNT
        &&& self.pool.used(self.running() as int)
        &&& !self.scheduler.queued(self.running())
        &&& forall|pid: u64| #[trigger]
            self.scheduler.queued(pid) ==> pid < PROCESS_MAXCOUNT && self.pool.used(pid as int)
    }

    /// `inv`, and `next` is a used slot, on no list, other than the running one.
    pub open spec fn inv_except_next(&self, next: u64) -> bool {
        &&& self.inv()
        &&& next < PROCESS_MAXCOUNT
        &&& self.pool.used(next as int)
        &&& !self.scheduler.queued(next)
        &&& next != self.running()
    }

    /// The boot task takes the first slot at the highest priority and runs.
    pub fn new() -> (r: Self)
        ensures
            r.inv(),
            r.running() == 0,
            r.pool@[0].id == make_id(1, 0),
            r.pool@[0].flags == PRIORITY_HIGHIST,
            r.pool.in_use() == 1,
            forall|p: int| 0 <= p < 5 ==> r.scheduler.ready_list(p) == Seq::<u64>::empty(),
            r.scheduler.wait_list() == Seq::<u64>::empty(),
            r.scheduler.quantum() == PROCESS_TIME,
            r.idle_count == 0 && r.tick_count == 0,
    {
        let mut pool = ProcessPool::new();
        proof {
            pool.lemma_inv();
            crate::process::lemma_slot_id(0);
            assert(pool@[0].id == 0);
            assert(!pool.used(0));
        }
        let first = pool.allocate();
        let id = first.unwrap();
        proof {
            lemma_make_id(1, 0);
            assert(slot_of(id) == 0);
        }
        let slot = id & 0xFFFF_FFFF;
        pool.set_flags(slot as usize, PRIORITY_HIGHIST);
        let scheduler = RRScheduler::new(slot);
        let r = Kernel { pool, scheduler, idle_count: 0, tick_count: 0 };
        proof {
            assert forall|pid: u64| #[trigger] r.scheduler.queued(pid) implies pid < PROCESS_MAXCOUNT
                && r.pool.used(pid as int) by {
                let i = choose|i: int| 0 <= i < 6 && #[trigger] r.scheduler.list_contains(i, pid);
                if i < 5 {
                    assert(r.scheduler.ready_list(i) == Seq::<u64>::empty());
                }
            }
            assert(!r.scheduler.queued(slot)) by {
                if r.scheduler.queued(slot) {
                    let i = choose|i: int| 0 <= i < 6 && #[trigger] r.scheduler.list_contains(i, slot);
                    if i < 5 {
                        assert(r.scheduler.ready_list(i) == Seq::<u64>::empty());
                    }
                }
            }
        }
        r
    }

    /// The slot of the running task.
    pub fn get_pid(&self) -> (r: u64)
        ensures
            r == self.running(),
    {
        self.scheduler.running()
    }

    /// One timer tick off the running task's quantum.
    pub fn decrease_time(&mut self)
        requires
            old(self).inv(),
        ensures
            final(self).inv(),
            final(self).pool == old(self).pool,
            final(self).scheduler.quantum() == if old(self).scheduler.quantum() > 0 {
                old(self).scheduler.quantum() - 1
            } else {
                old(self).scheduler.quantum() as int
            },
            final(self).running() == old(self).running(),
            final(self).scheduler.same_lists(old(self).scheduler),
            forall|p: int| 0 <= p < 5 ==> #[trigger] final(self).scheduler.tokens(p) == old(self).scheduler.tokens(p),
            final(self).idle_count == old(self).idle_count,
            final(self).tick_count == old(self).tick_count,
            final(self).scheduler.same_but_quantum(old(self).scheduler),
    {
        let ghost pre = *self;
        self.scheduler.decrease_time();
        proof {
            self.lemma_same_queued(pre);
        }
    }

    /// The running task's quantum is used up.
    pub fn is_expired(&self) -> (r: bool)
        ensures
            r == (self.scheduler.quantum() <= 0),
    {
        self.scheduler.is_expired()
    }

    /// Number of ready tasks.
    pub fn process_count(&self) -> (r: u64)
        requires
            self.inv(),
        ensures
            r == self.scheduler.ready_list(0).len() + self.scheduler.ready_list(1).len()
                + self.scheduler.ready_list(2).len() + self.scheduler.ready_list(3).len()
                + self.scheduler.ready_list(4).len(),
    {
        self.scheduler.total_count()
    }

    /// `id` is the live id of a used slot.
    pub fn is_process_exist(&self, id: u64) -> (r: bool)
        requires
            self.inv(),
        ensures
            r == (slot_of(id) < PROCESS_MAXCOUNT && generation_of(id) != 0 && self.pool@[slot_of(
                id,
            ) as int].id == id),
    {
        match self.pool.get_by_id(id) {
            Some(_) => id >> 32 != 0,
            None => false,
        }
    }

    /// The pool changed records but no id: `inv` carries over.
    proof fn lemma_same_ids(&self, pre: Self)
        requires
            pre.inv(),
            self.pool.inv(),
            self.scheduler == pre.scheduler,
            self.pool@.len() == pre.pool@.len(),
            forall|i: int| 0 <= i < PROCESS_MAXCOUNT ==> #[trigger] self.pool@[i].id == pre.pool@[i].id,
        ensures
            self.inv(),
    {
        assert forall|i: int| 0 <= i < PROCESS_MAXCOUNT implies #[trigger] self.pool.used(i) == pre.pool.used(i) by {
            assert(self.pool@[i].id == pre.pool@[i].id);
        }
        assert forall|pid: u64| #[trigger] self.scheduler.queued(pid) implies pid < PROCESS_MAXCOUNT
            && self.pool.used(pid as int) by {
            assert(pre.scheduler.queued(pid));
            assert(self.pool@[pid as int].id == pre.pool@[pid as int].id);
        }
        assert(self.pool@[self.running() as int].id == pre.pool@[self.running() as int].id);
    }

    /// Same lists, same running task, same pool: `inv` carries over.
    proof fn lemma_same_queued(&self, pre: Self)
        requires
            pre.inv(),
            self.pool == pre.pool,
            self.scheduler.inv(),
            self.running() == pre.running(),
            self.scheduler.same_lists(pre.scheduler),
        ensures
            self.inv(),
    {
        assert forall|pid: u64| #[trigger] self.scheduler.queued(pid) implies pre.scheduler.queued(pid) by {
            let i = choose|i: int| 0 <= i < 6 && #[trigger] self.scheduler.list_contains(i, pid);
            assert(pre.scheduler.list_contains(i, pid));
        }
        assert(!self.scheduler.queued(self.running())) by {
            if self.scheduler.queued(self.running()) {
                assert(pre.scheduler.queued(pre.running()));
            }
        }
    }

    /// Adds one to a counter, wrapping to 0 after the largest value.
    fn bump(c: u64) -> (r: u64)
        ensures
            r == bumped(c),
    {
        if c == u64::MAX {
            0
        } else {
            c + 1
        }
    }

    /// The scheduler lost slots or gained only `extra`; the pool kept which
    /// slots are used: `inv` carries over once the running task is settled.
    proof fn lemma_queued_subset(&self, pre: Self, extra: u64)
        requires
            pre.inv(),
            self.pool.inv(),
            self.scheduler.inv(),
            forall|i: int| 0 <= i < PROCESS_MAXCOUNT ==> #[trigger] self.pool.used(i) == pre.pool.used(i),
            forall|pid: u64| #[trigger] self.scheduler.queued(pid) ==> pre.scheduler.queued(pid) || pid == extra,
            extra < PROCESS_MAXCOUNT,
            pre.pool.used(extra as int),
            self.running() < PROCESS_MAXCOUNT,
            self.pool.used(self.running() as int),
            !self.scheduler.queued(self.running()),
        ensures
            self.inv(),
    {
        assert forall|pid: u64| #[trigger] self.scheduler.queued(pid) implies pid < PROCESS_MAXCOUNT
            && self.pool.used(pid as int) by {
            if pid != extra {
                assert(pre.scheduler.queued(pid));
            }
        }
    }

    /// Makes `next`, taken off its list, the running task, counts the switch
    /// and queues the old running task again by its priority.
    fn hand_over(&mut self, next: u64) -> (r: Switch)
        requires
            old(self).inv_except_next(next),
        ensures
            final(self).inv(),
            r.current == old(self).running(),
            r.next == next,
            r.save_current == (old(self).pool@[r.current as int].flags & PROCESS_FLAG_ENDTASK == 0),
            final(self).running() == next,
            final(self).pool == old(self).pool,
            requeued(old(self).scheduler, final(self).scheduler, r.current, old(self).pool@[r.current as int].flags & 0xFF),
            final(self).scheduler.quantum() == old(self).scheduler.quantum(),
            final(self).tick_count == if r.save_current { bumped(old(self).tick_count) } else { old(self).tick_count },
            final(self).idle_count == if r.save_current && old(self).pool@[r.current as int].flags & PROCESS_FLAG_IDLETASK != 0 {
                bumped(old(self).idle_count)
            } else {
                old(self).idle_count
            },
    {
        let ghost pre = *self;
        let current = self.scheduler.running();
        self.scheduler.set_running(next);
        let flags = self.pool.get(current as usize).flags;
        let save_current = flags & PROCESS_FLAG_ENDTASK == 0;
        if save_current {
            if flags & PROCESS_FLAG_IDLETASK != 0 {
                self.idle_count = Self::bump(self.idle_count);
            }
            self.tick_count = Self::bump(self.tick_count);
        }
        let ghost mid = self.scheduler;
        let priority = get_priority(flags);
        let _ = self.scheduler.add_ready_list(current, priority);
        proof {
            assert(!mid.queued(current)) by {
                if mid.queued(current) {
                    let i = choose|i: int| 0 <= i < 6 && #[trigger] mid.list_contains(i, current);
                    assert(pre.scheduler.list_contains(i, current));
                }
            }
            let post = self.scheduler;
            assert forall|p: int| 0 <= p < 5 implies #[trigger] post.ready_list(p) == if (priority == PRIORITY_WAIT || priority < PROCESS_READYLISTCOUNT) && requeue_target(priority) == p {
                pre.scheduler.ready_list(p).push(current)
            } else {
                pre.scheduler.ready_list(p)
            } by {
                assert(mid.ready_list(p) == pre.scheduler.ready_list(p));
            }
            assert forall|pid: u64| #[trigger] post.queued(pid) implies pre.scheduler.queued(pid) || pid == current by {
                let i = choose|i: int| 0 <= i < 6 && #[trigger] post.list_contains(i, pid);
                if pid != current {
                    if i < 5 {
                        assert(mid.ready_list(i) == pre.scheduler.ready_list(i));
                        if post.ready_list(i) != mid.ready_list(i) {
                            let n = post.ready_list(i).index_of(pid);
                            assert(n < mid.ready_list(i).len());
                            assert(mid.ready_list(i)[n] == pid);
                        }
                    } else {
                        if post.wait_list() != mid.wait_list() {
                            let n = post.wait_list().index_of(pid);
                            assert(n < mid.wait_list().len());
                            assert(mid.wait_list()[n] == pid);
                        }
                    }
                    assert(pre.scheduler.list_contains(i, pid));
                }
            }
            assert(!post.queued(next)) by {
                if post.queued(next) {
                    assert(pre.scheduler.queued(next));
                }
            }
            self.lemma_queued_subset(pre, current);
        }
        Switch { current, next, save_current }
    }

    /// Takes the next task off the ready lists as `RRScheduler::next` does.
    pub fn pick_next(&mut self) -> (r: Option<u64>)
        requires
            old(self).inv(),
        ensures
            final(self).inv(),
            final(self).pool == old(self).pool,
            final(self).running() == old(self).running(),
            final(self).idle_count == old(self).idle_count,
            final(self).tick_count == old(self).tick_count,
            final(self).scheduler.quantum() == old(self).scheduler.quantum(),
            r is None <==> forall|p: int| 0 <= p < 5 ==> #[trigger] old(self).scheduler.ready_list(p).len() == 0,
            r is None ==> final(self).scheduler.same_lists(old(self).scheduler) && forall|p: int|
                0 <= p < 5 ==> #[trigger] final(self).scheduler.tokens(p) == 0,
            r is Some ==> final(self).inv_except_next(r->Some_0) && exists|p: int|
                0 <= p < 5 && #[trigger] picks(old(self).scheduler, final(self).scheduler, p) && r
                    == Some(old(self).scheduler.ready_list(p)[0]),
    {
        let ghost pre = *self;
        let r = self.scheduler.next();
        proof {
            pre.scheduler.lemma_queued_facts();
            let post = self.scheduler;
            match r {
                Some(n) => {
                    let p = choose|p: int| 0 <= p < 5 && #[trigger] picks(pre.scheduler, post, p) && r == Some(pre.scheduler.ready_list(p)[0]);
                    assert(pre.scheduler.list_contains(p, n));
                    assert forall|pid: u64| #[trigger] post.queued(pid) implies pre.scheduler.queued(pid) && pid != n by {
                        let i = choose|i: int| 0 <= i < 6 && #[trigger] post.list_contains(i, pid);
                        if i == p {
                            let k = post.ready_list(p).index_of(pid);
                            assert(pre.scheduler.ready_list(p)[k + 1] == pid);
                            assert(pre.scheduler.list_contains(p, pid));
                            assert(pid != n) by {
                                assert(pre.scheduler.ready_list(p)[0] != pre.scheduler.ready_list(p)[k + 1]);
                            }
                        } else {
                            if i < 5 {
                                assert(post.ready_list(i) == pre.scheduler.ready_list(i));
                            }
                            assert(pre.scheduler.list_contains(i, pid));
                            assert(pid != n);
                        }
                    }
                    assert(pre.scheduler.queued(n));
                    self.lemma_queued_subset(pre, pre.running());
                },
                None => {
                    self.lemma_same_queued(pre);
                },
            }
        }
        r
    }

    /// Preemption on quantum expiry. `saved` is the register frame that the
    /// timer entry saved for the interrupted task. With a task ready: the next
    /// one becomes running; the interrupted one keeps `saved` as its registers
    /// (unless it ended), is counted, and goes back on its list; `saved` then
    /// holds the next task's registers, which the entry restores. Either way
    /// the quantum starts over.
    pub fn schedule(&mut self, saved: &mut Context)
        requires
            old(self).inv(),
        ensures
            final(self).inv(),
            preempted(*old(self), *final(self), *old(saved), *final(saved)),
    {
        let ghost pre = *self;
        match self.pick_next() {
            Some(next) => {
                let ghost picked = self.scheduler;
                let sw = self.hand_over(next);
                let ghost handed = *self;
                proof {
                    handed.pool.lemma_inv();
                }
                if sw.save_current {
                    self.pool.set_context(sw.current as usize, *saved);
                    proof {
                        self.lemma_same_ids(handed);
                    }
                }
                *saved = self.pool.get(next as usize).context;
                let ghost before_reset = *self;
                self.scheduler.reset_processtime();
                proof {
                    self.lemma_same_queued(before_reset);
                    let p = choose|p: int| 0 <= p < 5 && #[trigger] picks(pre.scheduler, picked, p) && Some(next) == Some(pre.scheduler.ready_list(p)[0]);
                    assert(picks(pre.scheduler, picked, p));
                    assert forall|q: int| 0 <= q < 5 implies #[trigger] self.scheduler.ready_list(q) == before_reset.scheduler.ready_list(q) by {}
                    assert forall|q: int| 0 <= q < 5 implies #[trigger] self.scheduler.tokens(q) == before_reset.scheduler.tokens(q) by {}
                    assert(requeued(picked, self.scheduler, sw.current, pre.pool@[sw.current as int].flags & 0xFF));
                    assert(sw.current != next);
                    if sw.save_current {
                        assert(handed.pool@[next as int] == pre.pool@[next as int]);
                    }
                    assert(self.running() == pre.scheduler.ready_list(p)[0]);
                    assert(picks(pre.scheduler, picked, p) && requeued(picked, self.scheduler, pre.running(), pre.pool@[pre.running() as int].flags & 0xFF)
                        && self.running() == pre.scheduler.ready_list(p)[0]);
                }
            },
            None => {
                let ghost before_reset = *self;
                self.scheduler.reset_processtime();
                proof {
                    self.lemma_same_queued(before_reset);
                }
            },
        }
    }

    /// Cooperative switch: as `schedule`, but the caller saves and loads the
    /// registers itself through the returned `Switch`. `None` when no task is
    /// ready; the quantum starts over either way.
    pub fn yield_next(&mut self) -> (r: Option<Switch>)
        requires
            old(self).inv(),
        ensures
            final(self).inv(),
            final(self).scheduler.quantum() == PROCESS_TIME,
            final(self).pool == old(self).pool,
            r is None <==> forall|p: int| 0 <= p < 5 ==> #[trigger] old(self).scheduler.ready_list(p).len() == 0,
            r is None ==> final(self).scheduler.same_lists(old(self).scheduler) && final(self).running()
                == old(self).running() && final(self).idle_count == old(self).idle_count
                && final(self).tick_count == old(self).tick_count,
            r is Some ==> ({
                let sw = r->Some_0;
                let flags = old(self).pool@[sw.current as int].flags;
                &&& sw.current == old(self).running()
                &&& sw.next == final(self).running()
                &&& sw.save_current == (flags & PROCESS_FLAG_ENDTASK == 0)
                &&& exists|mid: RRScheduler, p: int|
                    #[trigger] picks(old(self).scheduler, mid, p) && requeued(mid, final(self).scheduler, sw.current, flags & 0xFF)
                        && sw.next == old(self).scheduler.ready_list(p)[0]
                &&& final(self).tick_count == if sw.save_current { bumped(old(self).tick_count) } else { old(self).tick_count }
                &&& final(self).idle_count == if sw.save_current && flags & PROCESS_FLAG_IDLETASK != 0 {
                    bumped(old(self).idle_count)
                } else {
                    old(self).idle_count
                }
            }),
    {
        let ghost pre = *self;
        let r = match self.pick_next() {
            Some(next) => {
                let ghost picked = self.scheduler;
                let sw = self.hand_over(next);
                proof {
                    let p = choose|p: int| 0 <= p < 5 && #[trigger] picks(pre.scheduler, picked, p) && Some(next) == Some(pre.scheduler.ready_list(p)[0]);
                    assert(picks(pre.scheduler, picked, p));
                }
                Some(sw)
            },
            None => None,
        };
        let ghost before_reset = *self;
        self.scheduler.reset_processtime();
        proof {
            self.lemma_same_queued(before_reset);
            assert forall|q: int| 0 <= q < 5 implies #[trigger] self.scheduler.ready_list(q) == before_reset.scheduler.ready_list(q) by {}
            assert forall|q: int| 0 <= q < 5 implies #[trigger] self.scheduler.tokens(q) == before_reset.scheduler.tokens(q) by {}
        }
        r
    }

    /// Creates a task that enters at `entry` with `flags` (priority in the low
    /// byte): it takes the lowest free slot and the next generation, gets the
    /// stack of its slot, and goes to the tail of its ready list. Returns its
    /// slot. `Err(())`, changing nothing, when the priority is not 0 to 4 or
    /// every slot is used.
    pub fn create_task(&mut self, flags: u64, entry: u64) -> (r: Result<u64, ()>)
        requires
            old(self).inv(),
        ensures
            final(self).inv(),
            r is Err <==> (flags & 0xFF >= PROCESS_READYLISTCOUNT || old(self).pool.in_use() == PROCESS_MAXCOUNT),
            r is Err ==> *final(self) == *old(self),
            r is Ok ==> ({
                let pid = r->Ok_0;
                let priority = flags & 0xFF;
                let stack = (PROCESS_STACKADDRESS + PROCESS_STACKSIZE * pid) as u64;
                &&& pid < PROCESS_MAXCOUNT
                &&& !old(self).pool.used(pid as int)
                &&& forall|j: int| 0 <= j < pid ==> #[trigger] old(self).pool.used(j)
                &&& final(self).pool@[pid as int].id == make_id(old(self).pool.next_generation(), pid)
                &&& final(self).pool@[pid as int].flags == flags
                &&& final(self).pool@[pid as int].stack == stack
                &&& final(self).pool@[pid as int].stack_size == PROCESS_STACKSIZE
                &&& forall|i: int| 0 <= i < PROCESS_REGISTERCOUNT ==> final(self).pool@[pid as int].context.registers[i]
                    == initial_register(entry, (stack + PROCESS_STACKSIZE) as u64, i)
                &&& forall|i: int| 0 <= i < PROCESS_MAXCOUNT && i != pid ==> #[trigger] final(self).pool@[i] == old(self).pool@[i]
                &&& final(self).pool.in_use() == old(self).pool.in_use() + 1
                &&& final(self).scheduler.ready_list(priority as int) == old(self).scheduler.ready_list(priority as int).push(pid)
                &&& forall|p: int| 0 <= p < 5 && p != priority ==> #[trigger] final(self).scheduler.ready_list(p) == old(self).scheduler.ready_list(p)
                &&& final(self).scheduler.wait_list() == old(self).scheduler.wait_list()
                &&& final(self).running() == old(self).running()
                &&& final(self).scheduler.quantum() == old(self).scheduler.quantum()
            }),
    {
        let priority = get_priority(flags);
        if priority >= PROCESS_READYLISTCOUNT as u64 {
            return Err(());
        }
        let ghost pre = *self;
        proof {
            self.pool.lemma_inv();
        }
        let id = match self.pool.allocate() {
            Some(id) => id,
            None => {
                return Err(());
            },
        };
        let pid = id & 0xFFFF_FFFF;
        proof {
            lemma_make_id(pre.pool.next_generation(), pid);
            pre.scheduler.lemma_queued_facts();
            assert(!pre.scheduler.queued(pid));
        }
        let stack = PROCESS_STACKADDRESS + PROCESS_STACKSIZE * pid;
        let ghost allocated = self.pool;
        self.pool.setup(pid as usize, flags, entry, stack, PROCESS_STACKSIZE);
        let res = self.scheduler.add_ready_list(pid, priority);
        proof {
            assert(res is Ok);
            assert forall|i: int| 0 <= i < PROCESS_MAXCOUNT && i != pid implies #[trigger] self.pool@[i] == pre.pool@[i] by {
                assert(allocated@[i] == pre.pool@[i]);
            }
            assert forall|i: int| 0 <= i < PROCESS_MAXCOUNT && i != pid implies #[trigger] self.pool.used(i) == pre.pool.used(i) by {
                assert(self.pool@[i] == pre.pool@[i]);
            }
            assert forall|pid2: u64| #[trigger] self.scheduler.queued(pid2) implies pre.scheduler.queued(pid2) || pid2 == pid by {
                let i = choose|i: int| 0 <= i < 6 && #[trigger] self.scheduler.list_contains(i, pid2);
                if pid2 != pid {
                    if i < 5 && i == priority {
                        let n = self.scheduler.ready_list(i).index_of(pid2);
                        assert(n < pre.scheduler.ready_list(i).len());
                        assert(pre.scheduler.ready_list(i)[n] == pid2);
                    } else if i < 5 {
                        assert(self.scheduler.ready_list(i) == pre.scheduler.ready_list(i));
                    }
                    assert(pre.scheduler.list_contains(i, pid2));
                }
            }
            assert forall|pid2: u64| #[trigger] self.scheduler.queued(pid2) implies pid2 < PROCESS_MAXCOUNT
                && self.pool.used(pid2 as int) by {
                if pid2 != pid {
                    assert(pre.scheduler.queued(pid2));
                }
            }
            assert(pid != pre.running());
            assert(!self.scheduler.queued(self.running())) by {
                if self.scheduler.queued(self.running()) {
                    assert(pre.scheduler.queued(pre.running()));
                }
            }
            assert(self.pool.used(self.running() as int)) by {
                assert(self.pool@[self.running() as int] == pre.pool@[self.running() as int]);
            }
        }
        Ok(pid)
    }

    /// Writes `priority` into the flags of the task in slot `pid & 0xFFFF_FFFF`
    /// and, when it is on a ready list, moves it to the tail of the ready list
    /// of `priority`. `Err(())`, changing nothing, when the slot is out of
    /// range or free, or the priority is not 0 to 4.
    pub fn change_priority(&mut self, pid: u64, priority: u64) -> (r: Result<(), ()>)
        requires
            old(self).inv(),
        ensures
            final(self).inv(),
            r is Err <==> (slot_of(pid) >= PROCESS_MAXCOUNT || !old(self).pool.used(slot_of(pid) as int)
                || priority >= PROCESS_READYLISTCOUNT),
            r is Err ==> *final(self) == *old(self),
            r is Ok ==> final(self).pool@ == old(self).pool@.update(slot_of(pid) as int, crate::process::Process {
                flags: (old(self).pool@[slot_of(pid) as int].flags & !0xFFu64) | priority,
                ..old(self).pool@[slot_of(pid) as int]
            }),
            r is Ok ==> final(self).pool.in_use() == old(self).pool.in_use(),
            r is Ok ==> final(self).running() == old(self).running(),
            r is Ok ==> final(self).scheduler.wait_list() == old(self).scheduler.wait_list(),
            r is Ok ==> forall|p: int| 0 <= p < 5 ==> #[trigger] final(self).scheduler.tokens(p) == old(self).scheduler.tokens(p),
            r is Ok && (forall|p: int| 0 <= p < 5 ==> !#[trigger] old(self).scheduler.ready_list(p).contains(slot_of(pid)))
                ==> final(self).scheduler.same_lists(old(self).scheduler),
            r is Ok ==> forall|p0: int| 0 <= p0 < 5 && #[trigger] old(self).scheduler.ready_list(p0).contains(slot_of(pid))
                ==> forall|q: int| 0 <= q < 5 ==> #[trigger] final(self).scheduler.ready_list(q) == moved_list(
                    old(self).scheduler.ready_list(q), slot_of(pid), q == p0, q == priority),
    {
        let slot = pid & 0xFFFF_FFFF;
        if slot >= PROCESS_MAXCOUNT as u64 || priority >= PROCESS_READYLISTCOUNT as u64 {
            return Err(());
        }
        if self.pool.get(slot as usize).id >> 32 == 0 {
            return Err(());
        }
        let ghost pre = *self;
        let mut flags = self.pool.get(slot as usize).flags;
        set_priority(&mut flags, priority);
        self.pool.set_flags(slot as usize, flags);
        proof {
            self.pool.lemma_inv();
            pre.pool.lemma_inv();
            self.lemma_same_ids(pre);
            pre.scheduler.lemma_queued_facts();
        }
        let ghost flagged = *self;
        match self.scheduler.remove_process(slot) {
            Ok(_) => {
                let ghost removed = self.scheduler;
                let res = self.scheduler.add_ready_list(slot, priority);
                proof {
                    let p0 = choose|p: int| 0 <= p < 5 && #[trigger] pre.scheduler.ready_list(p).contains(slot)
                        && removed.ready_list(p) == pre.scheduler.ready_list(p).remove(pre.scheduler.ready_list(p).index_of(slot))
                        && removed.wait_list() == pre.scheduler.wait_list()
                        && forall|q: int| 0 <= q < 5 && q != p ==> removed.ready_list(q) == pre.scheduler.ready_list(q);
                    assert(!removed.queued(slot)) by {
                        if removed.queued(slot) {
                            let i = choose|i: int| 0 <= i < 6 && #[trigger] removed.list_contains(i, slot);
                            assert(pre.scheduler.list_contains(p0, slot));
                            if i == p0 {
                                let s0 = pre.scheduler.ready_list(p0);
                                let n = s0.index_of(slot);
                                let k = removed.ready_list(p0).index_of(slot);
                                if k < n {
                                    assert(s0[k] == s0[n]);
                                } else {
                                    assert(s0[k + 1] == s0[n]);
                                }
                            } else {
                                if i < 5 {
                                    assert(removed.ready_list(i) == pre.scheduler.ready_list(i));
                                }
                                assert(pre.scheduler.list_contains(i, slot));
                            }
                        }
                    }
                    assert(res is Ok);
                    assert forall|p: int| 0 <= p < 5 && #[trigger] pre.scheduler.ready_list(p).contains(slot) implies p == p0 by {
                        assert(pre.scheduler.list_contains(p, slot));
                        assert(pre.scheduler.list_contains(p0, slot));
                    }
                    assert forall|q: int| 0 <= q < 5 implies #[trigger] self.scheduler.ready_list(q) == moved_list(
                        pre.scheduler.ready_list(q), slot, q == p0, q == priority) by {}
                    assert forall|pid2: u64| #[trigger] self.scheduler.queued(pid2) implies pre.scheduler.queued(pid2) by {
                        let i = choose|i: int| 0 <= i < 6 && #[trigger] self.scheduler.list_contains(i, pid2);
                        if pid2 == slot {
                            assert(pre.scheduler.list_contains(p0, slot));
                        } else if i < 5 {
                            let t = self.scheduler.ready_list(i);
                            let n = t.index_of(pid2);
                            let base = if i == p0 { removed.ready_list(i) } else { pre.scheduler.ready_list(i) };
                            assert(removed.ready_list(i) == base);
                            if i == priority {
                                assert(n < base.len());
                            }
                            assert(base[n] == pid2);
                            if i == p0 {
                                let s0 = pre.scheduler.ready_list(p0);
                                let m = s0.index_of(slot);
                                if n < m {
                                    assert(s0[n] == pid2);
                                } else {
                                    assert(s0[n + 1] == pid2);
                                }
                            }
                            assert(pre.scheduler.list_contains(i, pid2));
                        } else {
                            assert(pre.scheduler.list_contains(i, pid2));
                        }
                    }
                    assert(!self.scheduler.queued(self.running())) by {
                        if self.scheduler.queued(self.running()) {
                            assert(pre.scheduler.queued(pre.running()));
                        }
                    }
                    self.lemma_queued_subset(flagged, slot);
                }
            },
            Err(_) => {
                proof {
                    assert forall|p: int| 0 <= p < 5 implies !#[trigger] pre.scheduler.ready_list(p).contains(slot) by {}
                    self.lemma_same_queued(flagged);
                }
            },
        }
        Ok(())
    }

    /// Ends the task in slot `pid & 0xFFFF_FFFF`. The running task is marked
    /// ended with priority `PRIORITY_WAIT` and yields: the returned switch
    /// discards its registers, and it joins the wait list. Another task on a
    /// ready list is taken off it, marked the same way and appended to the
    /// wait list. Any other slot is left alone.
    pub fn end_process(&mut self, pid: u64) -> (r: Option<Switch>)
        requires
            old(self).inv(),
        ensures
            final(self).inv(),
            slot_of(pid) != old(self).running() ==> r is None,
            slot_of(pid) != old(self).running() && (exists|p: int| 0 <= p < 5 && #[trigger] old(self).scheduler.ready_list(p).contains(slot_of(pid))) ==> ({
                let slot = slot_of(pid);
                let old_flags = old(self).pool@[slot as int].flags;
                &&& final(self).pool@ == old(self).pool@.update(slot as int, crate::process::Process {
                    flags: (old_flags | PROCESS_FLAG_ENDTASK) & !0xFFu64 | PRIORITY_WAIT,
                    ..old(self).pool@[slot as int]
                })
                &&& final(self).scheduler.wait_list() == old(self).scheduler.wait_list().push(slot)
                &&& forall|q: int| 0 <= q < 5 ==> #[trigger] final(self).scheduler.ready_list(q) == moved_list(
                        old(self).scheduler.ready_list(q), slot, old(self).scheduler.ready_list(q).contains(slot), false)
                &&& final(self).running() == old(self).running()
            }),
            slot_of(pid) != old(self).running() && !(exists|p: int| 0 <= p < 5 && #[trigger] old(self).scheduler.ready_list(p).contains(slot_of(pid))) ==> *final(self) == *old(self),
            slot_of(pid) == old(self).running() ==> ({
                let slot = slot_of(pid);
                let ended = (old(self).pool@[slot as int].flags | PROCESS_FLAG_ENDTASK) & !0xFFu64 | PRIORITY_WAIT;
                &&& final(self).pool@ == old(self).pool@.update(slot as int, crate::process::Process {
                    flags: ended,
                    ..old(self).pool@[slot as int]
                })
                &&& (r is None <==> forall|p: int| 0 <= p < 5 ==> #[trigger] old(self).scheduler.ready_list(p).len() == 0)
                &&& r is None ==> final(self).scheduler.same_lists(old(self).scheduler) && final(self).running() == slot
                &&& r is Some ==> r->Some_0.current == slot && !r->Some_0.save_current
                    && final(self).scheduler.wait_list() == old(self).scheduler.wait_list().push(slot)
                    && final(self).running() == r->Some_0.next
                    && exists|mid: RRScheduler, p: int| #[trigger] picks(old(self).scheduler, mid, p)
                        && requeued(mid, final(self).scheduler, slot, PRIORITY_WAIT)
                        && r->Some_0.next == old(self).scheduler.ready_list(p)[0]
            }),
    {
        let slot = pid & 0xFFFF_FFFF;
        let ghost pre = *self;
        proof {
            pre.pool.lemma_inv();
            pre.scheduler.lemma_queued_facts();
        }
        if slot == self.scheduler.running() {
            let f0 = self.pool.get(slot as usize).flags;
            let flags = f0 | PROCESS_FLAG_ENDTASK;
            let mut ended = flags;
            set_priority(&mut ended, PRIORITY_WAIT);
            self.pool.set_flags(slot as usize, ended);
            proof {
                self.pool.lemma_inv();
                self.lemma_same_ids(pre);
                assert(ended & PROCESS_FLAG_ENDTASK != 0) by (bit_vector)
                    requires
                        ended & !0xFFu64 == flags & !0xFFu64,
                        flags == f0 | 0x8000000000000000u64,
                        PROCESS_FLAG_ENDTASK == 0x8000000000000000u64,
                ;
            }
            let ghost flagged = *self;
            let r = self.yield_next();
            proof {
                assert(flagged.scheduler == pre.scheduler);
                assert(ended & 0xFF == PRIORITY_WAIT);
            }
            return r;
        }
        if slot >= PROCESS_MAXCOUNT as u64 {
            proof {
                assert forall|p: int| 0 <= p < 5 implies !#[trigger] pre.scheduler.ready_list(p).contains(slot) by {
                    if pre.scheduler.ready_list(p).contains(slot) {
                        let n = pre.scheduler.ready_list(p).index_of(slot);
                        assert(pre.scheduler.ready_list(p)[n] < PROCESS_MAXCOUNT);
                    }
                }
            }
            return None;
        }
        match self.scheduler.remove_process(slot) {
            Ok(_) => {
                let ghost removed = self.scheduler;
                let flags = self.pool.get(slot as usize).flags | PROCESS_FLAG_ENDTASK;
                let mut ended = flags;
                set_priority(&mut ended, PRIORITY_WAIT);
                self.pool.set_flags(slot as usize, ended);
                let res = self.scheduler.add_ready_list(slot, PRIORITY_WAIT);
                proof {
                    let p0 = choose|p: int| 0 <= p < 5 && #[trigger] pre.scheduler.ready_list(p).contains(slot)
                        && removed.ready_list(p) == pre.scheduler.ready_list(p).remove(pre.scheduler.ready_list(p).index_of(slot))
                        && removed.wait_list() == pre.scheduler.wait_list()
                        && forall|q: int| 0 <= q < 5 && q != p ==> removed.ready_list(q) == pre.scheduler.ready_list(q);
                    assert(pre.scheduler.list_contains(p0, slot));
                    assert forall|p: int| 0 <= p < 5 && #[trigger] pre.scheduler.ready_list(p).contains(slot) implies p == p0 by {
                        assert(pre.scheduler.list_contains(p, slot));
                    }
                    assert(!removed.queued(slot)) by {
                        if removed.queued(slot) {
                            let i = choose|i: int| 0 <= i < 6 && #[trigger] removed.list_contains(i, slot);
                            if i == p0 {
                                let s0 = pre.scheduler.ready_list(p0);
                                let n = s0.index_of(slot);
                                let k = removed.ready_list(p0).index_of(slot);
                                if k < n {
                                    assert(s0[k] == s0[n]);
                                } else {
                                    assert(s0[k + 1] == s0[n]);
                                }
                            } else {
                                if i < 5 {
                                    assert(removed.ready_list(i) == pre.scheduler.ready_list(i));
                                }
                                assert(pre.scheduler.list_contains(i, slot));
                            }
                        }
                    }
                    assert(res is Ok);
                    assert forall|q: int| 0 <= q < 5 implies #[trigger] self.scheduler.ready_list(q) == moved_list(
                        pre.scheduler.ready_list(q), slot, pre.scheduler.ready_list(q).contains(slot), false) by {
                        if q == p0 {
                            assert(pre.scheduler.ready_list(q).contains(slot));
                        } else {
                            assert(!pre.scheduler.ready_list(q).contains(slot));
                        }
                    }
                    self.pool.lemma_inv();
                    assert forall|i: int| 0 <= i < PROCESS_MAXCOUNT implies #[trigger] self.pool.used(i) == pre.pool.used(i) by {
                        assert(self.pool@[i].id == pre.pool@[i].id);
                    }
                    assert forall|pid2: u64| #[trigger] self.scheduler.queued(pid2) implies pre.scheduler.queued(pid2) by {
                        let i = choose|i: int| 0 <= i < 6 && #[trigger] self.scheduler.list_contains(i, pid2);
                        if pid2 == slot {
                            assert(pre.scheduler.list_contains(p0, slot));
                        } else if i < 5 {
                            let t = self.scheduler.ready_list(i);
                            let n = t.index_of(pid2);
                            assert(t[n] == pid2);
                            if i == p0 {
                                let s0 = pre.scheduler.ready_list(p0);
                                let m = s0.index_of(slot);
                                if n < m {
                                    assert(s0[n] == pid2);
                                } else {
                                    assert(s0[n + 1] == pid2);
                                }
                            } else {
                                assert(t == pre.scheduler.ready_list(i));
                            }
                            assert(pre.scheduler.list_contains(i, pid2));
                        } else {
                            let n = self.scheduler.wait_list().index_of(pid2);
                            assert(n < pre.scheduler.wait_list().len());
                            assert(pre.scheduler.wait_list()[n] == pid2);
                            assert(pre.scheduler.list_contains(5, pid2));
                        }
                    }
                    assert(!self.scheduler.queued(self.running())) by {
                        if self.scheduler.queued(self.running()) {
                            assert(pre.scheduler.queued(pre.running()));
                        }
                    }
                    assert(self.pool.used(self.running() as int));
                    assert(pre.scheduler.queued(slot));
                    self.lemma_queued_subset(pre, slot);
                }
                None
            },
            Err(_) => {
                proof {
                    self.lemma_same_queued(pre);
                }
                None
            },
        }
    }

    /// Ends the running task.
    pub fn exit(&mut self) -> (r: Option<Switch>)
        requires
            old(self).inv(),
        ensures
            final(self).inv(),
            final(self).pool@ == old(self).pool@.update(old(self).running() as int, crate::process::Process {
                flags: (old(self).pool@[old(self).running() as int].flags | PROCESS_FLAG_ENDTASK) & !0xFFu64 | PRIORITY_WAIT,
                ..old(self).pool@[old(self).running() as int]
            }),
            r is None <==> forall|p: int| 0 <= p < 5 ==> #[trigger] old(self).scheduler.ready_list(p).len() == 0,
            r is None ==> final(self).scheduler.same_lists(old(self).scheduler) && final(self).running() == old(self).running(),
            r is Some ==> r->Some_0.current == old(self).running() && !r->Some_0.save_current
                && final(self).scheduler.wait_list() == old(self).scheduler.wait_list().push(old(self).running())
                && final(self).running() == r->Some_0.next
                && exists|mid: RRScheduler, p: int| #[trigger] picks(old(self).scheduler, mid, p)
                    && requeued(mid, final(self).scheduler, old(self).running(), PRIORITY_WAIT)
                    && r->Some_0.next == old(self).scheduler.ready_list(p)[0],
    {
        let pid = self.scheduler.running();
        proof {
            crate::process::lemma_slot_id(pid);
        }
        self.end_process(pid)
    }

    /// Frees every task on the wait list, in order, and returns their slots.
    pub fn reap_waiting(&mut self) -> (r: Vec<u64>)
        requires
            old(self).inv(),
        ensures
            final(self).inv(),
            r@ == old(self).scheduler.wait_list(),
            final(self).scheduler.wait_list() == Seq::<u64>::empty(),
            forall|p: int| 0 <= p < 5 ==> #[trigger] final(self).scheduler.ready_list(p) == old(self).scheduler.ready_list(p),
            final(self).running() == old(self).running(),
            final(self).pool.in_use() + r@.len() == old(self).pool.in_use(),
            final(self).pool.next_generation() == old(self).pool.next_generation(),
            forall|i: int| 0 <= i < PROCESS_MAXCOUNT && !r@.contains(i as u64) ==> #[trigger] final(self).pool@[i] == old(self).pool@[i],
            forall|i: int| 0 <= i < r@.len() ==> final(self).pool@[#[trigger] r@[i] as int].id == r@[i],
    {
        let ghost pre = *self;
        let mut r: Vec<u64> = Vec::new();
        proof {
            assert(r@ + self.scheduler.wait_list() =~= pre.scheduler.wait_list());
        }
        loop
            invariant
                self.inv(),
                pre.inv(),
                pre == *old(self),
                r@ + self.scheduler.wait_list() == pre.scheduler.wait_list(),
                forall|p: int| 0 <= p < 5 ==> #[trigger] self.scheduler.ready_list(p) == pre.scheduler.ready_list(p),
                self.running() == pre.running(),
                self.pool.in_use() + r@.len() == pre.pool.in_use(),
                self.pool.next_generation() == pre.pool.next_generation(),
                forall|i: int| 0 <= i < PROCESS_MAXCOUNT && !r@.contains(i as u64) ==> #[trigger] self.pool@[i] == pre.pool@[i],
                forall|i: int| 0 <= i < r@.len() ==> self.pool@[#[trigger] r@[i] as int].id == r@[i],
            decreases self.scheduler.wait_list().len(),
        {
            let ghost before = *self;
            proof {
                before.scheduler.lemma_queued_facts();
                before.pool.lemma_inv();
                pre.scheduler.lemma_queued_facts();
            }
            match self.scheduler.pop_wait() {
                None => {
                    proof {
                        self.lemma_same_queued(before);
                    }
                    assert(r@ =~= pre.scheduler.wait_list());
                    return r;
                },
                Some(w) => {
                    proof {
                        assert(before.scheduler.list_contains(5, w));
                        assert(before.scheduler.queued(w));
                    }
                    let ghost popped = *self;
                    let freed = self.pool.dealloc(w);
                    proof {
                        crate::process::lemma_slot_id(w);
                        assert(freed is Some);
                        let wl = before.scheduler.wait_list();
                        assert(wl[0] == w);
                        assert(pre.scheduler.wait_list() == r@ + wl);
                        assert(pre.scheduler.wait_list()[r@.len() as int] == w);
                        assert(!r@.contains(w)) by {
                            if r@.contains(w) {
                                let k = r@.index_of(w);
                                assert(pre.scheduler.wait_list()[k] == w);
                            }
                        }
                    }
                    let ghost r0 = r@;
                    r.push(w);
                    proof {
                        let wl = before.scheduler.wait_list();
                        assert(r@ == r0.push(w));
                        assert(r@ + self.scheduler.wait_list() =~= pre.scheduler.wait_list()) by {
                            assert(self.scheduler.wait_list() == wl.drop_first());
                        }
                        assert forall|i: int| 0 <= i < PROCESS_MAXCOUNT && !r@.contains(i as u64) implies #[trigger] self.pool@[i] == pre.pool@[i] by {
                            assert(i != w) by {
                                if i == w {
                                    assert(r@[r@.len() - 1] == w);
                                }
                            }
                            assert(!r0.contains(i as u64)) by {
                                if r0.contains(i as u64) {
                                    let k = r0.index_of(i as u64);
                                    assert(r@[k] == i as u64);
                                }
                            }
                            assert(self.pool@[i] == before.pool@[i]);
                        }
                        assert forall|i: int| 0 <= i < r@.len() implies self.pool@[#[trigger] r@[i] as int].id == r@[i] by {
                            if i < r@.len() - 1 {
                                assert(r0[i] == r@[i]);
                                assert(r@[i] != w);
                                assert(before.pool@[r0[i] as int].id == r0[i]);
                                assert(r0[i] < PROCESS_MAXCOUNT) by {
                                    assert(pre.scheduler.wait_list()[i] == r0[i]);
                                }
                                assert(self.pool@[r0[i] as int] == popped.pool@[r0[i] as int]);
                            } else {
                                assert(r@[i] == w);
                                assert(self.pool@[w as int].id == w);
                            }
                        }
                        assert(!self.scheduler.queued(w)) by {
                            if self.scheduler.queued(w) {
                                let j = choose|j: int| 0 <= j < 6 && #[trigger] self.scheduler.list_contains(j, w);
                                if j < 5 {
                                    assert(before.scheduler.list_contains(j, w));
                                } else {
                                    let k = self.scheduler.wait_list().index_of(w);
                                    assert(wl[k + 1] == w);
                                    assert(wl[0] != wl[k + 1]);
                                }
                            }
                        }
                        assert forall|i: int| 0 <= i < PROCESS_MAXCOUNT && i != w implies #[trigger] self.pool.used(i) == before.pool.used(i) by {}
                        assert forall|pid: u64| #[trigger] self.scheduler.queued(pid) implies pid < PROCESS_MAXCOUNT && self.pool.used(pid as int) by {
                            let j = choose|j: int| 0 <= j < 6 && #[trigger] self.scheduler.list_contains(j, pid);
                            if j < 5 {
                                assert(before.scheduler.list_contains(j, pid));
                            } else {
                                let k = self.scheduler.wait_list().index_of(pid);
                                assert(wl[k + 1] == pid);
                                assert(before.scheduler.list_contains(5, pid));
                            }
                            assert(before.scheduler.queued(pid));
                            assert(pid != w);
                        }
                        assert(self.running() != w);
                        assert(self.pool.used(self.running() as int) == before.pool.used(self.running() as int));
                        assert(!self.scheduler.queued(self.running())) by {
                            if self.scheduler.queued(self.running()) {
                                let j = choose|j: int| 0 <= j < 6 && #[trigger] self.scheduler.list_contains(j, self.running());
                                if j < 5 {
                                    assert(before.scheduler.list_contains(j, self.running()));
                                } else {
                                    let k = self.scheduler.wait_list().index_of(self.running());
                                    assert(wl[k + 1] == self.running());
                                    assert(before.scheduler.list_contains(5, self.running()));
                                }
                            }
                        }
                    }
                },
            }
        }
    }

    /// Id and flags of every used slot, by slot order.
    pub fn task_list(&self) -> (r: Vec<(u64, u64)>)
        requires
            self.inv(),
        ensures
            r@ == used_tasks(self.pool@, PROCESS_MAXCOUNT as int),
    {
        proof {
            self.pool.lemma_inv();
        }
        let mut r: Vec<(u64, u64)> = Vec::new();
        let mut i: usize = 0;
        while i < PROCESS_MAXCOUNT
            invariant
                self.pool@.len() == PROCESS_MAXCOUNT,
                self.pool.inv(),
                i <= PROCESS_MAXCOUNT,
                r@ == used_tasks(self.pool@, i as int),
            decreases PROCESS_MAXCOUNT - i,
        {
            let p = self.pool.get(i);
            if p.id >> 32 != 0 {
                r.push((p.id, p.flags));
            }
            i = i + 1;
        }
        r
    }

    /// The timer tick: one tick off the quantum and, once it is used up,
    /// preemption as `schedule` does it.
    pub fn timer_tick(&mut self, saved: &mut Context)
        requires
            old(self).inv(),
        ensures
            final(self).inv(),
            old(self).scheduler.quantum() > 1 ==> {
                &&& final(self).scheduler.quantum() == old(self).scheduler.quantum() - 1
                &&& final(self).scheduler.same_lists(old(self).scheduler)
                &&& final(self).running() == old(self).running()
                &&& final(self).pool == old(self).pool
                &&& *final(saved) == *old(saved)
            },
            old(self).scheduler.quantum() <= 1 ==> preempted(*old(self), *final(self), *old(saved), *final(saved)),
    {
        let ghost pre = *self;
        self.decrease_time();
        if self.is_expired() {
            let ghost mid = *self;
            self.schedule(saved);
            proof {
                assert forall|m: RRScheduler, p: int| #[trigger] picks(mid.scheduler, m, p) == picks(pre.scheduler, m, p) by {
                    RRScheduler::lemma_same_but_quantum(mid.scheduler, pre.scheduler, m, p);
                }
                RRScheduler::lemma_same_but_quantum(mid.scheduler, pre.scheduler, mid.scheduler, 0);
                assert forall|p: int| 0 <= p < 5 implies #[trigger] mid.scheduler.ready_list(p) == pre.scheduler.ready_list(p) by {}
                if !(forall|p: int| 0 <= p < 5 ==> #[trigger] mid.scheduler.ready_list(p).len() == 0) {
                    let (m2, p2) = choose|m2: RRScheduler, p2: int| #[trigger] picks(mid.scheduler, m2, p2)
                        && requeued(m2, self.scheduler, mid.running(), mid.pool@[mid.running() as int].flags & 0xFF)
                        && self.running() == mid.scheduler.ready_list(p2)[0];
                    assert(picks(pre.scheduler, m2, p2));
                    assert(!(forall|p: int| 0 <= p < 5 ==> #[trigger] pre.scheduler.ready_list(p).len() == 0));
                } else {
                    assert(self.scheduler.same_lists(pre.scheduler));
                    assert forall|p: int| 0 <= p < 5 implies #[trigger] pre.scheduler.ready_list(p).len() == 0 by {
                        assert(mid.scheduler.ready_list(p) == pre.scheduler.ready_list(p));
                    }
                }
            }
        }
    }
}

} // verus!
