//! Multi-priority round-robin scheduler: five ready lists (0 is the highest
//! priority), a wait list of ended tasks, a quantum and per-priority tokens.
use vstd::prelude::*;

use crate::run_queue::RunQueue;

verus! {

/// Number of task slots.
pub const PROCESS_MAXCOUNT: usize = 1024;

/// Number of ready lists, one per priority.
pub const PROCESS_READYLISTCOUNT: usize = 5;

/// Ticks a task runs before it is preempted.
pub const PROCESS_TIME: i64 = 5;

pub const PRIORITY_HIGHIST: u64 = 0;

pub const PRIORITY_MIDDLE: u64 = 2;

pub const PRIORITY_LOWIST: u64 = 4;

/// Pseudo-priority of an ended task that waits to be reaped.
pub const PRIORITY_WAIT: u64 = 0xFF;

/// Location of a slot that is on no list.
pub const NOT_QUEUED: u8 = 0xFF;

/// Location of a slot that is on the wait list.
pub const WAIT_LIST: u8 = 5;

/// The priority held in the low byte of a task's flags.
pub fn get_priority(flag: u64) -> (r: u64)
    ensures
        r == flag & 0xFF,
        r <= 0xFF,
{
    let r = flag & 0xFF;
    assert(flag & 0xFF <= 0xFF) by (bit_vector);
    r
}

/// Replaces the low byte of `flag` with `priority`, keeping the other bits.
pub fn set_priority(flag: &mut u64, priority: u64)
    requires
        priority <= 0xFF,
    ensures
        *final(flag) == (*old(flag) & !0xFFu64) | priority,
        *final(flag) & 0xFF == priority,
        *final(flag) & !0xFFu64 == *old(flag) & !0xFFu64,
{
    let f = *flag;
    let r = (f & !0xFFu64) | priority;
    assert(r & 0xFF == priority && r & !0xFFu64 == f & !0xFFu64) by (bit_vector)
        requires
            priority <= 0xFF,
            r == (f & !0xFFu64) | priority,
    ;
    *flag = r;
}

/// The sweep's first pass stops at `p`: it holds a token below its length,
/// and every higher priority has spent its tokens.
pub open spec fn first_pass_pick(s: RRScheduler, p: int) -> bool {
    &&& s.tokens(p) < s.ready_list(p).len()
    &&& forall|q: int| 0 <= q < p ==> #[trigger] s.tokens(q) >= s.ready_list(q).len()
}

/// Every priority has spent its tokens, and `p` is the highest priority with
/// a ready task: the second pass stops there.
pub open spec fn second_pass_pick(s: RRScheduler, p: int) -> bool {
    &&& forall|q: int| 0 <= q < 5 ==> #[trigger] s.tokens(q) >= s.ready_list(q).len()
    &&& s.ready_list(p).len() > 0
    &&& forall|q: int| 0 <= q < p ==> #[trigger] s.ready_list(q).len() == 0
}

/// The first priority from `from` on that still holds a token below its
/// length; 5 when none does.
pub open spec fn first_with_credit(s: RRScheduler, from: int) -> int
    decreases 5 - from,
{
    if from >= 5 {
        5
    } else if s.tokens(from) < s.ready_list(from).len() {
        from
    } else {
        first_with_credit(s, from + 1)
    }
}

/// The first priority from `from` on with a ready task; 5 when none has.
pub open spec fn first_nonempty(s: RRScheduler, from: int) -> int
    decreases 5 - from,
{
    if from >= 5 {
        5
    } else if s.ready_list(from).len() > 0 {
        from
    } else {
        first_nonempty(s, from + 1)
    }
}

/// The priority `next` takes from: the first with a token to spend, else
/// the first with a ready task.
pub open spec fn chosen_priority(s: RRScheduler) -> int {
    if first_with_credit(s, 0) < 5 {
        first_with_credit(s, 0)
    } else {
        first_nonempty(s, 0)
    }
}

proof fn lemma_first_with_credit(s: RRScheduler, from: int, p: int)
    requires
        0 <= from <= p <= 5,
        p < 5 ==> s.tokens(p) < s.ready_list(p).len(),
        forall|q: int| from <= q < p ==> #[trigger] s.tokens(q) >= s.ready_list(q).len(),
    ensures
        first_with_credit(s, from) == p,
    decreases p - from,
{
    if from < p {
        lemma_first_with_credit(s, from + 1, p);
    }
}

proof fn lemma_first_nonempty(s: RRScheduler, from: int, p: int)
    requires
        0 <= from <= p < 5,
        s.ready_list(p).len() > 0,
        forall|q: int| from <= q < p ==> #[trigger] s.ready_list(q).len() == 0,
    ensures
        first_nonempty(s, from) == p,
    decreases p - from,
{
    if from < p {
        lemma_first_nonempty(s, from + 1, p);
    }
}

/// A pick takes from `chosen_priority`.
pub proof fn lemma_picks_chosen(a: RRScheduler, b: RRScheduler, p: int)
    requires
        picks(a, b, p),
    ensures
        p == chosen_priority(a),
{
    if first_pass_pick(a, p) {
        lemma_first_with_credit(a, 0, p);
    } else {
        lemma_first_with_credit(a, 0, 5);
        lemma_first_nonempty(a, 0, p);
    }
}

/// `b` is `a` after the head of ready list `p` was taken: the other lists
/// stay, and the tokens change as the pass that stopped at `p` leaves them.
pub open spec fn picks(a: RRScheduler, b: RRScheduler, p: int) -> bool {
    &&& 0 <= p < 5
    &&& a.ready_list(p).len() > 0
    &&& b.ready_list(p) == a.ready_list(p).drop_first()
    &&& forall|q: int| 0 <= q < 5 && q != p ==> #[trigger] b.ready_list(q) == a.ready_list(q)
    &&& b.wait_list() == a.wait_list()
    &&& if first_pass_pick(a, p) {
        &&& b.tokens(p) == a.tokens(p) + 1
        &&& forall|q: int| 0 <= q < p ==> #[trigger] b.tokens(q) == 0
        &&& forall|q: int| p < q < 5 ==> #[trigger] b.tokens(q) == a.tokens(q)
    } else {
        &&& second_pass_pick(a, p)
        &&& b.tokens(p) == 1
        &&& forall|q: int| 0 <= q < 5 && q != p ==> #[trigger] b.tokens(q) == 0
    }
}

/// The scheduler's state. Lists hold slot indices.
pub struct RRScheduler {
    running: u64,
    processor_time: i64,
    wait: RunQueue,
    ready: [RunQueue; PROCESS_READYLISTCOUNT],
    execute_count: [u64; PROCESS_READYLISTCOUNT],
    links: Vec<Option<u64>>,
    location: Vec<u8>,
}

impl RRScheduler {
    /// List `i`: the ready list of priority `i` for `i < 5`, the wait list for 5.
    pub closed spec fn list(&self, i: int) -> RunQueue {
        if i < PROCESS_READYLISTCOUNT {
            self.ready[i]
        } else {
            self.wait
        }
    }

    /// The ready list of priority `p`, head first.
    pub closed spec fn ready_list(&self, p: int) -> Seq<u64> {
        self.ready[p]@
    }

    /// The wait list, head first.
    pub closed spec fn wait_list(&self) -> Seq<u64> {
        self.wait@
    }

    /// The slot of the running task.
    pub closed spec fn running_spec(&self) -> u64 {
        self.running
    }

    /// Ticks left in the running task's quantum.
    pub closed spec fn quantum(&self) -> i64 {
        self.processor_time
    }

    /// The round-robin token of priority `p`.
    pub closed spec fn tokens(&self, p: int) -> u64 {
        self.execute_count[p]
    }

    /// The slot is on one of the six lists.
    pub open spec fn queued(&self, pid: u64) -> bool {
        exists|i: int| 0 <= i < 6 && #[trigger] self.list_contains(i, pid)
    }

    pub open spec fn list_contains(&self, i: int, pid: u64) -> bool {
        if i < 5 {
            self.ready_list(i).contains(pid)
        } else {
            self.wait_list().contains(pid)
        }
    }

    pub closed spec fn inv(&self) -> bool {
        &&& self.links@.len() == PROCESS_MAXCOUNT
        &&& self.location@.len() == PROCESS_MAXCOUNT
        &&& forall|i: int| 0 <= i < 6 ==> (#[trigger] self.list(i)).chain_ok(self.links@)
        &&& forall|k: int, i: int|
            0 <= k < PROCESS_MAXCOUNT && 0 <= i < 6 ==> (#[trigger] self.list(i)@.contains(
                k as u64,
            ) <==> self.location@[k] == i)
        &&& forall|k: int|
            0 <= k < PROCESS_MAXCOUNT ==> (#[trigger] self.location@[k] < 6 || self.location@[k]
                == NOT_QUEUED)
        &&& forall|p: int| 0 <= p < 5 ==> #[trigger] self.execute_count[p] <= PROCESS_MAXCOUNT
    }

    proof fn lemma_lists(&self)
        requires
            self.inv(),
        ensures
            forall|i: int| 0 <= i < 6 ==> (#[trigger] self.list(i))@.len() <= PROCESS_MAXCOUNT,
            forall|i: int, j: int|
                0 <= i < 6 && 0 <= j < self.list(i)@.len() ==> #[trigger] self.list(i)@[j]
                    < PROCESS_MAXCOUNT,
            forall|p: int| 0 <= p < 5 ==> self.list(p) == #[trigger] self.ready[p],
            self.list(5) == self.wait,
            forall|i: int| 0 <= i < 6 ==> (#[trigger] self.list(i))@.no_duplicates(),
            forall|i: int| 0 <= i < 6 ==> (#[trigger] self.list(i)).chain_ok(self.links@),
    {
        assert forall|i: int| 0 <= i < 6 implies (#[trigger] self.list(i))@.no_duplicates() by {
            if self.list(i)@.len() > 0 {
                self.list(i).lemma_elements(self.links@, 0);
            }
        }
        assert forall|i: int| 0 <= i < 6 implies (#[trigger] self.list(i))@.len()
            <= PROCESS_MAXCOUNT by {
            self.list(i).lemma_bounded(self.links@);
        }
        assert forall|i: int, j: int|
            0 <= i < 6 && 0 <= j < self.list(i)@.len() implies #[trigger] self.list(i)@[j]
                < PROCESS_MAXCOUNT by {
            assert(self.list(i).chain_ok(self.links@));
            self.list(i).lemma_elements(self.links@, j);
        }
    }

    /// `inv` depends only on the lists, the links, the locations and the tokens.
    proof fn lemma_inv_frame(a: Self, b: Self)
        requires
            a.inv(),
            a.ready == b.ready,
            a.wait == b.wait,
            a.links@ == b.links@,
            a.location@ == b.location@,
            forall|p: int| 0 <= p < 5 ==> #[trigger] b.execute_count[p] <= PROCESS_MAXCOUNT,
        ensures
            b.inv(),
    {
        assert forall|i: int| 0 <= i < 6 implies #[trigger] b.list(i) == a.list(i) by {}
        assert forall|i: int| 0 <= i < 6 implies (#[trigger] b.list(i)).chain_ok(b.links@) by {
            assert(a.list(i).chain_ok(a.links@));
        }
        assert forall|k: int, i: int|
            0 <= k < PROCESS_MAXCOUNT && 0 <= i < 6 implies (#[trigger] b.list(i)@.contains(
            k as u64,
        ) <==> b.location@[k] == i) by {
            assert(a.list(i)@.contains(k as u64) <==> a.location@[k] == i);
        }
    }

    /// Whether `pid` is on list `i`, read from the location table.
    proof fn lemma_location(&self, pid: u64)
        requires
            self.inv(),
            pid < PROCESS_MAXCOUNT,
        ensures
            forall|i: int| 0 <= i < 6 ==> (self.list_contains(i, pid) <==> self.location@[pid as int] == i),
            self.queued(pid) <==> self.location@[pid as int] != NOT_QUEUED,
    {
        assert forall|i: int| 0 <= i < 6 implies (self.list_contains(i, pid)
            <==> self.location@[pid as int] == i) by {
            assert(self.list(i)@.contains(pid as int as u64) <==> self.location@[pid as int] == i);
        }
        if self.location@[pid as int] != NOT_QUEUED {
            assert(self.list_contains(self.location@[pid as int] as int, pid));
        }
    }

    /// `inv` survives a change of list `i` alone, where the links move only at
    /// slots of that list and the locations follow its contents.
    proof fn lemma_one_list_changed(a: Self, b: Self, i: int)
        requires
            a.inv(),
            0 <= i < 6,
            b.links@.len() == PROCESS_MAXCOUNT,
            b.location@.len() == PROCESS_MAXCOUNT,
            b.execute_count == a.execute_count,
            b.list(i).chain_ok(b.links@),
            forall|j: int| 0 <= j < 6 && j != i ==> #[trigger] b.list(j) == a.list(j),
            forall|k: int|
                0 <= k < PROCESS_MAXCOUNT && !a.list(i)@.contains(k as u64) && !b.list(
                    i,
                )@.contains(k as u64) ==> b.links@[k] == a.links@[k],
            forall|k: int|
                0 <= k < PROCESS_MAXCOUNT && b.list(i)@.contains(k as u64) && !a.list(
                    i,
                )@.contains(k as u64) ==> a.location@[k] == NOT_QUEUED,
            forall|k: int|
                0 <= k < PROCESS_MAXCOUNT ==> #[trigger] b.location@[k] == if b.list(i)@.contains(
                    k as u64,
                ) {
                    i as u8
                } else if a.list(i)@.contains(k as u64) {
                    NOT_QUEUED
                } else {
                    a.location@[k]
                },
        ensures
            b.inv(),
    {
        a.lemma_lists();
        assert forall|j: int| 0 <= j < 6 implies (#[trigger] b.list(j)).chain_ok(b.links@) by {
            if j != i {
                assert(a.list(j).chain_ok(a.links@));
                assert forall|k: int|
                    0 <= k < a.links@.len() && a.list(j)@.contains(k as u64) implies a.links@[k]
                    == b.links@[k] by {
                    assert(a.list(j)@.contains(k as u64) <==> a.location@[k] == j);
                    assert(a.list(i)@.contains(k as u64) <==> a.location@[k] == i);
                }
                a.list(j).lemma_frame(a.links@, b.links@);
            }
        }
        assert forall|k: int, j: int|
            0 <= k < PROCESS_MAXCOUNT && 0 <= j < 6 implies (#[trigger] b.list(j)@.contains(
            k as u64,
        ) <==> b.location@[k] == j) by {
            assert(a.list(j)@.contains(k as u64) <==> a.location@[k] == j);
            assert(a.list(i)@.contains(k as u64) <==> a.location@[k] == i);
            assert(a.location@[k] < 6 || a.location@[k] == NOT_QUEUED);
        }
        assert forall|k: int| 0 <= k < PROCESS_MAXCOUNT implies (#[trigger] b.location@[k] < 6
            || b.location@[k] == NOT_QUEUED) by {
            assert(a.location@[k] < 6 || a.location@[k] == NOT_QUEUED);
        }
    }

    /// Appends `pid`, which is on no list, to list `i`.
    fn push_to(&mut self, i: usize, pid: u64)
        requires
            old(self).inv(),
            i < 6,
            pid < PROCESS_MAXCOUNT,
            !old(self).queued(pid),
        ensures
            final(self).inv(),
            final(self).list(i as int)@ == old(self).list(i as int)@.push(pid),
            forall|j: int| 0 <= j < 6 && j != i ==> #[trigger] final(self).list(j) == old(self).list(j),
            final(self).running == old(self).running,
            final(self).processor_time == old(self).processor_time,
            final(self).execute_count == old(self).execute_count,
    {
        let ghost pre = *self;
        proof {
            pre.lemma_location(pid);
            assert(!pre.list_contains(i as int, pid));
            assert(pre.list(i as int)@.contains(pid) <==> pre.list_contains(i as int, pid));
        }
        if i < 5 {
            let mut q = self.ready[i];
            q.push_back(&mut self.links, pid);
            self.ready[i] = q;
        } else {
            let mut q = self.wait;
            q.push_back(&mut self.links, pid);
            self.wait = q;
        }
        self.location.set(pid as usize, i as u8);
        proof {
            let post = *self;
            assert forall|j: int| 0 <= j < 6 && j != i implies #[trigger] post.list(j) == pre.list(j) by {}
            assert(post.list(i as int)@ == pre.list(i as int)@.push(pid));
            assert forall|k: int|
                0 <= k < PROCESS_MAXCOUNT && post.list(i as int)@.contains(k as u64) && !pre.list(
                    i as int,
                )@.contains(k as u64) implies pre.location@[k] == NOT_QUEUED by {
                let n = post.list(i as int)@.index_of(k as u64);
                assert(post.list(i as int)@[n] == k as u64);
                if n < pre.list(i as int)@.len() {
                    assert(pre.list(i as int)@[n] == k as u64);
                }
                assert(k == pid);
            }
            assert forall|k: int| 0 <= k < PROCESS_MAXCOUNT implies #[trigger] post.location@[k]
                == if post.list(i as int)@.contains(k as u64) {
                i as u8
            } else if pre.list(i as int)@.contains(k as u64) {
                NOT_QUEUED
            } else {
                pre.location@[k]
            } by {
                assert(pre.list(i as int)@.contains(k as u64) <==> pre.location@[k] == i);
                if k != pid {
                    if post.list(i as int)@.contains(k as u64) {
                        let n = post.list(i as int)@.index_of(k as u64);
                        assert(post.list(i as int)@[n] == k as u64);
                        assert(n < pre.list(i as int)@.len());
                        assert(pre.list(i as int)@[n] == k as u64);
                    }
                    if pre.list(i as int)@.contains(k as u64) {
                        let n = pre.list(i as int)@.index_of(k as u64);
                        assert(post.list(i as int)@[n] == k as u64);
                    }
                } else {
                    assert(post.list(i as int)@[post.list(i as int)@.len() - 1] == pid);
                }
            }
            Self::lemma_one_list_changed(pre, post, i as int);
        }
    }

    /// Takes the head off list `i`.
    fn pop_from(&mut self, i: usize) -> (r: Option<u64>)
        requires
            old(self).inv(),
            i < 6,
        ensures
            final(self).inv(),
            old(self).list(i as int)@.len() == 0 ==> r is None && final(self).list(i as int)@
                == old(self).list(i as int)@,
            old(self).list(i as int)@.len() > 0 ==> r == Some(old(self).list(i as int)@[0])
                && final(self).list(i as int)@ == old(self).list(i as int)@.drop_first(),
            forall|j: int| 0 <= j < 6 && j != i ==> #[trigger] final(self).list(j) == old(self).list(j),
            final(self).running == old(self).running,
            final(self).processor_time == old(self).processor_time,
            final(self).execute_count == old(self).execute_count,
    {
        let ghost pre = *self;
        proof {
            pre.lemma_lists();
        }
        let r = if i < 5 {
            let mut q = self.ready[i];
            let r = q.pop_front(&mut self.links);
            self.ready[i] = q;
            r
        } else {
            let mut q = self.wait;
            let r = q.pop_front(&mut self.links);
            self.wait = q;
            r
        };
        proof {
            pre.lemma_lists();
        }
        match r {
            Some(pid) => {
                assert(pid < PROCESS_MAXCOUNT);
                self.location.set(pid as usize, NOT_QUEUED);
            },
            None => {},
        }
        proof {
            let post = *self;
            let s = pre.list(i as int)@;
            assert forall|j: int| 0 <= j < 6 && j != i implies #[trigger] post.list(j) == pre.list(j) by {}
            assert forall|k: int| 0 <= k < PROCESS_MAXCOUNT implies #[trigger] post.location@[k]
                == if post.list(i as int)@.contains(k as u64) {
                i as u8
            } else if s.contains(k as u64) {
                NOT_QUEUED
            } else {
                pre.location@[k]
            } by {
                assert(s.contains(k as u64) <==> pre.location@[k] == i);
                if post.list(i as int)@.contains(k as u64) {
                    let n = post.list(i as int)@.index_of(k as u64);
                    assert(s[n + 1] == k as u64);
                    assert(s[0] != s[n + 1]);
                }
                if s.len() > 0 && k == s[0] {
                    assert(!post.list(i as int)@.contains(k as u64)) by {
                        if post.list(i as int)@.contains(k as u64) {
                            let n = post.list(i as int)@.index_of(k as u64);
                            assert(s[n + 1] == s[0]);
                        }
                    }
                } else if s.contains(k as u64) {
                    let n = s.index_of(k as u64);
                    assert(n > 0);
                    assert(post.list(i as int)@[n - 1] == k as u64);
                }
            }
            Self::lemma_one_list_changed(pre, post, i as int);
        }
        r
    }

    /// Unlinks `pid` from list `i`; `Err(())` when it is not on it.
    fn remove_from(&mut self, i: usize, pid: u64) -> (r: Result<u64, ()>)
        requires
            old(self).inv(),
            i < 6,
        ensures
            final(self).inv(),
            r is Ok <==> old(self).list(i as int)@.contains(pid),
            r is Ok ==> r == Ok::<u64, ()>(pid) && final(self).list(i as int)@ == old(self).list(
                i as int,
            )@.remove(old(self).list(i as int)@.index_of(pid)),
            r is Err ==> final(self).list(i as int)@ == old(self).list(i as int)@,
            forall|j: int| 0 <= j < 6 && j != i ==> #[trigger] final(self).list(j) == old(self).list(j),
            final(self).running == old(self).running,
            final(self).processor_time == old(self).processor_time,
            final(self).execute_count == old(self).execute_count,
    {
        let ghost pre = *self;
        proof {
            pre.lemma_lists();
        }
        let r = if i < 5 {
            let mut q = self.ready[i];
            let r = q.remove(&mut self.links, pid);
            self.ready[i] = q;
            r
        } else {
            let mut q = self.wait;
            let r = q.remove(&mut self.links, pid);
            self.wait = q;
            r
        };
        if r.is_ok() {
            proof {
                let n = pre.list(i as int)@.index_of(pid);
                assert(pre.list(i as int)@[n] == pid);
                assert(pid < PROCESS_MAXCOUNT);
            }
            self.location.set(pid as usize, NOT_QUEUED);
        }
        proof {
            let post = *self;
            let s = pre.list(i as int)@;
            assert forall|j: int| 0 <= j < 6 && j != i implies #[trigger] post.list(j) == pre.list(j) by {}
            if r.is_ok() {
                let n = s.index_of(pid);
                let t = post.list(i as int)@;
                assert forall|m: int| 0 <= m < t.len() implies t[m] == (if m < n {
                    s[m]
                } else {
                    s[m + 1]
                }) by {}
                assert forall|k: int| 0 <= k < PROCESS_MAXCOUNT implies #[trigger] post.location@[k]
                    == if t.contains(k as u64) {
                    i as u8
                } else if s.contains(k as u64) {
                    NOT_QUEUED
                } else {
                    pre.location@[k]
                } by {
                    assert(s.contains(k as u64) <==> pre.location@[k] == i);
                    if t.contains(k as u64) {
                        let m = t.index_of(k as u64);
                        if m < n {
                            assert(s[m] == k as u64);
                            assert(s[m] != s[n]);
                        } else {
                            assert(s[m + 1] == k as u64);
                            assert(s[m + 1] != s[n]);
                        }
                    }
                    if k != pid && s.contains(k as u64) {
                        let m = s.index_of(k as u64);
                        if m < n {
                            assert(t[m] == k as u64);
                        } else {
                            assert(m != n);
                            assert(t[m - 1] == k as u64);
                        }
                    }
                    if k == pid {
                        assert(!t.contains(k as u64)) by {
                            if t.contains(k as u64) {
                                let m = t.index_of(k as u64);
                                if m < n {
                                    assert(s[m] == s[n]);
                                } else {
                                    assert(s[m + 1] == s[n]);
                                }
                            }
                        }
                    }
                }
            } else {
                assert forall|k: int| 0 <= k < PROCESS_MAXCOUNT implies #[trigger] post.location@[k]
                    == if post.list(i as int)@.contains(k as u64) {
                    i as u8
                } else if s.contains(k as u64) {
                    NOT_QUEUED
                } else {
                    pre.location@[k]
                } by {
                    assert(s.contains(k as u64) <==> pre.location@[k] == i);
                }
            }
            Self::lemma_one_list_changed(pre, post, i as int);
        }
        r
    }

    /// A scheduler whose running task is `run_id`, with every list empty.
    pub fn new(run_id: u64) -> (r: Self)
        ensures
            r.inv(),
            r.running_spec() == run_id,
            r.quantum() == PROCESS_TIME,
            forall|p: int| 0 <= p < 5 ==> r.ready_list(p) == Seq::<u64>::empty() && r.tokens(p) == 0,
            r.wait_list() == Seq::<u64>::empty(),
    {
        let mut links: Vec<Option<u64>> = Vec::new();
        let mut location: Vec<u8> = Vec::new();
        let mut i: usize = 0;
        while i < PROCESS_MAXCOUNT
            invariant
                i <= PROCESS_MAXCOUNT,
                links@.len() == i,
                location@.len() == i,
                forall|k: int| 0 <= k < i ==> location@[k] == NOT_QUEUED,
            decreases PROCESS_MAXCOUNT - i,
        {
            links.push(None);
            location.push(NOT_QUEUED);
            i = i + 1;
        }
        let r = RRScheduler {
            running: run_id,
            processor_time: PROCESS_TIME,
            wait: RunQueue::new(),
            ready: [RunQueue::new(), RunQueue::new(), RunQueue::new(), RunQueue::new(), RunQueue::new()],
            execute_count: [0, 0, 0, 0, 0],
            links,
            location,
        };
        assert forall|k: int, i: int|
            0 <= k < PROCESS_MAXCOUNT && 0 <= i < 6 implies (#[trigger] r.list(i)@.contains(
            k as u64,
        ) <==> r.location@[k] == i) by {
            assert(r.list(i)@ == Seq::<u64>::empty());
        }
        r
    }

    /// The slot of the running task.
    pub fn running(&self) -> (r: u64)
        ensures
            r == self.running_spec(),
    {
        self.running
    }

    /// Makes `run_id` the running task.
    pub fn set_running(&mut self, run_id: u64)
        requires
            old(self).inv(),
        ensures
            final(self).inv(),
            final(self).running_spec() == run_id,
            final(self).same_lists(*old(self)),
            final(self).quantum() == old(self).quantum(),
            forall|p: int| 0 <= p < 5 ==> final(self).tokens(p) == old(self).tokens(p),
    {
        let ghost pre = *self;
        self.running = run_id;
        proof {
            Self::lemma_inv_frame(pre, *self);
        }
    }

    /// Every list is as in `other`.
    pub open spec fn same_lists(&self, other: Self) -> bool {
        &&& forall|p: int| 0 <= p < 5 ==> #[trigger] self.ready_list(p) == other.ready_list(p)
        &&& self.wait_list() == other.wait_list()
    }

    /// Gives the running task a full quantum.
    pub fn reset_processtime(&mut self)
        requires
            old(self).inv(),
        ensures
            final(self).inv(),
            final(self).quantum() == PROCESS_TIME,
            final(self).running_spec() == old(self).running_spec(),
            final(self).same_lists(*old(self)),
            forall|p: int| 0 <= p < 5 ==> final(self).tokens(p) == old(self).tokens(p),
    {
        let ghost pre = *self;
        self.processor_time = PROCESS_TIME;
        proof {
            Self::lemma_inv_frame(pre, *self);
        }
    }

    /// `self` and `other` differ at most in the quantum.
    pub closed spec fn same_but_quantum(&self, other: Self) -> bool {
        &&& self.running == other.running
        &&& self.wait == other.wait
        &&& self.ready == other.ready
        &&& self.execute_count == other.execute_count
        &&& self.links@ == other.links@
        &&& self.location@ == other.location@
    }

    /// Schedulers that differ only in the quantum pick alike.
    pub proof fn lemma_same_but_quantum(a: Self, b: Self, m: Self, p: int)
        requires
            a.same_but_quantum(b),
        ensures
            picks(a, m, p) == picks(b, m, p),
            a.same_lists(b),
            a.running_spec() == b.running_spec(),
    {
        assert forall|q: int| #[trigger] a.ready_list(q) == b.ready_list(q) by {}
        assert forall|q: int| #[trigger] a.tokens(q) == b.tokens(q) by {}
        if 0 <= p < 5 {
            assert(first_pass_pick(a, p) == first_pass_pick(b, p)) by {
                if first_pass_pick(a, p) {
                    assert forall|q: int| 0 <= q < p implies #[trigger] b.tokens(q) >= b.ready_list(q).len() by {
                        assert(a.tokens(q) >= a.ready_list(q).len());
                    }
                }
                if first_pass_pick(b, p) {
                    assert forall|q: int| 0 <= q < p implies #[trigger] a.tokens(q) >= a.ready_list(q).len() by {
                        assert(b.tokens(q) >= b.ready_list(q).len());
                    }
                }
            }
            assert(second_pass_pick(a, p) == second_pass_pick(b, p)) by {
                if second_pass_pick(a, p) {
                    assert forall|q: int| 0 <= q < 5 implies #[trigger] b.tokens(q) >= b.ready_list(q).len() by {
                        assert(a.tokens(q) >= a.ready_list(q).len());
                    }
                    assert forall|q: int| 0 <= q < p implies #[trigger] b.ready_list(q).len() == 0 by {
                        assert(a.ready_list(q).len() == 0);
                    }
                }
                if second_pass_pick(b, p) {
                    assert forall|q: int| 0 <= q < 5 implies #[trigger] a.tokens(q) >= a.ready_list(q).len() by {
                        assert(b.tokens(q) >= b.ready_list(q).len());
                    }
                    assert forall|q: int| 0 <= q < p implies #[trigger] a.ready_list(q).len() == 0 by {
                        assert(b.ready_list(q).len() == 0);
                    }
                }
            }
        }
    }

    /// One tick of the running task's quantum, down to zero.
    pub fn decrease_time(&mut self)
        requires
            old(self).inv(),
        ensures
            final(self).inv(),
            final(self).same_but_quantum(*old(self)),
            final(self).quantum() == if old(self).quantum() > 0 {
                old(self).quantum() - 1
            } else {
                old(self).quantum() as int
            },
            final(self).running_spec() == old(self).running_spec(),
            final(self).same_lists(*old(self)),
            forall|p: int| 0 <= p < 5 ==> #[trigger] final(self).tokens(p) == old(self).tokens(p),
    {
        let ghost pre = *self;
        if self.processor_time > 0 {
            self.processor_time = self.processor_time - 1;
        }
        proof {
            Self::lemma_inv_frame(pre, *self);
        }
    }

    /// The quantum is used up.
    pub fn is_expired(&self) -> (r: bool)
        ensures
            r == (self.quantum() <= 0),
    {
        self.processor_time <= 0
    }

    /// Number of tasks on the ready lists.
    pub fn total_count(&self) -> (r: u64)
        requires
            self.inv(),
        ensures
            r == self.ready_list(0).len() + self.ready_list(1).len() + self.ready_list(2).len()
                + self.ready_list(3).len() + self.ready_list(4).len(),
    {
        proof {
            self.lemma_lists();
            assert(self.list(0) == self.ready[0]);
            assert(self.list(1) == self.ready[1]);
            assert(self.list(2) == self.ready[2]);
            assert(self.list(3) == self.ready[3]);
            assert(self.list(4) == self.ready[4]);
        }
        let links = Ghost(self.links@);
        self.ready[0].count(links) + self.ready[1].count(links) + self.ready[2].count(links)
            + self.ready[3].count(links) + self.ready[4].count(links)
    }

    /// Number of tasks on the wait list.
    pub fn wait_count(&self) -> (r: u64)
        requires
            self.inv(),
        ensures
            r == self.wait_list().len(),
    {
        proof {
            self.lemma_lists();
        }
        self.wait.count(Ghost(self.links@))
    }

    /// Whether `pid` is on any list.
    pub fn is_queued(&self, pid: u64) -> (r: bool)
        requires
            self.inv(),
        ensures
            r == self.queued(pid),
    {
        if pid >= PROCESS_MAXCOUNT as u64 {
            proof {
                self.lemma_lists();
                if self.queued(pid) {
                    let i = choose|i: int| 0 <= i < 6 && #[trigger] self.list_contains(i, pid);
                    let n = self.list(i)@.index_of(pid);
                    assert(self.list(i)@[n] < PROCESS_MAXCOUNT);
                }
            }
            return false;
        }
        proof {
            self.lemma_location(pid);
        }
        self.location[pid as usize] != NOT_QUEUED
    }

    /// Queues `pid` by its priority: on the wait list for `PRIORITY_WAIT`, at
    /// the tail of ready list `priority` for 0 to 4. `Err(())`, changing
    /// nothing, for another priority, a slot out of range or a slot already
    /// on a list.
    pub fn add_ready_list(&mut self, pid: u64, priority: u64) -> (r: Result<(), ()>)
        requires
            old(self).inv(),
        ensures
            final(self).inv(),
            r is Ok <==> (pid < PROCESS_MAXCOUNT && !old(self).queued(pid) && (priority
                == PRIORITY_WAIT || priority < PROCESS_READYLISTCOUNT)),
            r is Err ==> final(self).same_lists(*old(self)),
            r is Ok && priority == PRIORITY_WAIT ==> final(self).wait_list() == old(self).wait_list().push(pid) && forall|p: int|
                0 <= p < 5 ==> #[trigger] final(self).ready_list(p) == old(self).ready_list(p),
            r is Ok && priority < PROCESS_READYLISTCOUNT ==> final(self).ready_list(priority as int)
                == old(self).ready_list(priority as int).push(pid) && final(self).wait_list()
                == old(self).wait_list() && forall|p: int|
                0 <= p < 5 && p != priority ==> #[trigger] final(self).ready_list(p) == old(self).ready_list(p),
            final(self).running_spec() == old(self).running_spec(),
            final(self).quantum() == old(self).quantum(),
            forall|p: int| 0 <= p < 5 ==> final(self).tokens(p) == old(self).tokens(p),
    {
        if pid >= PROCESS_MAXCOUNT as u64 || self.is_queued(pid) {
            return Err(());
        }
        let ghost pre = *self;
        if priority == PRIORITY_WAIT {
            self.push_to(WAIT_LIST as usize, pid);
            proof {
                assert forall|p: int| 0 <= p < 5 implies #[trigger] self.ready_list(p)
                    == pre.ready_list(p) by {
                    assert(self.list(p) == pre.list(p));
                }
            }
            Ok(())
        } else if priority < PROCESS_READYLISTCOUNT as u64 {
            self.push_to(priority as usize, pid);
            proof {
                assert(self.list(5) == pre.list(5));
                assert forall|p: int| 0 <= p < 5 && p != priority implies #[trigger] self.ready_list(
                    p,
                ) == pre.ready_list(p) by {
                    assert(self.list(p) == pre.list(p));
                }
            }
            Ok(())
        } else {
            Err(())
        }
    }

    /// Takes `pid` off the ready list it is on. `Err(())`, changing nothing,
    /// when it is on none.
    pub fn remove_process(&mut self, pid: u64) -> (r: Result<u64, ()>)
        requires
            old(self).inv(),
        ensures
            final(self).inv(),
            r is Ok <==> exists|p: int| 0 <= p < 5 && #[trigger] old(self).ready_list(p).contains(pid),
            r is Err ==> final(self).same_lists(*old(self)) && *final(self) == *old(self),
            r is Ok ==> r == Ok::<u64, ()>(pid) && exists|p: int|
                0 <= p < 5 && #[trigger] old(self).ready_list(p).contains(pid) && final(self).ready_list(p) == old(self).ready_list(p).remove(
                    old(self).ready_list(p).index_of(pid),
                ) && final(self).wait_list() == old(self).wait_list() && forall|q: int|
                    0 <= q < 5 && q != p ==> final(self).ready_list(q) == old(self).ready_list(q),
            final(self).running_spec() == old(self).running_spec(),
            final(self).quantum() == old(self).quantum(),
            forall|p: int| 0 <= p < 5 ==> final(self).tokens(p) == old(self).tokens(p),
    {
        let ghost pre = *self;
        proof {
            pre.lemma_lists();
        }
        if pid >= PROCESS_MAXCOUNT as u64 {
            proof {
                assert forall|p: int| 0 <= p < 5 implies !#[trigger] pre.ready_list(p).contains(pid) by {
                    if pre.ready_list(p).contains(pid) {
                        let n = pre.list(p)@.index_of(pid);
                        assert(pre.list(p)@[n] < PROCESS_MAXCOUNT);
                    }
                }
            }
            return Err(());
        }
        proof {
            pre.lemma_location(pid);
        }
        let loc = self.location[pid as usize];
        if loc >= 5 {
            proof {
                assert forall|p: int| 0 <= p < 5 implies !#[trigger] pre.ready_list(p).contains(pid) by {
                    assert(pre.list_contains(p, pid) <==> pre.location@[pid as int] == p);
                }
            }
            return Err(());
        }
        let r = self.remove_from(loc as usize, pid);
        proof {
            assert(pre.list_contains(loc as int, pid));
            assert(pre.ready_list(loc as int).contains(pid));
            assert(self.list(5) == pre.list(5));
            assert forall|q: int| 0 <= q < 5 && q != loc implies self.ready_list(q) == pre.ready_list(q) by {
                assert(self.list(q) == pre.list(q));
            }
        }
        r
    }

    /// Takes the head off the wait list.
    pub fn pop_wait(&mut self) -> (r: Option<u64>)
        requires
            old(self).inv(),
        ensures
            final(self).inv(),
            old(self).wait_list().len() == 0 ==> r is None && final(self).wait_list() == old(self).wait_list(),
            old(self).wait_list().len() > 0 ==> r == Some(old(self).wait_list()[0])
                && final(self).wait_list() == old(self).wait_list().drop_first(),
            forall|p: int| 0 <= p < 5 ==> #[trigger] final(self).ready_list(p) == old(self).ready_list(p),
            final(self).running_spec() == old(self).running_spec(),
            final(self).quantum() == old(self).quantum(),
            forall|p: int| 0 <= p < 5 ==> final(self).tokens(p) == old(self).tokens(p),
    {
        let ghost pre = *self;
        let r = self.pop_from(WAIT_LIST as usize);
        proof {
            assert forall|p: int| 0 <= p < 5 implies #[trigger] self.ready_list(p) == pre.ready_list(p) by {
                assert(self.list(p) == pre.list(p));
            }
        }
        r
    }

    /// Picks the next task: up to two sweeps over priorities 0 to 4. At
    /// priority `p` with `L` ready tasks, a token below `L` is spent and the
    /// head of list `p` is taken; otherwise the token is cleared and the sweep
    /// moves on. `None` when every ready list is empty.
    pub fn next(&mut self) -> (r: Option<u64>)
        requires
            old(self).inv(),
        ensures
            final(self).inv(),
            final(self).running_spec() == old(self).running_spec(),
            final(self).quantum() == old(self).quantum(),
            final(self).wait_list() == old(self).wait_list(),
            r is None <==> forall|p: int| 0 <= p < 5 ==> #[trigger] old(self).ready_list(p).len() == 0,
            r is None ==> final(self).same_lists(*old(self)) && forall|p: int|
                0 <= p < 5 ==> #[trigger] final(self).tokens(p) == 0,
            r is Some ==> exists|p: int|
                0 <= p < 5 && #[trigger] picks(*old(self), *final(self), p) && r == Some(
                    old(self).ready_list(p)[0],
                ),
            r is Some ==> picks(*old(self), *final(self), chosen_priority(*old(self))) && r == Some(
                old(self).ready_list(chosen_priority(*old(self)))[0],
            ),
    {
        let ghost pre = *self;
        proof {
            pre.lemma_lists();
        }
        let mut idx: usize = 0;
        while idx < PROCESS_READYLISTCOUNT
            invariant
                self.inv(),
                idx <= PROCESS_READYLISTCOUNT,
                self.same_lists(pre),
                self.running == pre.running,
                self.processor_time == pre.processor_time,
                self.ready == pre.ready,
                self.wait == pre.wait,
                self.links@ == pre.links@,
                self.location@ == pre.location@,
                pre == *old(self),
                forall|q: int| 0 <= q < idx ==> #[trigger] pre.tokens(q) >= pre.ready_list(q).len(),
                forall|q: int| 0 <= q < idx ==> #[trigger] self.tokens(q) == 0,
                forall|q: int| idx <= q < 5 ==> #[trigger] self.tokens(q) == pre.tokens(q),
            decreases PROCESS_READYLISTCOUNT - idx,
        {
            proof {
                self.lemma_lists();
            }
            let len = self.ready[idx].count(Ghost(self.links@));
            let ghost mid = *self;
            assert(len == pre.ready_list(idx as int).len());
            assert(self.tokens(idx as int) == pre.tokens(idx as int));
            if len > self.execute_count[idx] {
                self.execute_count[idx] = self.execute_count[idx] + 1;
                proof {
                    Self::lemma_inv_frame(mid, *self);
                }
                let ghost before_pop = *self;
                let r = self.pop_from(idx);
                proof {
                    assert(self.list(5) == before_pop.list(5));
                    assert(first_pass_pick(pre, idx as int));
                    assert(self.tokens(idx as int) == pre.tokens(idx as int) + 1);
                    assert forall|q: int| 0 <= q < idx implies #[trigger] self.tokens(q) == 0 by {
                        assert(mid.tokens(q) == 0);
                    }
                    assert forall|q: int| idx < q < 5 implies #[trigger] self.tokens(q) == pre.tokens(q) by {
                        assert(mid.tokens(q) == pre.tokens(q));
                    }
                    assert forall|q: int| 0 <= q < 5 && q != idx implies #[trigger] self.ready_list(q) == pre.ready_list(q) by {
                        assert(self.list(q) == before_pop.list(q));
                    }
                    assert(picks(pre, *self, idx as int));
                    lemma_picks_chosen(pre, *self, idx as int);
                }
                return r;
            }
            self.execute_count[idx] = 0;
            proof {
                Self::lemma_inv_frame(mid, *self);
                assert forall|q: int| 0 <= q < idx + 1 implies #[trigger] self.tokens(q) == 0 by {
                    if q < idx {
                        assert(mid.tokens(q) == 0);
                    }
                }
                assert forall|q: int| idx + 1 <= q < 5 implies #[trigger] self.tokens(q) == pre.tokens(q) by {
                    assert(mid.tokens(q) == pre.tokens(q));
                }
            }
            idx = idx + 1;
        }
        assert(idx == 5);
        let mut idx: usize = 0;
        while idx < PROCESS_READYLISTCOUNT
            invariant
                self.inv(),
                idx <= PROCESS_READYLISTCOUNT,
                self.same_lists(pre),
                self.running == pre.running,
                self.processor_time == pre.processor_time,
                self.ready == pre.ready,
                self.wait == pre.wait,
                self.links@ == pre.links@,
                self.location@ == pre.location@,
                pre == *old(self),
                forall|q: int| 0 <= q < 5 ==> #[trigger] pre.tokens(q) >= pre.ready_list(q).len(),
                forall|q: int| 0 <= q < idx ==> #[trigger] pre.ready_list(q).len() == 0,
                forall|q: int| 0 <= q < 5 ==> #[trigger] self.tokens(q) == 0,
            decreases PROCESS_READYLISTCOUNT - idx,
        {
            proof {
                self.lemma_lists();
            }
            let len = self.ready[idx].count(Ghost(self.links@));
            let ghost mid = *self;
            assert(len == pre.ready_list(idx as int).len());
            assert(self.tokens(idx as int) == 0);
            if len > self.execute_count[idx] {
                self.execute_count[idx] = self.execute_count[idx] + 1;
                proof {
                    Self::lemma_inv_frame(mid, *self);
                }
                let ghost before_pop = *self;
                let r = self.pop_from(idx);
                proof {
                    assert(self.list(5) == before_pop.list(5));
                    assert(second_pass_pick(pre, idx as int));
                    assert(!first_pass_pick(pre, idx as int));
                    assert(self.tokens(idx as int) == 1);
                    assert forall|q: int| 0 <= q < 5 && q != idx implies #[trigger] self.tokens(q) == 0 by {
                        assert(mid.tokens(q) == 0);
                    }
                    assert forall|q: int| 0 <= q < 5 && q != idx implies #[trigger] self.ready_list(q) == pre.ready_list(q) by {
                        assert(self.list(q) == before_pop.list(q));
                    }
                    assert(picks(pre, *self, idx as int));
                    lemma_picks_chosen(pre, *self, idx as int);
                }
                return r;
            }
            assert(pre.ready_list(idx as int).len() == 0);
            idx = idx + 1;
        }
        None
    }

    /// What the lists guarantee: slots in range, no slot twice, no slot on
    /// two lists.
    pub proof fn lemma_queued_facts(&self)
        requires
            self.inv(),
        ensures
            forall|i: int, j: int|
                0 <= i < 5 && 0 <= j < self.ready_list(i).len() ==> #[trigger] self.ready_list(i)[j]
                    < PROCESS_MAXCOUNT,
            forall|j: int| 0 <= j < self.wait_list().len() ==> #[trigger] self.wait_list()[j] < PROCESS_MAXCOUNT,
            forall|i: int| 0 <= i < 5 ==> (#[trigger] self.ready_list(i)).no_duplicates(),
            self.wait_list().no_duplicates(),
            forall|i: int| 0 <= i < 5 ==> (#[trigger] self.ready_list(i)).len() <= PROCESS_MAXCOUNT,
            forall|pid: u64, i: int, j: int|
                0 <= i < 6 && 0 <= j < 6 && #[trigger] self.list_contains(i, pid)
                    && #[trigger] self.list_contains(j, pid) ==> i == j,
            forall|pid: u64| #[trigger] self.queued(pid) ==> pid < PROCESS_MAXCOUNT,
    {
        self.lemma_lists();
        assert(self.list(5) == self.wait);
        assert forall|i: int, j: int|
            0 <= i < 5 && 0 <= j < self.ready_list(i).len() implies #[trigger] self.ready_list(i)[j]
                < PROCESS_MAXCOUNT by {
            assert(self.list(i) == self.ready[i]);
        }
        assert forall|i: int| 0 <= i < 5 implies (#[trigger] self.ready_list(i)).no_duplicates() by {
            assert(self.list(i) == self.ready[i]);
        }
        assert forall|i: int| 0 <= i < 5 implies (#[trigger] self.ready_list(i)).len() <= PROCESS_MAXCOUNT by {
            assert(self.list(i) == self.ready[i]);
        }
        assert forall|pid: u64| #[trigger] self.queued(pid) implies pid < PROCESS_MAXCOUNT by {
            let i = choose|i: int| 0 <= i < 6 && #[trigger] self.list_contains(i, pid);
            let n = self.list(i)@.index_of(pid);
            assert(self.list(i)@[n] < PROCESS_MAXCOUNT);
        }
        assert forall|pid: u64, i: int, j: int|
            0 <= i < 6 && 0 <= j < 6 && #[trigger] self.list_contains(i, pid)
                && #[trigger] self.list_contains(j, pid) implies i == j by {
            assert(self.queued(pid));
            self.lemma_location(pid);
        }
    }

    /// The slots of ready list `p` (5: the wait list), head first.
    pub fn list_items(&self, p: usize) -> (r: Vec<u64>)
        requires
            self.inv(),
            p < 6,
        ensures
            p < 5 ==> r@ == self.ready_list(p as int),
            p == 5 ==> r@ == self.wait_list(),
    {
        proof {
            self.lemma_lists();
        }
        let q = if p < 5 {
            self.ready[p]
        } else {
            self.wait
        };
        let ghost s = q@;
        let mut r: Vec<u64> = Vec::new();
        let mut cursor = q.front(Ghost(self.links@));
        let ghost mut k: int = 0;
        while cursor.is_some()
            invariant
                q.chain_ok(self.links@),
                s == q@,
                self.links@.len() == PROCESS_MAXCOUNT,
                0 <= k <= s.len(),
                r@ == s.subrange(0, k),
                k < s.len() ==> cursor == Some(s[k]),
                k == s.len() ==> cursor is None,
            decreases s.len() - k,
        {
            let c = cursor.unwrap();
            proof {
                q.lemma_elements(self.links@, k);
                q.lemma_successor(self.links@, k);
            }
            r.push(c);
            cursor = self.links[c as usize];
            proof {
                k = k + 1;
            }
        }
        assert(r@ =~= s);
        r
    }
}

/// The slots taken from ready list `p` by a run of picks, in order:
/// `outputs[k]` was taken from priority `priorities[k]`.
pub open spec fn taken_from(priorities: Seq<int>, outputs: Seq<u64>, p: int) -> Seq<u64>
    decreases outputs.len(),
{
    if outputs.len() == 0 || priorities.len() != outputs.len() {
        Seq::empty()
    } else if priorities.last() == p {
        taken_from(priorities.drop_last(), outputs.drop_last(), p).push(outputs.last())
    } else {
        taken_from(priorities.drop_last(), outputs.drop_last(), p)
    }
}

/// A run of picks `states[0] -> states[1] -> ...`, each taking
/// `outputs[k]` off ready list `priorities[k]` as `next` does.
pub open spec fn pick_run(states: Seq<RRScheduler>, priorities: Seq<int>, outputs: Seq<u64>) -> bool {
    &&& states.len() == outputs.len() + 1
    &&& priorities.len() == outputs.len()
    &&& forall|k: int| 0 <= k < outputs.len() ==> #[trigger] picks(states[k], states[k + 1], priorities[k])
        && outputs[k] == states[k].ready_list(priorities[k])[0]
}

/// Along any run of picks, each priority hands out its tasks in list order:
/// what was taken from list `p`, followed by what is left on it, is the list
/// the run started from. Once every list is empty, each task that was ready
/// has been picked exactly once, in FIFO order within its priority.
pub proof fn lemma_pick_run_fifo(states: Seq<RRScheduler>, priorities: Seq<int>, outputs: Seq<u64>, p: int)
    requires
        pick_run(states, priorities, outputs),
        0 <= p < 5,
    ensures
        taken_from(priorities, outputs, p) + states.last().ready_list(p) == states[0].ready_list(p),
    decreases outputs.len(),
{
    if outputs.len() > 0 {
        let n = outputs.len() - 1;
        let s2 = states.drop_last();
        let pr2 = priorities.drop_last();
        let o2 = outputs.drop_last();
        assert forall|k: int| 0 <= k < o2.len() implies #[trigger] picks(s2[k], s2[k + 1], pr2[k])
            && o2[k] == s2[k].ready_list(pr2[k])[0] by {
            assert(picks(states[k], states[k + 1], priorities[k]));
        }
        lemma_pick_run_fifo(s2, pr2, o2, p);
        assert(picks(states[n], states[n + 1], priorities[n]));
        let a = states[n];
        let b = states[n + 1];
        assert(s2.last() == a);
        assert(states.last() == b);
        if priorities[n] == p {
            let l = a.ready_list(p);
            assert(taken_from(pr2, o2, p).push(outputs[n]) + b.ready_list(p) =~= taken_from(pr2, o2, p) + l) by {
                assert(l == seq![l[0]] + l.drop_first());
            }
        } else {
            assert(b.ready_list(p) == a.ready_list(p));
        }
    }
}

/// A pick returns a task only from the head of the one ready list that
/// holds it: after a priority change puts `pid` on list `p`, `next` can
/// return `pid` only when `pid` heads list `p`.
pub proof fn lemma_pick_only_head(a: RRScheduler, b: RRScheduler, q: int, p: int, pid: u64)
    requires
        a.inv(),
        picks(a, b, q),
        0 <= p < 5,
        a.ready_list(p).contains(pid),
        a.ready_list(q)[0] == pid,
    ensures
        q == p,
        a.ready_list(p)[0] == pid,
{
    a.lemma_queued_facts();
    assert(a.list_contains(q, pid)) by {
        assert(a.ready_list(q)[0] == pid);
    }
    assert(a.list_contains(p, pid));
}

} // verus!
