//! Intrusive FIFO of task slots: the next-pointers live in a side array
//! indexed by slot, shared by every list, so moving a task between lists
//! allocates nothing.
use vstd::prelude::*;

verus! {

/// A distinct sequence of values below `n` has at most `n` elements.
pub proof fn lemma_distinct_bounded(s: Seq<u64>, n: nat)
    requires
        s.no_duplicates(),
        forall|i: int| 0 <= i < s.len() ==> s[i] < n,
    ensures
        s.len() <= n,
    decreases n,
{
    if n == 0 {
        if s.len() > 0 {
            assert(s[0] < n);
        }
    } else if s.contains((n - 1) as u64) {
        let j = s.index_of((n - 1) as u64);
        let t = s.remove(j);
        assert forall|a: int, b: int| 0 <= a < t.len() && 0 <= b < t.len() && a != b implies t[a]
            != t[b] by {
            let sa = if a < j { a } else { a + 1 };
            let sb = if b < j { b } else { b + 1 };
            assert(t[a] == s[sa] && t[b] == s[sb]);
        }
        assert forall|i: int| 0 <= i < t.len() implies t[i] < n - 1 by {
            let si = if i < j { i } else { i + 1 };
            assert(t[i] == s[si]);
            assert(si != j);
        }
        lemma_distinct_bounded(t, (n - 1) as nat);
    } else {
        assert forall|i: int| 0 <= i < s.len() implies s[i] < n - 1 by {
            assert(s[i] != (n - 1) as u64);
        }
        lemma_distinct_bounded(s, (n - 1) as nat);
    }
}

/// One FIFO list of slot indices.
#[derive(Clone, Copy)]
pub struct RunQueue {
    head: Option<u64>,
    tail: Option<u64>,
    count: u64,
    items: Ghost<Seq<u64>>,
}

impl RunQueue {
    /// The slots on the list, head first.
    pub closed spec fn view(&self) -> Seq<u64> {
        self.items@
    }

    /// The list is threaded through `links`: each slot points at the next one,
    /// the tail at nothing, and no slot appears twice.
    pub closed spec fn chain_ok(&self, links: Seq<Option<u64>>) -> bool {
        let s = self.items@;
        &&& links.len() < 0xFFFF_FFFF
        &&& self.count == s.len()
        &&& s.no_duplicates()
        &&& forall|i: int| 0 <= i < s.len() ==> s[i] < links.len()
        &&& (s.len() == 0 <==> self.head is None)
        &&& (s.len() == 0 ==> self.tail is None)
        &&& s.len() > 0 ==> self.head == Some(s[0]) && self.tail == Some(s.last()) && links[s.last() as int] is None
        &&& forall|i: int| 0 <= i < s.len() - 1 ==> links[s[i] as int] == Some(s[i + 1])
    }

    /// Changing links outside the list keeps it threaded.
    pub proof fn lemma_frame(&self, l1: Seq<Option<u64>>, l2: Seq<Option<u64>>)
        requires
            self.chain_ok(l1),
            l1.len() == l2.len(),
            forall|k: int| 0 <= k < l1.len() && self@.contains(k as u64) ==> l1[k] == l2[k],
        ensures
            self.chain_ok(l2),
    {
        let s = self.items@;
        assert forall|i: int| 0 <= i < s.len() - 1 implies l2[s[i] as int] == Some(s[i + 1]) by {
            assert(self@.contains(s[i]));
        }
        if s.len() > 0 {
            assert(self@.contains(s.last()));
        }
    }

    /// Every slot on a threaded list indexes `links`.
    pub proof fn lemma_elements(&self, links: Seq<Option<u64>>, j: int)
        requires
            self.chain_ok(links),
            0 <= j < self@.len(),
        ensures
            self@[j] < links.len(),
            self@.no_duplicates(),
    {
    }

    /// The link of the `j`-th slot names the next one, or nothing at the tail.
    pub proof fn lemma_successor(&self, links: Seq<Option<u64>>, j: int)
        requires
            self.chain_ok(links),
            0 <= j < self@.len(),
        ensures
            j < self@.len() - 1 ==> links[self@[j] as int] == Some(self@[j + 1]),
            j == self@.len() - 1 ==> links[self@[j] as int] is None,
    {
    }

    /// A threaded list through `links` holds at most `links.len()` slots.
    pub proof fn lemma_bounded(&self, links: Seq<Option<u64>>)
        requires
            self.chain_ok(links),
        ensures
            self@.len() <= links.len(),
    {
        lemma_distinct_bounded(self.items@, links.len());
    }

    /// An empty list.
    pub fn new() -> (r: Self)
        ensures
            r@ == Seq::<u64>::empty(),
            forall|links: Seq<Option<u64>>| links.len() < 0xFFFF_FFFF ==> r.chain_ok(links),
    {
        RunQueue { head: None, tail: None, count: 0, items: Ghost(Seq::empty()) }
    }

    /// Number of slots on the list.
    pub fn count(&self, Ghost(links): Ghost<Seq<Option<u64>>>) -> (r: u64)
        requires
            self.chain_ok(links),
        ensures
            r == self@.len(),
    {
        self.count
    }

    /// The first slot, if any.
    pub fn front(&self, Ghost(links): Ghost<Seq<Option<u64>>>) -> (r: Option<u64>)
        requires
            self.chain_ok(links),
        ensures
            self@.len() == 0 ==> r is None,
            self@.len() > 0 ==> r == Some(self@[0]),
    {
        self.head
    }

    /// Appends `node` at the tail.
    pub fn push_back(&mut self, links: &mut Vec<Option<u64>>, node: u64)
        requires
            old(self).chain_ok(old(links)@),
            node < old(links)@.len(),
            !old(self)@.contains(node),
        ensures
            final(self).chain_ok(final(links)@),
            final(self)@ == old(self)@.push(node),
            final(links)@.len() == old(links)@.len(),
            forall|k: int|
                0 <= k < old(links)@.len() && !final(self)@.contains(k as u64) ==> final(links)@[k]
                    == old(links)@[k],
    {
        proof {
            let t = self.items@.push(node);
            assert forall|a: int, b: int| 0 <= a < b < t.len() implies t[a] != t[b] by {
                if b == t.len() - 1 {
                    assert(old(self)@.contains(t[a]));
                }
            }
            lemma_distinct_bounded(t, links@.len());
        }
        let ghost l0 = links@;
        links.set(node as usize, None);
        match self.tail {
            Some(last) => {
                links.set(last as usize, Some(node));
                self.tail = Some(node);
            },
            None => {
                self.head = Some(node);
                self.tail = Some(node);
            },
        }
        self.count = self.count + 1;
        self.items = Ghost(self.items@.push(node));
        proof {
            let s = self.items@;
            assert forall|a: int, b: int| 0 <= a < s.len() && 0 <= b < s.len() && a != b implies s[a]
                != s[b] by {
                if a == s.len() - 1 {
                    assert(old(self)@.contains(s[b]));
                }
                if b == s.len() - 1 {
                    assert(old(self)@.contains(s[a]));
                }
            }
            assert forall|i: int| 0 <= i < s.len() - 1 implies links@[s[i] as int] == Some(
                s[i + 1],
            ) by {
                assert(old(self)@.contains(s[i]));
                if i < s.len() - 2 {
                    assert(s[i] != node);
                }
            }
            assert forall|k: int|
                0 <= k < l0.len() && !self@.contains(k as u64) implies links@[k] == l0[k] by {
                assert(self@[self@.len() - 1] == node);
                assert(k != node);
                if old(self)@.len() > 0 {
                    assert(self@[old(self)@.len() - 1] == old(self)@.last());
                }
            }
        }
    }

    /// Removes and returns the head.
    pub fn pop_front(&mut self, links: &mut Vec<Option<u64>>) -> (r: Option<u64>)
        requires
            old(self).chain_ok(old(links)@),
        ensures
            final(self).chain_ok(final(links)@),
            final(links)@.len() == old(links)@.len(),
            old(self)@.len() == 0 ==> r is None && final(self)@ == old(self)@,
            old(self)@.len() > 0 ==> r == Some(old(self)@[0]) && final(self)@ == old(self)@.drop_first(),
            forall|k: int|
                0 <= k < old(links)@.len() && !old(self)@.contains(k as u64) ==> final(links)@[k]
                    == old(links)@[k],
    {
        let ghost l0 = links@;
        match self.head {
            Some(first) => {
                let ghost s = self.items@;
                assert(s[0] == first && first < l0.len());
                if Some(first) == self.tail {
                    assert(s.len() == 1) by {
                        if s.len() > 1 {
                            assert(s[0] == s[s.len() - 1]);
                        }
                    }
                    self.head = None;
                    self.tail = None;
                } else {
                    self.head = links[first as usize];
                }
                links.set(first as usize, None);
                self.count = self.count - 1;
                self.items = Ghost(s.drop_first());
                proof {
                    let t = self.items@;
                    assert(links@ == l0.update(first as int, None));
                    assert forall|i: int| 0 <= i < t.len() implies t[i] != first by {
                        assert(t[i] == s[i + 1]);
                    }
                    assert forall|i: int| 0 <= i < t.len() - 1 implies links@[t[i] as int] == Some(
                        t[i + 1],
                    ) by {
                        assert(t[i] == s[i + 1]);
                        assert(s[i + 1] != s[0]);
                        assert(l0[s[i + 1] as int] == Some(s[i + 2]));
                    }
                    assert forall|k: int|
                        0 <= k < l0.len() && !s.contains(k as u64) implies links@[k] == l0[k] by {
                        if k == first {
                            assert(s.contains(first));
                        }
                    }
                }
                Some(first)
            },
            None => None,
        }
    }

    /// Unlinks `pid` from the list. `Err(())` when it is not on it.
    pub fn remove(&mut self, links: &mut Vec<Option<u64>>, pid: u64) -> (r: Result<u64, ()>)
        requires
            old(self).chain_ok(old(links)@),
        ensures
            final(self).chain_ok(final(links)@),
            final(links)@.len() == old(links)@.len(),
            r is Ok <==> old(self)@.contains(pid),
            r is Ok ==> r == Ok::<u64, ()>(pid) && final(self)@ == old(self)@.remove(
                old(self)@.index_of(pid),
            ),
            r is Err ==> final(self)@ == old(self)@,
            forall|k: int|
                0 <= k < old(links)@.len() && !old(self)@.contains(k as u64) ==> final(links)@[k]
                    == old(links)@[k],
    {
        let ghost s = self.items@;
        let first = match self.head {
            Some(h) => h,
            None => {
                return Err(());
            },
        };
        if first == pid {
            self.pop_front(links);
            proof {
                assert(s[0] == pid);
                assert(s.index_of(pid) == 0) by {
                    assert(s.contains(pid));
                }
            }
            return Ok(pid);
        }
        let mut current = first;
        let ghost mut k: int = 0;
        loop
            invariant
                self.chain_ok(links@),
                self.items@ == s,
                s == old(self)@,
                s.len() > 0,
                0 <= k < s.len(),
                current == s[k],
                forall|j: int| 0 <= j <= k ==> s[j] != pid,
                links@ == old(links)@,
            ensures
                0 <= k < s.len() - 1,
                current == s[k],
                s[k + 1] == pid,
            decreases s.len() - k,
        {
            assert(current < links@.len());
            let next = links[current as usize];
            assert(next == links@[s[k] as int]);
            proof {
                if k < s.len() - 1 {
                    assert(links@[s[k] as int] == Some(s[k + 1]));
                }
            }
            match next {
                None => {
                    assert(k == s.len() - 1);
                    assert(!s.contains(pid)) by {
                        assert forall|j: int| 0 <= j < s.len() implies s[j] != pid by {}
                    }
                    return Err(());
                },
                Some(n) => {
                    assert(k < s.len() - 1);
                    if n == pid {
                        break;
                    }
                    current = n;
                    proof {
                        k = k + 1;
                    }
                },
            }
        }
        let ghost idx = k + 1;
        assert(s[idx] == pid);
        assert(s.index_of(pid) == idx) by {
            assert(s.contains(pid));
        }
        if self.tail == Some(pid) {
            self.tail = Some(current);
        }
        let after = links[pid as usize];
        links.set(current as usize, after);
        links.set(pid as usize, None);
        self.count = self.count - 1;
        self.items = Ghost(s.remove(idx));
        proof {
            let t = self.items@;
            let l = links@;
            assert(s[s.len() - 1] == pid ==> idx == s.len() - 1);
            assert forall|i: int| 0 <= i < t.len() implies t[i] == (if i < idx {
                s[i]
            } else {
                s[i + 1]
            }) by {}
            assert forall|i: int| 0 <= i < t.len() implies t[i] != pid by {
                if i >= idx {
                    assert(s[i + 1] != s[idx]);
                }
            }
            assert forall|i: int| 0 <= i < t.len() - 1 implies l[t[i] as int] == Some(t[i + 1]) by {
                if i == k {
                    assert(t[i] == current);
                } else if i < k {
                    assert(t[i] != current);
                } else {
                    assert(t[i] == s[i + 1]);
                    assert(s[i + 1] != s[k]);
                }
            }
            if t.len() > 0 {
                if idx == s.len() - 1 {
                    assert(t.last() == current);
                } else {
                    assert(t.last() == s.last());
                    assert(s.last() != current);
                }
            }
        }
        Ok(pid)
    }
}

} // verus!
