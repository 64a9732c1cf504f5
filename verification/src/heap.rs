//! A binary min-heap of timer keys.
//!
//! A key is a deadline and the handle of the timer that carries it. Keys are
//! ordered by deadline first and by handle second, so that among timers with
//! one deadline the one registered first leaves first.

use vstd::prelude::*;
use vstd::multiset::Multiset;

verus! {

/// What the heap orders: a deadline in nanoseconds, and the timer's handle.
#[derive(Clone, Copy, Debug, PartialEq, Eq, Structural)]
pub struct HeapItem {
    pub deadline: u64,
    pub handle: usize,
}

/// `a` leaves the heap no later than `b`.
pub open spec fn key_le(a: HeapItem, b: HeapItem) -> bool {
    a.deadline < b.deadline || (a.deadline == b.deadline && a.handle <= b.handle)
}

/// `a` leaves the heap strictly before `b`.
pub open spec fn key_lt(a: HeapItem, b: HeapItem) -> bool {
    a.deadline < b.deadline || (a.deadline == b.deadline && a.handle < b.handle)
}

/// The position above `k` in the implicit tree.
pub open spec fn parent(k: int) -> int {
    (k - 1) / 2
}

/// Every position but the root holds a key that is no smaller than its
/// parent's.
pub open spec fn is_heap(s: Seq<HeapItem>) -> bool {
    forall|k: int| 1 <= k < s.len() ==> key_le(#[trigger] s[parent(k)], s[k])
}

/// The heap order everywhere but between `hole` and its parent, with the
/// children of `hole` already no smaller than its parent.
spec fn heap_but_above(s: Seq<HeapItem>, hole: int) -> bool {
    &&& forall|k: int| 1 <= k < s.len() && k != hole ==> key_le(#[trigger] s[parent(k)], s[k])
    &&& forall|k: int|
        1 <= k < s.len() && parent(k) == hole && hole >= 1 ==> key_le(
            s[parent(hole)],
            #[trigger] s[k],
        )
}

/// The heap order everywhere but between `hole` and its children, with the
/// children of `hole` already no smaller than its parent.
spec fn heap_but_below(s: Seq<HeapItem>, hole: int) -> bool {
    &&& forall|k: int|
        1 <= k < s.len() && parent(k) != hole ==> key_le(#[trigger] s[parent(k)], s[k])
    &&& forall|k: int|
        1 <= k < s.len() && parent(k) == hole && hole >= 1 ==> key_le(
            s[parent(hole)],
            #[trigger] s[k],
        )
}

/// In a heap the root is no larger than any other key.
pub proof fn lemma_root_is_least(s: Seq<HeapItem>, i: int)
    requires
        is_heap(s),
        0 <= i < s.len(),
    ensures
        key_le(s[0], s[i]),
    decreases i,
{
    if i > 0 {
        lemma_root_is_least(s, parent(i));
        assert(key_le(s[parent(i)], s[i]));
    }
}

fn item_le(a: HeapItem, b: HeapItem) -> (r: bool)
    ensures
        r == key_le(a, b),
{
    a.deadline < b.deadline || (a.deadline == b.deadline && a.handle <= b.handle)
}

fn swap_items(v: &mut Vec<HeapItem>, i: usize, j: usize)
    requires
        i < old(v).len(),
        j < old(v).len(),
    ensures
        final(v)@ == old(v)@.update(i as int, old(v)@[j as int]).update(j as int, old(v)@[i as int]),
        final(v)@.to_multiset() == old(v)@.to_multiset(),
        final(v).len() == old(v).len(),
{
    broadcast use vstd::seq_lib::group_to_multiset_ensures;

    let a = v[i];
    let b = v[j];
    v.set(i, b);
    v.set(j, a);
    proof {
        let s0 = old(v)@;
        let s1 = s0.update(i as int, b);
        assert(s1.to_multiset() =~= s0.to_multiset().insert(b).remove(a));
        assert(v@.to_multiset() =~= s1.to_multiset().insert(a).remove(s1[j as int]));
        assert(s0.to_multiset().count(a) > 0) by {
            assert(s0.contains(a));
        }
        assert(s0.to_multiset().count(b) > 0) by {
            assert(s0.contains(b));
        }
        assert(v@.to_multiset() =~= s0.to_multiset());
    }
}

fn sift_up(v: &mut Vec<HeapItem>, start: usize)
    requires
        start < old(v).len(),
        heap_but_above(old(v)@, start as int),
    ensures
        is_heap(final(v)@),
        final(v)@.to_multiset() == old(v)@.to_multiset(),
        final(v).len() == old(v).len(),
{
    let mut i: usize = start;
    while i > 0
        invariant
            i < v.len(),
            v.len() == old(v).len(),
            heap_but_above(v@, i as int),
            v@.to_multiset() == old(v)@.to_multiset(),
        ensures
            i < v.len(),
            v.len() == old(v).len(),
            is_heap(v@),
            v@.to_multiset() == old(v)@.to_multiset(),
        decreases i,
    {
        let p: usize = (i - 1) / 2;
        if item_le(v[p], v[i]) {
            break ;
        }
        let ghost before = v@;
        swap_items(v, p, i);
        proof {
            assert forall|k: int| 1 <= k < v@.len() && k != p implies key_le(
                #[trigger] v@[parent(k)],
                v@[k],
            ) by {
                if k == i {
                } else if parent(k) == i {
                    assert(key_le(before[parent(i as int)], before[k]));
                } else if parent(k) == p {
                    assert(key_le(before[parent(k)], before[k]));
                } else {
                    assert(key_le(before[parent(k)], before[k]));
                }
            }
            assert forall|k: int| 1 <= k < v@.len() && parent(k) == p && p >= 1 implies key_le(
                v@[parent(p as int)],
                #[trigger] v@[k],
            ) by {
                assert(key_le(before[parent(p as int)], before[p as int]));
                if k == i {
                } else {
                    assert(key_le(before[parent(k)], before[k]));
                }
            }
        }
        i = p;
    }
}

fn sift_down(v: &mut Vec<HeapItem>)
    requires
        old(v).len() > 0,
        heap_but_below(old(v)@, 0),
    ensures
        is_heap(final(v)@),
        final(v)@.to_multiset() == old(v)@.to_multiset(),
        final(v).len() == old(v).len(),
{
    let n: usize = v.len();
    let mut i: usize = 0;
    while i < n / 2
        invariant
            n == v.len(),
            v.len() == old(v).len(),
            i < n,
            heap_but_below(v@, i as int),
            v@.to_multiset() == old(v)@.to_multiset(),
        ensures
            v.len() == old(v).len(),
            is_heap(v@),
            v@.to_multiset() == old(v)@.to_multiset(),
        decreases n - i,
    {
        let left: usize = 2 * i + 1;
        let right: usize = left + 1;
        let child: usize = if right < n && !item_le(v[left], v[right]) {
            right
        } else {
            left
        };
        if item_le(v[i], v[child]) {
            proof {
                assert forall|k: int| 1 <= k < v@.len() implies key_le(
                    #[trigger] v@[parent(k)],
                    v@[k],
                ) by {
                    if parent(k) == i {
                        assert(k == left || k == right);
                    }
                }
            }
            break ;
        }
        let ghost before = v@;
        swap_items(v, i, child);
        proof {
            assert forall|k: int| 1 <= k < v@.len() && parent(k) != child implies key_le(
                #[trigger] v@[parent(k)],
                v@[k],
            ) by {
                if parent(k) == i {
                    assert(k == left || k == right);
                    if k != child {
                        assert(key_le(before[child as int], before[k]));
                    }
                } else if k == i {
                    assert(key_le(before[parent(i as int)], before[child as int]));
                } else {
                    assert(key_le(before[parent(k)], before[k]));
                }
            }
            assert forall|k: int|
                1 <= k < v@.len() && parent(k) == child && child >= 1 implies key_le(
                v@[parent(child as int)],
                #[trigger] v@[k],
            ) by {
                assert(key_le(before[parent(k)], before[k]));
            }
        }
        i = child;
    }
    proof {
        if i >= n / 2 {
            assert forall|k: int| 1 <= k < v@.len() implies key_le(
                #[trigger] v@[parent(k)],
                v@[k],
            ) by {
                assert(parent(k) != i);
            }
        }
    }
}

/// A min-heap of timer keys.
#[derive(Debug)]
pub struct TimerHeap {
    items: Vec<HeapItem>,
}

impl TimerHeap {
    /// The keys in the heap, each as often as it was pushed and not yet popped.
    pub closed spec fn contents(&self) -> Multiset<HeapItem> {
        self.items@.to_multiset()
    }

    /// The heap order holds.
    pub closed spec fn wf(&self) -> bool {
        is_heap(self.items@)
    }

    /// `m` is in `among` and no key of `among` leaves before it.
    pub open spec fn is_least(m: HeapItem, among: Multiset<HeapItem>) -> bool {
        &&& among.count(m) > 0
        &&& forall|e: HeapItem| #[trigger] among.count(e) > 0 ==> key_le(m, e)
    }

    pub fn new() -> (h: TimerHeap)
        ensures
            h.wf(),
            h.contents() == Multiset::<HeapItem>::empty(),
    {
        broadcast use vstd::seq_lib::group_to_multiset_ensures;

        let h = TimerHeap { items: Vec::new() };
        assert(h.items@.to_multiset() =~= Multiset::<HeapItem>::empty());
        h
    }

    pub fn len(&self) -> (n: usize)
        ensures
            n == self.contents().len(),
    {
        broadcast use vstd::seq_lib::group_to_multiset_ensures;

        self.items.len()
    }

    pub fn is_empty(&self) -> (b: bool)
        ensures
            b == (self.contents().len() == 0),
    {
        broadcast use vstd::seq_lib::group_to_multiset_ensures;

        self.items.len() == 0
    }

    /// Adds one key.
    pub fn push(&mut self, item: HeapItem)
        requires
            old(self).wf(),
        ensures
            final(self).wf(),
            final(self).contents() == old(self).contents().insert(item),
    {
        broadcast use vstd::seq_lib::group_to_multiset_ensures;

        self.items.push(item);
        let last: usize = self.items.len() - 1;
        proof {
            let s = self.items@;
            assert forall|k: int| 1 <= k < s.len() && k != last implies key_le(
                #[trigger] s[parent(k)],
                s[k],
            ) by {
                assert(key_le(old(self).items@[parent(k)], old(self).items@[k]));
            }
        }
        sift_up(&mut self.items, last);
    }

    /// The key that leaves next, if there is one. The heap is unchanged.
    pub fn peek(&self) -> (r: Option<HeapItem>)
        requires
            self.wf(),
        ensures
            r.is_none() <==> self.contents().len() == 0,
            r matches Some(m) ==> Self::is_least(m, self.contents()),
    {
        broadcast use vstd::seq_lib::group_to_multiset_ensures;

        if self.items.len() == 0 {
            None
        } else {
            let m = self.items[0];
            proof {
                let s = self.items@;
                assert(s.contains(m));
                assert forall|e: HeapItem| #[trigger] s.to_multiset().count(e) > 0 implies key_le(
                    m,
                    e,
                ) by {
                    assert(s.contains(e));
                    let i = choose|i: int| 0 <= i < s.len() && s[i] == e;
                    lemma_root_is_least(s, i);
                }
            }
            Some(m)
        }
    }

    /// Takes out the key that leaves next, if there is one.
    pub fn pop(&mut self) -> (r: Option<HeapItem>)
        requires
            old(self).wf(),
        ensures
            final(self).wf(),
            r.is_none() <==> old(self).contents().len() == 0,
            r.is_none() ==> final(self).contents() == old(self).contents(),
            r matches Some(m) ==> Self::is_least(m, old(self).contents()),
            r matches Some(m) ==> final(self).contents() == old(self).contents().remove(m),
            r.is_some() ==> final(self).contents().len() + 1 == old(self).contents().len(),
    {
        broadcast use vstd::seq_lib::group_to_multiset_ensures;

        let n: usize = self.items.len();
        if n == 0 {
            return None;
        }
        let ghost s0 = self.items@;
        let m = self.items[0];
        proof {
            assert(s0.contains(m));
            assert forall|e: HeapItem| #[trigger] s0.to_multiset().count(e) > 0 implies key_le(
                m,
                e,
            ) by {
                assert(s0.contains(e));
                let i = choose|i: int| 0 <= i < s0.len() && s0[i] == e;
                lemma_root_is_least(s0, i);
            }
        }
        let last = self.items.pop().unwrap();
        let ghost s1 = self.items@;
        proof {
            assert(s0 =~= s1.push(last));
            assert(s0.to_multiset() =~= s1.to_multiset().insert(last));
        }
        if n > 1 {
            self.items.set(0, last);
            proof {
                let s2 = self.items@;
                assert(s1[0] == m);
                assert(s2.to_multiset() =~= s1.to_multiset().insert(last).remove(m));
                assert(s2.to_multiset() =~= s0.to_multiset().remove(m));
                assert forall|k: int| 1 <= k < s2.len() && parent(k) != 0 implies key_le(
                    #[trigger] s2[parent(k)],
                    s2[k],
                ) by {
                    assert(key_le(s0[parent(k)], s0[k]));
                }
            }
            sift_down(&mut self.items);
        } else {
            proof {
                assert(last == m);
                assert(s1.to_multiset() =~= s0.to_multiset().remove(m));
            }
        }
        Some(m)
    }
}

} // verus!
