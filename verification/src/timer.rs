//! The timer wheel: the pending deadlines, in the order in which they fire.
//!
//! A timer is registered with a deadline and the task to wake. It leaves the
//! wheel when its deadline is reached or when it is cancelled. Timers fire by
//! deadline, and timers with one deadline fire in the order in which they
//! were registered. A cancelled timer stays in the heap as a tombstone until
//! it reaches the root.

use vstd::prelude::*;
use crate::heap::{HeapItem, TimerHeap, key_le, key_lt};
use crate::time::Instant;

verus! {

/// A pending timer: when it fires and whom it wakes.
#[derive(Clone, Copy, Debug, PartialEq, Eq, Structural)]
pub struct Timer {
    pub deadline: Instant,
    pub task: usize,
}

/// A timer that has fired.
#[derive(Clone, Copy, Debug, PartialEq, Eq, Structural)]
pub struct Expired {
    pub handle: usize,
    pub deadline: Instant,
    pub task: usize,
}

#[derive(Clone, Copy, Debug, PartialEq, Eq, Structural)]
enum TimerState {
    Pending,
    Fired,
    Cancelled,
}

#[derive(Clone, Copy, Debug)]
struct Slot {
    deadline: Instant,
    task: usize,
    state: TimerState,
}

/// `a` fires before `b`: earlier deadline, or the same deadline and
/// registered earlier.
pub open spec fn fires_before(a: Expired, b: Expired) -> bool {
    a.deadline.nanos < b.deadline.nanos || (a.deadline.nanos == b.deadline.nanos && a.handle
        < b.handle)
}

/// The handles of the timers of `m` whose deadline is `now` or earlier.
pub open spec fn due(m: Map<usize, Timer>, now: Instant) -> Set<usize> {
    Set::new(|h: usize| m.contains_key(h) && m[h].deadline.nanos <= now.nanos)
}

/// `t` is the deadline of some timer of `m`, and no timer of `m` has an
/// earlier one.
pub open spec fn is_earliest(m: Map<usize, Timer>, t: Instant) -> bool {
    &&& exists|h: usize| #[trigger] m.contains_key(h) && m[h].deadline == t
    &&& forall|h: usize| #[trigger] m.contains_key(h) ==> t.nanos <= m[h].deadline.nanos
}

/// `out` holds exactly the timers of `m` that are due at `now`, each once, in
/// the order in which they fire.
pub open spec fn is_firing_order(m: Map<usize, Timer>, now: Instant, out: Seq<Expired>) -> bool {
    &&& forall|k: int|
        0 <= k < out.len() ==> {
            &&& m.contains_key((#[trigger] out[k]).handle)
            &&& m[out[k].handle] == Timer { deadline: out[k].deadline, task: out[k].task }
            &&& out[k].deadline.nanos <= now.nanos
        }
    &&& forall|h: usize|
        #[trigger] m.contains_key(h) && m[h].deadline.nanos <= now.nanos ==> exists|k: int|
            0 <= k < out.len() && (#[trigger] out[k]).handle == h
    &&& forall|j: int, k: int| 0 <= j < k < out.len() ==> fires_before(out[j], out[k])
}

/// The earliest deadline among the timers of `m`; `None` where `m` is empty.
pub open spec fn earliest_deadline(m: Map<usize, Timer>) -> Option<Instant> {
    if m =~= Map::<usize, Timer>::empty() {
        None
    } else {
        Some(choose|t: Instant| is_earliest(m, t))
    }
}

/// The timers of `m` that are due at `now`, in the order in which they fire.
pub open spec fn firing_order(m: Map<usize, Timer>, now: Instant) -> Seq<Expired> {
    choose|out: Seq<Expired>| is_firing_order(m, now, out)
}

/// There is only one earliest deadline.
pub proof fn lemma_earliest_unique(m: Map<usize, Timer>, t: Instant)
    requires
        is_earliest(m, t),
    ensures
        earliest_deadline(m) == Some(t),
{
    let h = choose|h: usize| #[trigger] m.contains_key(h) && m[h].deadline == t;
    assert(m.contains_key(h));
    assert(!(m =~= Map::<usize, Timer>::empty()));
    let u = choose|u: Instant| is_earliest(m, u);
    let hu = choose|hu: usize| #[trigger] m.contains_key(hu) && m[hu].deadline == u;
    assert(u.nanos <= t.nanos && t.nanos <= u.nanos);
}

/// Where a timer is pending, some deadline is the earliest.
pub proof fn lemma_earliest_exists(m: Map<usize, Timer>, h: usize)
    requires
        m.contains_key(h),
    ensures
        earliest_deadline(m) matches Some(t) && is_earliest(m, t),
    decreases m[h].deadline.nanos,
{
    if exists|k: usize| #[trigger] m.contains_key(k) && m[k].deadline.nanos < m[h].deadline.nanos {
        let k = choose|k: usize| #[trigger]
            m.contains_key(k) && m[k].deadline.nanos < m[h].deadline.nanos;
        lemma_earliest_exists(m, k);
    } else {
        assert(is_earliest(m, m[h].deadline));
        lemma_earliest_unique(m, m[h].deadline);
    }
}

/// A sequence that is a firing order is the firing order.
pub proof fn lemma_firing_order_is(m: Map<usize, Timer>, now: Instant, out: Seq<Expired>)
    requires
        is_firing_order(m, now, out),
    ensures
        firing_order(m, now) == out,
{
    lemma_firing_order_unique(m, now, firing_order(m, now), out);
}

/// Where the timers have handles below some bound, they have a firing order
/// at every instant.
pub proof fn lemma_firing_order_exists(m: Map<usize, Timer>, now: Instant, bound: nat)
    requires
        forall|h: usize| #[trigger] m.contains_key(h) ==> h < bound,
    ensures
        is_firing_order(m, now, firing_order(m, now)),
{
    let out = lemma_firing_order_build(m, now, bound);
}

/// Builds a firing order for timers whose handles are below `bound`.
proof fn lemma_firing_order_build(m: Map<usize, Timer>, now: Instant, bound: nat) -> (out: Seq<
    Expired,
>)
    requires
        forall|h: usize| #[trigger] m.contains_key(h) ==> h < bound,
    ensures
        is_firing_order(m, now, out),
    decreases bound,
{
    if bound == 0 {
        let out = Seq::<Expired>::empty();
        assert(is_firing_order(m, now, out));
        out
    } else if bound - 1 > usize::MAX {
        lemma_firing_order_build(m, now, (bound - 1) as nat)
    } else {
        let top = (bound - 1) as usize;
        let rest = lemma_firing_order_build(m.remove(top), now, (bound - 1) as nat);
        if m.contains_key(top) && m[top].deadline.nanos <= now.nanos {
            let e = Expired { handle: top, deadline: m[top].deadline, task: m[top].task };
            let out = insert_in_order(rest, e);
            lemma_insert_in_order(m.remove(top), now, rest, e);
            assert(is_firing_order(m, now, out)) by {
                assert forall|k: int| 0 <= k < out.len() implies {
                    &&& m.contains_key((#[trigger] out[k]).handle)
                    &&& m[out[k].handle] == Timer { deadline: out[k].deadline, task: out[k].task }
                    &&& out[k].deadline.nanos <= now.nanos
                } by {
                    if out[k] != e {
                        let j = choose|j: int| 0 <= j < rest.len() && rest[j] == out[k];
                        assert(m.remove(top).contains_key(rest[j].handle));
                    }
                }
                assert forall|h: usize|
                    #[trigger] m.contains_key(h) && m[h].deadline.nanos <= now.nanos implies exists|
                    k: int,
                |
                    0 <= k < out.len() && (#[trigger] out[k]).handle == h by {
                    if h == top {
                        let k = choose|k: int| 0 <= k < out.len() && out[k] == e;
                        assert(out[k].handle == h);
                    } else {
                        assert(m.remove(top).contains_key(h));
                        let j = choose|j: int| 0 <= j < rest.len() && (#[trigger] rest[j]).handle == h;
                        let k = choose|k: int| 0 <= k < out.len() && out[k] == rest[j];
                        assert(out[k].handle == h);
                    }
                }
            }
            out
        } else {
            assert(is_firing_order(m, now, rest)) by {
                assert forall|k: int| 0 <= k < rest.len() implies {
                    &&& m.contains_key((#[trigger] rest[k]).handle)
                    &&& m[rest[k].handle] == Timer {
                        deadline: rest[k].deadline,
                        task: rest[k].task,
                    }
                    &&& rest[k].deadline.nanos <= now.nanos
                } by {
                    assert(m.remove(top).contains_key(rest[k].handle));
                }
                assert forall|h: usize|
                    #[trigger] m.contains_key(h) && m[h].deadline.nanos <= now.nanos implies exists|
                    k: int,
                |
                    0 <= k < rest.len() && (#[trigger] rest[k]).handle == h by {
                    assert(m.remove(top).contains_key(h));
                }
            }
            rest
        }
    }
}

/// `s` with `e` put before the first element that fires after it.
spec fn insert_in_order(s: Seq<Expired>, e: Expired) -> Seq<Expired>
    decreases s.len(),
{
    if s.len() == 0 {
        seq![e]
    } else if fires_before(e, s[0]) {
        seq![e] + s
    } else {
        seq![s[0]] + insert_in_order(s.skip(1), e)
    }
}

/// Putting a timer into a firing order of other timers keeps the order and
/// adds nothing but that timer.
proof fn lemma_insert_in_order(m: Map<usize, Timer>, now: Instant, s: Seq<Expired>, e: Expired)
    requires
        forall|j: int, k: int| 0 <= j < k < s.len() ==> fires_before(s[j], s[k]),
        forall|k: int| 0 <= k < s.len() ==> (#[trigger] s[k]).handle != e.handle,
    ensures
        insert_in_order(s, e).len() == s.len() + 1,
        forall|j: int, k: int|
            0 <= j < k < insert_in_order(s, e).len() ==> fires_before(
                insert_in_order(s, e)[j],
                insert_in_order(s, e)[k],
            ),
        exists|k: int| 0 <= k < insert_in_order(s, e).len() && insert_in_order(s, e)[k] == e,
        forall|j: int|
            0 <= j < s.len() ==> exists|k: int|
                0 <= k < insert_in_order(s, e).len() && insert_in_order(s, e)[k] == #[trigger] s[j],
        forall|k: int|
            0 <= k < insert_in_order(s, e).len() && #[trigger] insert_in_order(s, e)[k] != e
                ==> exists|j: int| 0 <= j < s.len() && s[j] == insert_in_order(s, e)[k],
    decreases s.len(),
{
    let out = insert_in_order(s, e);
    if s.len() == 0 {
        assert(out[0] == e);
    } else if fires_before(e, s[0]) {
        assert(out[0] == e);
        assert forall|j: int, k: int| 0 <= j < k < out.len() implies fires_before(
            out[j],
            out[k],
        ) by {
            if j == 0 {
                assert(out[k] == s[k - 1]);
                if k - 1 > 0 {
                    assert(fires_before(s[0], s[k - 1]));
                }
            } else {
                assert(out[j] == s[j - 1] && out[k] == s[k - 1]);
            }
        }
        assert forall|j: int| 0 <= j < s.len() implies exists|k: int|
            0 <= k < out.len() && out[k] == #[trigger] s[j] by {
            assert(out[j + 1] == s[j]);
        }
        assert forall|k: int| 0 <= k < out.len() && #[trigger] out[k] != e implies exists|j: int|
            0 <= j < s.len() && s[j] == out[k] by {
            assert(s[k - 1] == out[k]);
        }
    } else {
        let t = s.skip(1);
        let inner = insert_in_order(t, e);
        assert forall|j: int, k: int| 0 <= j < k < t.len() implies fires_before(t[j], t[k]) by {
            assert(t[j] == s[j + 1] && t[k] == s[k + 1]);
        }
        assert forall|k: int| 0 <= k < t.len() implies (#[trigger] t[k]).handle != e.handle by {
            assert(t[k] == s[k + 1]);
        }
        lemma_insert_in_order(m, now, t, e);
        assert(s[0].handle != e.handle);
        assert(fires_before(s[0], e));
        assert forall|j: int, k: int| 0 <= j < k < out.len() implies fires_before(
            out[j],
            out[k],
        ) by {
            if j == 0 {
                assert(out[k] == inner[k - 1]);
                if inner[k - 1] != e {
                    let i = choose|i: int| 0 <= i < t.len() && t[i] == inner[k - 1];
                    assert(t[i] == s[i + 1]);
                    assert(fires_before(s[0], s[i + 1]));
                }
            } else {
                assert(out[j] == inner[j - 1] && out[k] == inner[k - 1]);
            }
        }
        let ke = choose|k: int| 0 <= k < inner.len() && inner[k] == e;
        assert(out[ke + 1] == e);
        assert forall|j: int| 0 <= j < s.len() implies exists|k: int|
            0 <= k < out.len() && out[k] == #[trigger] s[j] by {
            if j == 0 {
                assert(out[0] == s[0]);
            } else {
                assert(t[j - 1] == s[j]);
                let k = choose|k: int| 0 <= k < inner.len() && inner[k] == t[j - 1];
                assert(out[k + 1] == s[j]);
            }
        }
        assert forall|k: int| 0 <= k < out.len() && #[trigger] out[k] != e implies exists|j: int|
            0 <= j < s.len() && s[j] == out[k] by {
            if k == 0 {
                assert(s[0] == out[0]);
            } else {
                assert(inner[k - 1] == out[k]);
                let j = choose|j: int| 0 <= j < t.len() && t[j] == inner[k - 1];
                assert(s[j + 1] == out[k]);
            }
        }
    }
}

/// The firing order is empty exactly where no timer is due.
pub proof fn lemma_firing_order_empty(m: Map<usize, Timer>, now: Instant, out: Seq<Expired>)
    requires
        is_firing_order(m, now, out),
    ensures
        out.len() == 0 <==> due(m, now) =~= Set::<usize>::empty(),
{
    if out.len() == 0 {
        assert forall|h: usize| !due(m, now).contains(h) by {
            if due(m, now).contains(h) {
                let k = choose|k: int| 0 <= k < out.len() && (#[trigger] out[k]).handle == h;
            }
        }
    } else {
        assert(due(m, now).contains(out[0].handle));
    }
}

/// There is only one firing order.
pub proof fn lemma_firing_order_unique(
    m: Map<usize, Timer>,
    now: Instant,
    a: Seq<Expired>,
    b: Seq<Expired>,
)
    requires
        is_firing_order(m, now, a),
        is_firing_order(m, now, b),
    ensures
        a == b,
    decreases a.len(),
{
    if a.len() == 0 {
        if b.len() > 0 {
            assert(m.contains_key(b[0].handle));
            let k = choose|k: int| 0 <= k < a.len() && (#[trigger] a[k]).handle == b[0].handle;
        }
        assert(a =~= b);
    } else {
        assert(m.contains_key(a[0].handle));
        let kb = choose|k: int| 0 <= k < b.len() && (#[trigger] b[k]).handle == a[0].handle;
        assert(m.contains_key(b[0].handle));
        let ka = choose|k: int| 0 <= k < a.len() && (#[trigger] a[k]).handle == b[0].handle;
        assert(b[kb] == a[0]);
        assert(a[ka] == b[0]);
        if kb > 0 {
            assert(fires_before(b[0], b[kb]));
            if ka > 0 {
                assert(fires_before(a[0], a[ka]));
            }
        }
        assert(a[0] == b[0]);
        let h0 = a[0].handle;
        let m1 = m.remove(h0);
        let a1 = a.skip(1);
        let b1 = b.skip(1);
        assert(is_firing_order(m1, now, a1)) by {
            assert forall|k: int| 0 <= k < a1.len() implies {
                &&& m1.contains_key((#[trigger] a1[k]).handle)
                &&& m1[a1[k].handle] == Timer { deadline: a1[k].deadline, task: a1[k].task }
                &&& a1[k].deadline.nanos <= now.nanos
            } by {
                assert(a1[k] == a[k + 1]);
                assert(fires_before(a[0], a[k + 1]));
            }
            assert forall|h: usize|
                #[trigger] m1.contains_key(h) && m1[h].deadline.nanos <= now.nanos implies exists|
                k: int,
            |
                0 <= k < a1.len() && (#[trigger] a1[k]).handle == h by {
                assert(m.contains_key(h));
                let k = choose|k: int| 0 <= k < a.len() && (#[trigger] a[k]).handle == h;
                assert(k > 0);
                assert(a1[k - 1] == a[k]);
            }
            assert forall|j: int, k: int| 0 <= j < k < a1.len() implies fires_before(
                a1[j],
                a1[k],
            ) by {
                assert(a1[j] == a[j + 1] && a1[k] == a[k + 1]);
            }
        }
        assert(is_firing_order(m1, now, b1)) by {
            assert forall|k: int| 0 <= k < b1.len() implies {
                &&& m1.contains_key((#[trigger] b1[k]).handle)
                &&& m1[b1[k].handle] == Timer { deadline: b1[k].deadline, task: b1[k].task }
                &&& b1[k].deadline.nanos <= now.nanos
            } by {
                assert(b1[k] == b[k + 1]);
                assert(fires_before(b[0], b[k + 1]));
            }
            assert forall|h: usize|
                #[trigger] m1.contains_key(h) && m1[h].deadline.nanos <= now.nanos implies exists|
                k: int,
            |
                0 <= k < b1.len() && (#[trigger] b1[k]).handle == h by {
                assert(m.contains_key(h));
                let k = choose|k: int| 0 <= k < b.len() && (#[trigger] b[k]).handle == h;
                assert(k > 0);
                assert(b1[k - 1] == b[k]);
            }
            assert forall|j: int, k: int| 0 <= j < k < b1.len() implies fires_before(
                b1[j],
                b1[k],
            ) by {
                assert(b1[j] == b[j + 1] && b1[k] == b[k + 1]);
            }
        }
        lemma_firing_order_unique(m1, now, a1, b1);
        assert(a =~= seq![a[0]] + a1);
        assert(b =~= seq![b[0]] + b1);
    }
}

spec fn item_of(slot: Slot, handle: int) -> HeapItem {
    HeapItem { deadline: slot.deadline.nanos, handle: handle as usize }
}

/// The pending timers, ordered by deadline and then by registration.
#[derive(Debug)]
pub struct TimerWheel {
    heap: TimerHeap,
    slots: Vec<Slot>,
}

impl TimerWheel {
    /// The timers that are registered and have neither fired nor been
    /// cancelled, by handle.
    pub closed spec fn pending(&self) -> Map<usize, Timer> {
        Map::new(
            |h: usize| h < self.slots.len() && self.slots[h as int].state == TimerState::Pending,
            |h: usize|
                Timer { deadline: self.slots[h as int].deadline, task: self.slots[h as int].task },
        )
    }

    /// How many timers were ever registered. Handles are given out in order,
    /// starting at zero.
    pub closed spec fn issued(&self) -> nat {
        self.slots.len() as nat
    }

    /// How many timers wait in the heap, pending ones and tombstones. It
    /// bounds the number of times that timers can still fire.
    pub closed spec fn backlog(&self) -> nat {
        self.heap.contents().len()
    }

    /// Everything but that the heap's root is a pending timer.
    spec fn wf_loose(&self) -> bool {
        &&& self.heap.wf()
        &&& forall|e: HeapItem| #[trigger]
            self.heap.contents().count(e) > 0 ==> {
                &&& e.handle < self.slots.len()
                &&& e.deadline == self.slots[e.handle as int].deadline.nanos
                &&& self.slots[e.handle as int].state != TimerState::Fired
                &&& self.heap.contents().count(e) == 1
            }
        &&& forall|h: int|
            0 <= h < self.slots.len() && (#[trigger] self.slots[h]).state == TimerState::Pending
                ==> self.heap.contents().count(item_of(self.slots[h], h)) > 0
    }

    spec fn root_is_pending(&self) -> bool {
        forall|m: HeapItem| #[trigger]
            TimerHeap::is_least(m, self.heap.contents()) ==> self.slots[m.handle as int].state
                == TimerState::Pending
    }

    /// The wheel's invariant: the heap holds every pending timer once, under
    /// its own deadline, and a pending timer is at its root.
    pub closed spec fn wf(&self) -> bool {
        &&& self.wf_loose()
        &&& self.root_is_pending()
    }

    /// An empty wheel.
    pub fn new() -> (w: TimerWheel)
        ensures
            w.wf(),
            w.pending() == Map::<usize, Timer>::empty(),
            w.issued() == 0,
            w.backlog() == 0,
    {
        let w = TimerWheel { heap: TimerHeap::new(), slots: Vec::new() };
        assert(w.pending() =~= Map::<usize, Timer>::empty());
        w
    }

    /// Registers a timer that wakes `task` at `deadline`, and returns its
    /// handle.
    pub fn insert(&mut self, deadline: Instant, task: usize) -> (handle: usize)
        requires
            old(self).wf(),
        ensures
            final(self).wf(),
            handle == old(self).issued(),
            final(self).issued() == old(self).issued() + 1,
            final(self).pending() == old(self).pending().insert(handle, Timer { deadline, task }),
            final(self).backlog() == old(self).backlog() + 1,
    {
        let handle: usize = self.slots.len();
        let item = HeapItem { deadline: deadline.nanos, handle };
        self.slots.push(Slot { deadline, task, state: TimerState::Pending });
        self.heap.push(item);
        proof {
            let c0 = old(self).heap.contents();
            let c1 = self.heap.contents();
            assert(c0.count(item) == 0);
            assert forall|e: HeapItem| #[trigger] c1.count(e) > 0 implies {
                &&& e.handle < self.slots.len()
                &&& e.deadline == self.slots[e.handle as int].deadline.nanos
                &&& self.slots[e.handle as int].state != TimerState::Fired
                &&& c1.count(e) == 1
            } by {
                if e != item {
                    assert(c0.count(e) > 0);
                }
            }
            assert forall|h: int|
                0 <= h < self.slots.len() && (#[trigger] self.slots[h]).state
                    == TimerState::Pending implies c1.count(item_of(self.slots[h], h)) > 0 by {
                if h < handle {
                    assert(old(self).slots[h].state == TimerState::Pending);
                    assert(c0.count(item_of(old(self).slots[h], h)) > 0);
                }
            }
            assert forall|m: HeapItem| #[trigger] TimerHeap::is_least(m, c1) implies self.slots[m.handle as int].state
                == TimerState::Pending by {
                if m != item {
                    assert(c0.count(m) > 0);
                    assert(TimerHeap::is_least(m, c0)) by {
                        assert forall|e: HeapItem| #[trigger] c0.count(e) > 0 implies key_le(
                            m,
                            e,
                        ) by {
                            assert(c1.count(e) > 0);
                        }
                    }
                }
            }
            assert(self.pending() =~= old(self).pending().insert(
                handle,
                Timer { deadline, task },
            ));
        }
        handle
    }

    /// Drops tombstones from the heap's root until a pending timer is there,
    /// or nothing.
    fn purge(&mut self)
        requires
            old(self).wf_loose(),
        ensures
            final(self).wf(),
            final(self).slots@ == old(self).slots@,
            final(self).backlog() <= old(self).backlog(),
    {
        loop
            invariant
                self.wf_loose(),
                self.slots@ == old(self).slots@,
                self.backlog() <= old(self).backlog(),
            ensures
                self.wf(),
                self.slots@ == old(self).slots@,
                self.backlog() <= old(self).backlog(),
            decreases self.heap.contents().len(),
        {
            match self.heap.peek() {
                None => {
                    proof {
                        assert forall|m: HeapItem| #[trigger]
                            TimerHeap::is_least(m, self.heap.contents()) implies self.slots[m.handle as int].state
                            == TimerState::Pending by {
                            assert(self.heap.contents().count(m) > 0);
                            vstd::multiset::lemma_multiset_empty_len(self.heap.contents());
                        }
                    }
                    break ;
                },
                Some(top) => {
                    assert(self.heap.contents().count(top) > 0);
                    match self.slots[top.handle].state {
                        TimerState::Cancelled => {
                            let ghost c0 = self.heap.contents();
                            let popped = self.heap.pop();
                            proof {
                                let m = popped.unwrap();
                                assert(key_le(m, top) && key_le(top, m));
                                assert(m == top);
                                let c1 = self.heap.contents();
                                assert forall|e: HeapItem| #[trigger] c1.count(e) > 0 implies {
                                    &&& e.handle < self.slots.len()
                                    &&& e.deadline == self.slots[e.handle as int].deadline.nanos
                                    &&& self.slots[e.handle as int].state != TimerState::Fired
                                    &&& c1.count(e) == 1
                                } by {
                                    assert(c0.count(e) > 0);
                                }
                                assert forall|h: int|
                                    0 <= h < self.slots.len() && (#[trigger] self.slots[h]).state
                                        == TimerState::Pending implies c1.count(
                                    item_of(self.slots[h], h),
                                ) > 0 by {
                                    assert(c0.count(item_of(self.slots[h], h)) > 0);
                                }
                            }
                        },
                        _ => {
                            proof {
                                assert forall|m: HeapItem| #[trigger]
                                    TimerHeap::is_least(
                                        m,
                                        self.heap.contents(),
                                    ) implies self.slots[m.handle as int].state
                                    == TimerState::Pending by {
                                    assert(key_le(m, top) && key_le(top, m));
                                    assert(m == top);
                                }
                            }
                            break ;
                        },
                    }
                },
            }
        }
    }

    /// Cancels the timer `handle`. Returns whether it was pending; a timer
    /// that has fired, was cancelled before or was never registered is left
    /// as it is.
    pub fn cancel(&mut self, handle: usize) -> (was_pending: bool)
        requires
            old(self).wf(),
        ensures
            final(self).wf(),
            was_pending == old(self).pending().contains_key(handle),
            final(self).pending() == old(self).pending().remove(handle),
            final(self).issued() == old(self).issued(),
            final(self).backlog() <= old(self).backlog(),
    {
        if handle >= self.slots.len() {
            assert(self.pending() =~= old(self).pending().remove(handle));
            return false;
        }
        let slot = self.slots[handle];
        match slot.state {
            TimerState::Pending => {
                self.slots.set(
                    handle,
                    Slot { deadline: slot.deadline, task: slot.task, state: TimerState::Cancelled },
                );
                proof {
                    let c = self.heap.contents();
                    assert forall|e: HeapItem| #[trigger] c.count(e) > 0 implies {
                        &&& e.handle < self.slots.len()
                        &&& e.deadline == self.slots[e.handle as int].deadline.nanos
                        &&& self.slots[e.handle as int].state != TimerState::Fired
                        &&& c.count(e) == 1
                    } by {
                        assert(old(self).heap.contents().count(e) > 0);
                    }
                    assert forall|h: int|
                        0 <= h < self.slots.len() && (#[trigger] self.slots[h]).state
                            == TimerState::Pending implies c.count(item_of(self.slots[h], h))
                        > 0 by {
                        assert(old(self).slots[h].state == TimerState::Pending);
                    }
                }
                self.purge();
                assert(self.pending() =~= old(self).pending().remove(handle));
                true
            },
            _ => {
                assert(self.pending() =~= old(self).pending().remove(handle));
                false
            },
        }
    }

    /// The earliest deadline among the pending timers; `None` where no timer
    /// is pending.
    pub fn peek_earliest(&self) -> (r: Option<Instant>)
        requires
            self.wf(),
        ensures
            r == earliest_deadline(self.pending()),
            r.is_none() <==> self.pending() == Map::<usize, Timer>::empty(),
            r matches Some(t) ==> is_earliest(self.pending(), t),
    {
        match self.heap.peek() {
            None => {
                proof {
                    assert forall|h: usize| !self.pending().contains_key(h) by {
                        if self.pending().contains_key(h) {
                            assert(self.slots[h as int].state == TimerState::Pending);
                            assert(self.heap.contents().count(item_of(self.slots[h as int], h as int)) > 0);
                            vstd::multiset::lemma_multiset_empty_len(self.heap.contents());
                        }
                    }
                    assert(self.pending() =~= Map::<usize, Timer>::empty());
                }
                None
            },
            Some(m) => {
                let t = Instant { nanos: m.deadline };
                proof {
                    assert(self.heap.contents().count(m) > 0);
                    assert(self.pending().contains_key(m.handle));
                    assert(self.pending()[m.handle].deadline == t);
                    assert forall|h: usize| #[trigger]
                        self.pending().contains_key(h) implies t.nanos
                        <= self.pending()[h].deadline.nanos by {
                        assert(self.slots[h as int].state == TimerState::Pending);
                        let e = item_of(self.slots[h as int], h as int);
                        assert(self.heap.contents().count(e) > 0);
                        assert(key_le(m, e));
                    }
                    lemma_earliest_unique(self.pending(), t);
                }
                Some(t)
            },
        }
    }

    /// Takes out every timer whose deadline is `now` or earlier, and returns
    /// them in the order in which they fire.
    #[verifier::rlimit(50)]
    pub fn pop_ready(&mut self, now: Instant) -> (out: Vec<Expired>)
        requires
            old(self).wf(),
        ensures
            final(self).wf(),
            out@ == firing_order(old(self).pending(), now),
            is_firing_order(old(self).pending(), now, out@),
            final(self).pending() == old(self).pending().remove_keys(
                due(old(self).pending(), now),
            ),
            final(self).issued() == old(self).issued(),
            final(self).backlog() + out@.len() <= old(self).backlog(),
    {
        let mut out: Vec<Expired> = Vec::new();
        loop
            invariant
                old(self).wf(),
                self.wf_loose(),
                self.backlog() + out@.len() <= old(self).backlog(),
                self.slots.len() == old(self).slots.len(),
                forall|h: int|
                    0 <= h < self.slots.len() ==> {
                        &&& (#[trigger] self.slots[h]).deadline == old(self).slots[h].deadline
                        &&& self.slots[h].task == old(self).slots[h].task
                        &&& (self.slots[h].state == old(self).slots[h].state || (old(
                            self,
                        ).slots[h].state == TimerState::Pending && self.slots[h].state
                            == TimerState::Fired))
                    },
                forall|k: int|
                    0 <= k < out.len() ==> {
                        &&& (#[trigger] out[k]).handle < self.slots.len()
                        &&& old(self).slots[out[k].handle as int].state == TimerState::Pending
                        &&& self.slots[out[k].handle as int].state == TimerState::Fired
                        &&& out[k].deadline == self.slots[out[k].handle as int].deadline
                        &&& out[k].task == self.slots[out[k].handle as int].task
                        &&& out[k].deadline.nanos <= now.nanos
                    },
                forall|h: int|
                    0 <= h < self.slots.len() && (#[trigger] self.slots[h]).state
                        == TimerState::Fired && old(self).slots[h].state == TimerState::Pending
                        ==> exists|k: int| 0 <= k < out.len() && (#[trigger] out[k]).handle == h,
                forall|j: int, k: int| 0 <= j < k < out.len() ==> fires_before(out[j], out[k]),
                forall|k: int, e: HeapItem|
                    0 <= k < out.len() && #[trigger] self.heap.contents().count(e) > 0 ==> key_lt(
                        HeapItem {
                            deadline: (#[trigger] out[k]).deadline.nanos,
                            handle: out[k].handle,
                        },
                        e,
                    ),
            ensures
                forall|e: HeapItem| #[trigger]
                    self.heap.contents().count(e) > 0 ==> e.deadline > now.nanos,
            decreases self.heap.contents().len(),
        {
            match self.heap.peek() {
                None => {
                    proof {
                        vstd::multiset::lemma_multiset_empty_len(self.heap.contents());
                    }
                    break ;
                },
                Some(top) => {
                    if top.deadline > now.nanos {
                        proof {
                            assert forall|e: HeapItem| #[trigger]
                                self.heap.contents().count(e) > 0 implies e.deadline
                                > now.nanos by {
                                assert(key_le(top, e));
                            }
                        }
                        break ;
                    }
                    let ghost c0 = self.heap.contents();
                    let ghost slots0 = self.slots@;
                    let ghost out0 = out@;
                    assert(c0.count(top) > 0);
                    let popped = self.heap.pop();
                    proof {
                        let m = popped.unwrap();
                        assert(key_le(m, top) && key_le(top, m));
                        assert(m == top);
                    }
                    let slot = self.slots[top.handle];
                    match slot.state {
                        TimerState::Pending => {
                            self.slots.set(
                                top.handle,
                                Slot {
                                    deadline: slot.deadline,
                                    task: slot.task,
                                    state: TimerState::Fired,
                                },
                            );
                            let fired = Expired {
                                handle: top.handle,
                                deadline: slot.deadline,
                                task: slot.task,
                            };
                            out.push(fired);
                            proof {
                                let c1 = self.heap.contents();
                                assert forall|e: HeapItem| #[trigger] c1.count(e) > 0 implies {
                                    &&& e.handle < self.slots.len()
                                    &&& e.deadline == self.slots[e.handle as int].deadline.nanos
                                    &&& self.slots[e.handle as int].state != TimerState::Fired
                                    &&& c1.count(e) == 1
                                } by {
                                    assert(c0.count(e) > 0);
                                    if e.handle == top.handle {
                                        assert(e == top);
                                    }
                                }
                                assert forall|h: int|
                                    0 <= h < self.slots.len() && (#[trigger] self.slots[h]).state
                                        == TimerState::Pending implies c1.count(
                                    item_of(self.slots[h], h),
                                ) > 0 by {
                                    assert(slots0[h].state == TimerState::Pending);
                                    assert(c0.count(item_of(slots0[h], h)) > 0);
                                }
                                assert forall|k: int| 0 <= k < out.len() implies {
                                    &&& (#[trigger] out[k]).handle < self.slots.len()
                                    &&& old(self).slots[out[k].handle as int].state
                                        == TimerState::Pending
                                    &&& self.slots[out[k].handle as int].state
                                        == TimerState::Fired
                                    &&& out[k].deadline
                                        == self.slots[out[k].handle as int].deadline
                                    &&& out[k].task == self.slots[out[k].handle as int].task
                                    &&& out[k].deadline.nanos <= now.nanos
                                } by {
                                    if k < out0.len() {
                                        assert(out[k] == out0[k]);
                                    } else {
                                        assert(out[k] == fired);
                                        assert(slots0[top.handle as int].state
                                            == TimerState::Pending);
                                    }
                                }
                                assert forall|h: int|
                                    0 <= h < self.slots.len() && (#[trigger] self.slots[h]).state
                                        == TimerState::Fired && old(self).slots[h].state
                                        == TimerState::Pending implies exists|k: int|
                                    0 <= k < out.len() && (#[trigger] out[k]).handle == h by {
                                    if h == top.handle {
                                        assert(out[out.len() - 1].handle == h);
                                    } else {
                                        assert(slots0[h].state == TimerState::Fired);
                                        let k = choose|k: int|
                                            0 <= k < out0.len() && (#[trigger] out0[k]).handle == h;
                                        assert(out[k].handle == h);
                                    }
                                }
                                assert forall|j: int, k: int|
                                    0 <= j < k < out.len() implies fires_before(out[j], out[k]) by {
                                    if k < out0.len() {
                                        assert(out[j] == out0[j] && out[k] == out0[k]);
                                    } else {
                                        assert(out[j] == out0[j]);
                                        assert(key_lt(
                                            HeapItem {
                                                deadline: out0[j].deadline.nanos,
                                                handle: out0[j].handle,
                                            },
                                            top,
                                        ));
                                    }
                                }
                                assert forall|k: int, e: HeapItem|
                                    0 <= k < out.len() && #[trigger] c1.count(e) > 0 implies key_lt(
                                    HeapItem {
                                        deadline: (#[trigger] out[k]).deadline.nanos,
                                        handle: out[k].handle,
                                    },
                                    e,
                                ) by {
                                    assert(c0.count(e) > 0);
                                    if k < out0.len() {
                                        assert(out[k] == out0[k]);
                                    } else {
                                        assert(key_le(top, e));
                                        assert(e != top);
                                    }
                                }
                            }
                        },
                        _ => {
                            proof {
                                let c1 = self.heap.contents();
                                assert forall|e: HeapItem| #[trigger] c1.count(e) > 0 implies {
                                    &&& e.handle < self.slots.len()
                                    &&& e.deadline == self.slots[e.handle as int].deadline.nanos
                                    &&& self.slots[e.handle as int].state != TimerState::Fired
                                    &&& c1.count(e) == 1
                                } by {
                                    assert(c0.count(e) > 0);
                                }
                                assert forall|h: int|
                                    0 <= h < self.slots.len() && (#[trigger] self.slots[h]).state
                                        == TimerState::Pending implies c1.count(
                                    item_of(self.slots[h], h),
                                ) > 0 by {
                                    assert(c0.count(item_of(slots0[h], h)) > 0);
                                }
                                assert forall|k: int, e: HeapItem|
                                    0 <= k < out.len() && #[trigger] c1.count(e) > 0 implies key_lt(
                                    HeapItem {
                                        deadline: (#[trigger] out[k]).deadline.nanos,
                                        handle: out[k].handle,
                                    },
                                    e,
                                ) by {
                                    assert(c0.count(e) > 0);
                                }
                            }
                        },
                    }
                },
            }
        }
        proof {
            // What is still pending waits in the heap, where nothing is due.
            assert forall|h: int|
                0 <= h < self.slots.len() && (#[trigger] self.slots[h]).state
                    == TimerState::Pending implies self.slots[h].deadline.nanos > now.nanos by {
                assert(self.heap.contents().count(item_of(self.slots[h], h)) > 0);
            }
        }
        self.purge();
        proof {
            let m = old(self).pending();
            assert forall|h: usize|
                #[trigger] m.contains_key(h) && m[h].deadline.nanos <= now.nanos implies exists|
                k: int,
            |
                0 <= k < out@.len() && (#[trigger] out@[k]).handle == h by {
                assert(self.slots[h as int].state == TimerState::Fired);
            }
            assert(self.pending() =~= m.remove_keys(due(m, now)));
            lemma_firing_order_is(m, now, out@);
        }
        out
    }
}

} // verus!
