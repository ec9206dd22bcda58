//! Putting results that complete in any order back into the order of their
//! indices.

use vstd::prelude::*;

verus! {

/// A value and the position at which it is due.
#[derive(Debug)]
pub struct Item<T> {
    pub index: usize,
    pub value: T,
}

impl<T> Item<T> {
    /// The item that carries `pair.1` at position `pair.0`.
    pub fn from(pair: (usize, T)) -> (item: Item<T>)
        ensures
            item.index == pair.0,
            item.value == pair.1,
    {
        Item { index: pair.0, value: pair.1 }
    }
}

/// What an [`Orderer`] holds: the items that wait, in the order in which
/// they came, and the index that is due next.
pub ghost struct OrdererView<T> {
    pub pending: Seq<Item<T>>,
    pub current: usize,
}

/// Whether `index` is the lowest index among `pending`.
pub open spec fn lowest_is<T>(pending: Seq<Item<T>>, index: usize) -> bool {
    &&& exists|i: int| 0 <= i < pending.len() && (#[trigger] pending[i]).index == index
    &&& forall|i: int| 0 <= i < pending.len() ==> (#[trigger] pending[i]).index >= index
}

/// The values of the items of `pending` that are due at `current`, in the
/// order in which they came.
pub open spec fn due_values<T>(pending: Seq<Item<T>>, current: usize) -> Seq<T>
    decreases pending.len(),
{
    if pending.len() == 0 {
        Seq::empty()
    } else if pending.last().index == current {
        due_values(pending.drop_last(), current).push(pending.last().value)
    } else {
        due_values(pending.drop_last(), current)
    }
}

/// The items of `pending` that are not due at `current`, in the order in
/// which they came.
pub open spec fn later<T>(pending: Seq<Item<T>>, current: usize) -> Seq<Item<T>>
    decreases pending.len(),
{
    if pending.len() == 0 {
        Seq::empty()
    } else if pending.last().index == current {
        later(pending.drop_last(), current)
    } else {
        later(pending.drop_last(), current).push(pending.last())
    }
}

/// The index after `current`; after the last one, counting starts again.
pub open spec fn next_index(current: usize) -> usize {
    if current == usize::MAX {
        0
    } else {
        (current + 1) as usize
    }
}

/// What stays behind is never longer than what was there, and shorter where
/// something was due.
pub proof fn lemma_later_shorter<T>(pending: Seq<Item<T>>, current: usize)
    ensures
        later(pending, current).len() <= pending.len(),
        (exists|i: int| 0 <= i < pending.len() && (#[trigger] pending[i]).index == current)
            ==> later(pending, current).len() < pending.len(),
    decreases pending.len(),
{
    if pending.len() > 0 {
        let head = pending.drop_last();
        lemma_later_shorter(head, current);
        if pending.last().index != current {
            if exists|i: int| 0 <= i < pending.len() && (#[trigger] pending[i]).index == current {
                let i = choose|i: int|
                    0 <= i < pending.len() && (#[trigger] pending[i]).index == current;
                assert(head[i].index == current);
            }
        }
    }
}

/// Hands out everything that is due: while the lowest waiting index is the
/// current one, the items at that index leave and the next index becomes
/// current. Gives the state that is left and the values in the order in
/// which they left.
pub open spec fn drained<T>(v: OrdererView<T>) -> (OrdererView<T>, Seq<T>)
    decreases v.pending.len(),
{
    if lowest_is(v.pending, v.current) {
        proof {
            lemma_later_shorter(v.pending, v.current);
        }
        let rest = drained(
            OrdererView {
                pending: later(v.pending, v.current),
                current: next_index(v.current),
            },
        );
        (rest.0, due_values(v.pending, v.current) + rest.1)
    } else {
        (v, Seq::empty())
    }
}

/// What one more item does: it joins those that wait, then everything that
/// is due is handed out.
pub open spec fn pushed<T>(v: OrdererView<T>, item: Item<T>) -> (OrdererView<T>, Seq<T>) {
    drained(OrdererView { pending: v.pending.push(item), current: v.current })
}

/// Holds back what came early until everything before it has come.
pub struct Orderer<T> {
    heap: Vec<Item<T>>,
    current: usize,
}

impl<T> View for Orderer<T> {
    type V = OrdererView<T>;

    closed spec fn view(&self) -> OrdererView<T> {
        OrdererView { pending: self.heap@, current: self.current }
    }
}

impl<T> Orderer<T> {
    /// Nothing waits, and index 0 is due.
    pub fn new() -> (o: Orderer<T>)
        ensures
            o@.pending.len() == 0,
            o@.current == 0,
    {
        Orderer { heap: Vec::new(), current: 0 }
    }

    /// The index that is due next.
    pub fn current(&self) -> (c: usize)
        ensures
            c == self@.current,
    {
        self.current
    }

    /// How many items wait.
    pub fn pending(&self) -> (n: usize)
        ensures
            n == self@.pending.len(),
    {
        self.heap.len()
    }

    /// Whether the lowest waiting index is the one that is due.
    pub fn can_pop(&self) -> (b: bool)
        ensures
            b == lowest_is(self@.pending, self@.current),
    {
        let mut found = false;
        let mut i: usize = 0;
        while i < self.heap.len()
            invariant
                i <= self.heap.len(),
                forall|k: int| 0 <= k < i ==> (#[trigger] self.heap@[k]).index >= self.current,
                found == exists|k: int| 0 <= k < i && (#[trigger] self.heap@[k]).index == self.current,
            decreases self.heap.len() - i,
        {
            if self.heap[i].index < self.current {
                return false;
            }
            if self.heap[i].index == self.current {
                found = true;
            }
            i += 1;
        }
        found
    }

    /// Takes `item` in and hands out, in order, every value that is due now:
    /// the values at the current index, then those at the next one, and so
    /// on, for as long as the lowest waiting index is the current one.
    pub fn push(&mut self, item: Item<T>) -> (out: Vec<T>)
        ensures
            (final(self)@, out@) == pushed(old(self)@, item),
    {
        self.heap.push(item);
        let ghost target = drained(self@);
        let mut out: Vec<T> = Vec::new();
        assert(out@ + target.1 =~= target.1);
        while self.can_pop()
            invariant
                drained(self@).0 == target.0,
                out@ + drained(self@).1 == target.1,
            decreases self.heap.len(),
        {
            let ghost before = self@;
            let ghost emitted = out@;
            let ghost mut k: int = 0;
            let mut i: usize = 0;
            while i < self.heap.len()
                invariant
                    0 <= k <= before.pending.len(),
                    self.current == before.current,
                    i == later(before.pending.take(k), before.current).len(),
                    self.heap@ == later(before.pending.take(k), before.current)
                        + before.pending.skip(k),
                    out@ == emitted + due_values(before.pending.take(k), before.current),
                decreases before.pending.len() - k,
            {
                proof {
                    assert(before.pending.take(k + 1).drop_last() =~= before.pending.take(k));
                    assert(before.pending.take(k + 1).last() == before.pending[k]);
                    assert(before.pending.skip(k)[0] == before.pending[k]);
                    assert(before.pending.skip(k).skip(1) =~= before.pending.skip(k + 1));
                }
                if self.heap[i].index == self.current {
                    let item = self.heap.remove(i);
                    out.push(item.value);
                    proof {
                        let kept = later(before.pending.take(k), before.current);
                        assert(self.heap@ =~= kept + before.pending.skip(k + 1));
                        assert(out@ =~= emitted + due_values(
                            before.pending.take(k + 1),
                            before.current,
                        ));
                    }
                } else {
                    proof {
                        let kept = later(before.pending.take(k), before.current);
                        assert(self.heap@ =~= kept.push(before.pending[k]) + before.pending.skip(
                            k + 1,
                        ));
                    }
                    i += 1;
                }
                proof {
                    k = k + 1;
                }
            }
            proof {
                lemma_later_shorter(before.pending, before.current);
                assert(k == before.pending.len()) by {
                    lemma_later_shorter(before.pending.take(k), before.current);
                    if k < before.pending.len() {
                        assert(self.heap@.len() == i + before.pending.skip(k).len());
                    }
                }
                assert(before.pending.take(k) =~= before.pending);
                assert(before.pending.skip(k) =~= Seq::empty());
                assert(self.heap@ =~= later(before.pending, before.current));
            }
            self.current = if self.current == usize::MAX {
                0
            } else {
                self.current + 1
            };
            proof {
                let rest = drained(self@);
                assert(drained(before) == (rest.0, due_values(before.pending, before.current)
                    + rest.1));
                assert(out@ + rest.1 =~= emitted + (due_values(before.pending, before.current)
                    + rest.1));
            }
        }
        proof {
            assert(drained(self@) == (self@, Seq::<T>::empty()));
            assert(out@ + Seq::<T>::empty() =~= out@);
        }
        out
    }
}

// ---------------------------------------------------------------------------
// The order of what comes out
// ---------------------------------------------------------------------------

/// What a fresh orderer holds and has handed out after `items` were pushed
/// one by one.
pub open spec fn run<T>(items: Seq<Item<T>>) -> (OrdererView<T>, Seq<T>)
    decreases items.len(),
{
    if items.len() == 0 {
        (OrdererView { pending: Seq::empty(), current: 0 }, Seq::empty())
    } else {
        let before = run(items.drop_last());
        let step = pushed(before.0, items.last());
        (step.0, before.1 + step.1)
    }
}

/// No two items of `s` have the same index.
pub open spec fn distinct_indices<T>(s: Seq<Item<T>>) -> bool {
    forall|i: int, j: int|
        0 <= i < s.len() && 0 <= j < s.len() && i != j ==> (#[trigger] s[i]).index != (
        #[trigger] s[j]).index
}

/// One of the items of `s` has the index `k`.
pub open spec fn has_index<T>(s: Seq<Item<T>>, k: int) -> bool {
    exists|j: int| 0 <= j < s.len() && (#[trigger] s[j]).index == k
}

/// The indices of `items` are the numbers below their count, each once.
pub open spec fn each_index_once<T>(items: Seq<Item<T>>) -> bool {
    &&& distinct_indices(items)
    &&& forall|i: int| 0 <= i < items.len() ==> (#[trigger] items[i]).index < items.len()
    &&& forall|k: int| 0 <= k < items.len() ==> has_index(items, k)
}

/// What stays behind is what was not due, and stays distinct.
proof fn lemma_later_holds<T>(pending: Seq<Item<T>>, current: usize)
    ensures
        forall|j: int|
            0 <= j < later(pending, current).len() ==> pending.contains(
                #[trigger] later(pending, current)[j],
            ) && later(pending, current)[j].index != current,
        forall|j: int|
            0 <= j < pending.len() && (#[trigger] pending[j]).index != current ==> later(
                pending,
                current,
            ).contains(pending[j]),
        distinct_indices(pending) ==> distinct_indices(later(pending, current)),
    decreases pending.len(),
{
    if pending.len() > 0 {
        let head = pending.drop_last();
        let last = pending.last();
        lemma_later_holds(head, current);
        let l = later(pending, current);
        let lh = later(head, current);
        assert forall|j: int| 0 <= j < l.len() implies pending.contains(#[trigger] l[j])
            && l[j].index != current by {
            if j < lh.len() {
                assert(l[j] == lh[j]);
                assert(head.contains(lh[j]));
                let i = choose|i: int| 0 <= i < head.len() && head[i] == lh[j];
                assert(pending[i] == l[j]);
            } else {
                assert(l[j] == last);
                assert(pending[pending.len() - 1] == last);
            }
        }
        assert forall|j: int|
            0 <= j < pending.len() && (#[trigger] pending[j]).index != current implies l.contains(
            pending[j],
        ) by {
            if j < head.len() {
                assert(head[j] == pending[j]);
                assert(lh.contains(head[j]));
                let i = choose|i: int| 0 <= i < lh.len() && lh[i] == head[j];
                assert(l[i] == pending[j]);
            } else {
                assert(l[l.len() - 1] == pending[j]);
            }
        }
        if distinct_indices(pending) {
            assert(distinct_indices(head)) by {
                assert forall|i: int, j: int|
                    0 <= i < head.len() && 0 <= j < head.len() && i != j implies (
                #[trigger] head[i]).index != (#[trigger] head[j]).index by {
                    assert(pending[i] == head[i] && pending[j] == head[j]);
                }
            }
            assert forall|i: int, j: int|
                0 <= i < l.len() && 0 <= j < l.len() && i != j implies (#[trigger] l[i]).index != (
            #[trigger] l[j]).index by {
                if i < lh.len() && j < lh.len() {
                    assert(l[i] == lh[i] && l[j] == lh[j]);
                } else {
                    let other = if i < lh.len() {
                        i
                    } else {
                        j
                    };
                    assert(l[other] == lh[other]);
                    assert(head.contains(lh[other]));
                    let h = choose|h: int| 0 <= h < head.len() && head[h] == lh[other];
                    assert(pending[h] == lh[other]);
                    assert(pending[pending.len() - 1] == last);
                }
            }
        }
    }
}

/// Among distinct indices one item at most is due.
proof fn lemma_due_single<T>(pending: Seq<Item<T>>, current: usize, j: int)
    requires
        distinct_indices(pending),
        0 <= j < pending.len(),
        pending[j].index == current,
    ensures
        due_values(pending, current) == seq![pending[j].value],
    decreases pending.len(),
{
    let head = pending.drop_last();
    assert(distinct_indices(head)) by {
        assert forall|a: int, b: int|
            0 <= a < head.len() && 0 <= b < head.len() && a != b implies (#[trigger] head[a]).index
            != (#[trigger] head[b]).index by {
            assert(pending[a] == head[a] && pending[b] == head[b]);
        }
    }
    if j == pending.len() - 1 {
        assert forall|i: int| 0 <= i < head.len() implies (#[trigger] head[i]).index
            != current by {
            assert(pending[i] == head[i]);
        }
        lemma_due_none(head, current);
        assert(due_values(pending, current) =~= seq![pending[j].value]);
    } else {
        assert(head[j] == pending[j]);
        lemma_due_single(head, current, j);
        assert(pending[pending.len() - 1].index != pending[j].index);
    }
}

/// Where no item has the current index, nothing is due.
proof fn lemma_due_none<T>(pending: Seq<Item<T>>, current: usize)
    requires
        forall|i: int| 0 <= i < pending.len() ==> (#[trigger] pending[i]).index != current,
    ensures
        due_values(pending, current) == Seq::<T>::empty(),
    decreases pending.len(),
{
    if pending.len() > 0 {
        let head = pending.drop_last();
        assert forall|i: int| 0 <= i < head.len() implies (#[trigger] head[i]).index
            != current by {
            assert(pending[i] == head[i]);
        }
        lemma_due_none(head, current);
        assert(pending[pending.len() - 1].index != current);
    }
}


/// What draining `v` into `w` with the output `e` has to look like where
/// the indices that wait are distinct and none lies before the current one.
spec fn drained_in_order<T>(v: OrdererView<T>, w: OrdererView<T>, e: Seq<T>) -> bool {
    &&& w.current >= v.current
    &&& e.len() == w.current - v.current
    &&& forall|j: int|
        0 <= j < v.pending.len() && (#[trigger] v.pending[j]).index < w.current ==> e[v.pending[j].index
            - v.current] == v.pending[j].value
    &&& forall|k: int| v.current <= k < w.current ==> has_index(v.pending, k)
    &&& forall|j: int| 0 <= j < w.pending.len() ==> (#[trigger] w.pending[j]).index > w.current
    &&& forall|j: int|
        0 <= j < v.pending.len() && (#[trigger] v.pending[j]).index >= w.current
            ==> w.pending.contains(v.pending[j])
    &&& forall|j: int| 0 <= j < w.pending.len() ==> v.pending.contains(#[trigger] w.pending[j])
    &&& distinct_indices(w.pending)
}

/// Draining hands out the waiting items index by index, for as long as no
/// index is missing; `bound` lies above every index.
proof fn lemma_drained<T>(v: OrdererView<T>, bound: int)
    requires
        distinct_indices(v.pending),
        forall|j: int|
            0 <= j < v.pending.len() ==> v.current <= (#[trigger] v.pending[j]).index < bound,
        v.current <= bound <= usize::MAX,
    ensures
        drained_in_order(v, drained(v).0, drained(v).1),
        drained(v).0.current <= bound,
    decreases v.pending.len(),
{
    let p = v.pending;
    let c = v.current;
    if lowest_is(p, c) {
        let j0 = choose|j: int| 0 <= j < p.len() && (#[trigger] p[j]).index == c;
        lemma_later_shorter(p, c);
        lemma_later_holds(p, c);
        lemma_due_single(p, c, j0);
        let l = later(p, c);
        let v1 = OrdererView { pending: l, current: next_index(c) };
        assert(v1.current == c + 1);
        assert forall|j: int| 0 <= j < l.len() implies v1.current <= (#[trigger] l[j]).index
            < bound by {
            assert(p.contains(l[j]));
            let i = choose|i: int| 0 <= i < p.len() && p[i] == l[j];
            assert(c <= p[i].index < bound);
        }
        lemma_drained(v1, bound);
        let w = drained(v1).0;
        let e1 = drained(v1).1;
        let e = seq![p[j0].value] + e1;
        assert(drained(v) == (w, e));
        assert forall|j: int| 0 <= j < p.len() && (#[trigger] p[j]).index < w.current implies e[p[j].index
            - c] == p[j].value by {
            if p[j].index == c {
                assert(j == j0);
            } else {
                assert(l.contains(p[j]));
                let i = choose|i: int| 0 <= i < l.len() && l[i] == p[j];
                assert(e1[l[i].index - v1.current] == l[i].value);
                assert(e[p[j].index - c] == e1[p[j].index - c - 1]);
            }
        }
        assert forall|k: int| c <= k < w.current implies has_index(p, k) by {
            if k == c {
                assert(p[j0].index == k);
            } else {
                assert(has_index(l, k));
                let i = choose|i: int| 0 <= i < l.len() && (#[trigger] l[i]).index == k;
                assert(p.contains(l[i]));
                let h = choose|h: int| 0 <= h < p.len() && p[h] == l[i];
                assert(p[h].index == k);
            }
        }
        assert forall|j: int|
            0 <= j < p.len() && (#[trigger] p[j]).index >= w.current implies w.pending.contains(
            p[j],
        ) by {
            assert(l.contains(p[j]));
            let i = choose|i: int| 0 <= i < l.len() && l[i] == p[j];
            assert(l[i].index >= w.current);
        }
        assert forall|j: int| 0 <= j < w.pending.len() implies p.contains(
            #[trigger] w.pending[j],
        ) by {
            assert(l.contains(w.pending[j]));
            let i = choose|i: int| 0 <= i < l.len() && l[i] == w.pending[j];
            assert(p.contains(l[i]));
        }
    } else {
        assert forall|j: int| 0 <= j < p.len() implies (#[trigger] p[j]).index > c by {
            if p[j].index == c {
                assert(lowest_is(p, c));
            }
        }
        assert forall|j: int| 0 <= j < p.len() implies p.contains(#[trigger] p[j]) by {}
    }
}

/// What has been handed out is a beginning of the input, in order: `out`
/// holds one value for each index below the current one, the value with
/// index `k` at place `k`, and every such index has come; everything else
/// that has come waits, with an index above the current one.
pub open spec fn in_order<T>(p: Seq<Item<T>>, st: OrdererView<T>, out: Seq<T>) -> bool {
    &&& out.len() == st.current
    &&& forall|i: int|
        0 <= i < p.len() && (#[trigger] p[i]).index < st.current ==> out[p[i].index as int]
            == p[i].value
    &&& forall|k: int| 0 <= k < st.current ==> has_index(p, k)
    &&& forall|j: int| 0 <= j < st.pending.len() ==> (#[trigger] st.pending[j]).index > st.current
    &&& forall|i: int|
        0 <= i < p.len() && (#[trigger] p[i]).index >= st.current ==> st.pending.contains(p[i])
    &&& forall|j: int| 0 <= j < st.pending.len() ==> p.contains(#[trigger] st.pending[j])
    &&& distinct_indices(st.pending)
}

/// Every index of `items` lies below the largest number there is, so that
/// the index after it can be counted.
pub open spec fn indices_bounded<T>(items: Seq<Item<T>>) -> bool {
    forall|i: int| 0 <= i < items.len() ==> (#[trigger] items[i]).index < usize::MAX
}

/// Nothing leaves before everything below it has left. Let `items` have
/// distinct indices, with or without gaps, and let them be pushed into a
/// fresh orderer one after the other, in any order. Then what was handed
/// out so far is one value for each of the indices `0`, .. below the current
/// one, in that order, and everything else waits. As every beginning of
/// `items` has distinct indices too, this holds after every single push.
pub proof fn lemma_output_is_a_beginning<T>(items: Seq<Item<T>>)
    requires
        distinct_indices(items),
        indices_bounded(items),
    ensures
        in_order(items, run(items).0, run(items).1),
    decreases items.len(),
{
    if items.len() > 0 {
        let m = items.len() as int;
        let p = items.drop_last();
        let q = items;
        let x = items.last();
        assert(distinct_indices(p) && indices_bounded(p)) by {
            assert forall|a: int, b: int|
                0 <= a < p.len() && 0 <= b < p.len() && a != b implies (#[trigger] p[a]).index != (
            #[trigger] p[b]).index by {
                assert(p[a] == items[a] && p[b] == items[b]);
            }
            assert forall|a: int| 0 <= a < p.len() implies (#[trigger] p[a]).index
                < usize::MAX by {
                assert(p[a] == items[a]);
            }
        }
        lemma_output_is_a_beginning(p);
        let st = run(p).0;
        let out = run(p).1;
        let v = OrdererView { pending: st.pending.push(x), current: st.current };
        let pp = v.pending;
        assert forall|i: int| 0 <= i < p.len() implies (#[trigger] p[i]).index != x.index by {
            assert(p[i] == items[i]);
            assert(items[m - 1] == x);
        }
        assert(x.index >= st.current) by {
            if x.index < st.current {
                assert(has_index(p, x.index as int));
            }
        }
        assert forall|j: int| 0 <= j < pp.len() implies st.current <= (#[trigger] pp[j]).index
            < usize::MAX by {
            if j < st.pending.len() {
                assert(pp[j] == st.pending[j]);
                assert(p.contains(st.pending[j]));
                let i = choose|i: int| 0 <= i < p.len() && p[i] == st.pending[j];
                assert(p[i] == items[i]);
            } else {
                assert(pp[j] == items[m - 1]);
            }
        }
        assert(distinct_indices(pp)) by {
            assert forall|a: int, b: int|
                0 <= a < pp.len() && 0 <= b < pp.len() && a != b implies (#[trigger] pp[a]).index
                != (#[trigger] pp[b]).index by {
                if a < st.pending.len() && b < st.pending.len() {
                    assert(pp[a] == st.pending[a] && pp[b] == st.pending[b]);
                } else {
                    let other = if a < st.pending.len() {
                        a
                    } else {
                        b
                    };
                    assert(pp[other] == st.pending[other]);
                    assert(p.contains(st.pending[other]));
                    let i = choose|i: int| 0 <= i < p.len() && p[i] == st.pending[other];
                    assert(p[i].index != x.index);
                }
            }
        }
        lemma_drained(v, usize::MAX as int);
        let w = drained(v).0;
        let e = drained(v).1;
        assert(run(q) == (w, out + e));
        let total = out + e;
        assert forall|i: int| 0 <= i < q.len() implies pp.contains(#[trigger] q[i]) || q[i].index
            < st.current by {
            if i < p.len() {
                assert(q[i] == p[i]);
                if p[i].index >= st.current {
                    assert(st.pending.contains(p[i]));
                    let j = choose|j: int| 0 <= j < st.pending.len() && st.pending[j] == p[i];
                    assert(pp[j] == q[i]);
                }
            } else {
                assert(pp[pp.len() - 1] == q[i]);
            }
        }
        assert forall|j: int| 0 <= j < pp.len() implies q.contains(#[trigger] pp[j]) by {
            if j < st.pending.len() {
                assert(pp[j] == st.pending[j]);
                assert(p.contains(st.pending[j]));
                let i = choose|i: int| 0 <= i < p.len() && p[i] == st.pending[j];
                assert(q[i] == pp[j]);
            } else {
                assert(q[m - 1] == pp[j]);
            }
        }
        assert forall|i: int| 0 <= i < q.len() && (#[trigger] q[i]).index < w.current implies total[q[i].index as int]
            == q[i].value by {
            if q[i].index < st.current {
                assert(i < p.len());
                assert(q[i] == p[i]);
            } else {
                assert(pp.contains(q[i]));
                let j = choose|j: int| 0 <= j < pp.len() && pp[j] == q[i];
                assert(e[pp[j].index - st.current] == pp[j].value);
            }
        }
        assert forall|k: int| 0 <= k < w.current implies has_index(q, k) by {
            if k < st.current {
                assert(has_index(p, k));
                let i = choose|i: int| 0 <= i < p.len() && (#[trigger] p[i]).index == k;
                assert(q[i] == p[i]);
            } else {
                assert(has_index(pp, k));
                let j = choose|j: int| 0 <= j < pp.len() && (#[trigger] pp[j]).index == k;
                assert(q.contains(pp[j]));
                let i = choose|i: int| 0 <= i < q.len() && q[i] == pp[j];
                assert(q[i].index == k);
            }
        }
        assert forall|i: int|
            0 <= i < q.len() && (#[trigger] q[i]).index >= w.current implies w.pending.contains(
            q[i],
        ) by {
            assert(pp.contains(q[i]));
            let j = choose|j: int| 0 <= j < pp.len() && pp[j] == q[i];
            assert(pp[j].index >= w.current);
        }
        assert forall|j: int| 0 <= j < w.pending.len() implies q.contains(
            #[trigger] w.pending[j],
        ) by {
            assert(pp.contains(w.pending[j]));
            let i = choose|i: int| 0 <= i < pp.len() && pp[i] == w.pending[j];
            assert(q.contains(pp[i]));
        }
    }
}

/// Whatever the order in which the results come, they leave in the order of
/// their indices. Let `items` hold each of the indices `0`, `1`, .. below
/// their count once, in any order, and let them be pushed into a fresh
/// orderer one after the other. Then what was handed out, taken together, is
/// one value for each item, the value with index `k` at place `k`, and
/// nothing is left waiting.
pub proof fn lemma_output_follows_indices<T>(items: Seq<Item<T>>)
    requires
        each_index_once(items),
        items.len() <= usize::MAX,
    ensures
        run(items).1.len() == items.len(),
        forall|i: int|
            0 <= i < items.len() ==> run(items).1[(#[trigger] items[i]).index as int]
                == items[i].value,
        run(items).0.pending.len() == 0,
        run(items).0.current == items.len(),
{
    let n = items.len() as int;
    lemma_output_is_a_beginning(items);
    let st = run(items).0;
    if st.current > n {
        assert(has_index(items, n));
        let i = choose|i: int| 0 <= i < items.len() && (#[trigger] items[i]).index == n;
        assert(items[i].index < n);
    }
    let out = run(items).1;
    if st.current < n {
        assert(has_index(items, st.current as int));
        let i = choose|i: int| 0 <= i < items.len() && (#[trigger] items[i]).index == st.current;
        assert(st.pending.contains(items[i]));
    }
    if st.pending.len() > 0 {
        assert(items.contains(st.pending[0]));
        let i = choose|i: int| 0 <= i < items.len() && items[i] == st.pending[0];
        assert(items[i].index < n);
    }
}


} // verus!
