//! The restart scheduler: pending start attempts, earliest first.
//!
//! An entry names a slot of the process table and the time before which the
//! slot's process must not be started. Entries of equal time stay in the order
//! in which they were inserted.

use vstd::prelude::*;

verus! {

/// A pending start attempt: the slot, and the time before which it must
/// not be made.
#[derive(Clone, Copy, Debug, PartialEq, Eq, Structural)]
pub struct QueueEntry {
    pub time: i64,
    pub slot: usize,
}

/// The pending start attempts, earliest first.
pub struct Scheduler {
    entries: Vec<QueueEntry>,
}

/// No entry comes before an earlier one.
pub open spec fn sorted(q: Seq<QueueEntry>) -> bool {
    forall|i: int, j: int| 0 <= i < j < q.len() ==> q[i].time <= q[j].time
}

/// No slot is queued twice.
pub open spec fn distinct(q: Seq<QueueEntry>) -> bool {
    forall|i: int, j: int| 0 <= i < q.len() && 0 <= j < q.len() && q[i].slot == q[j].slot ==> i == j
}

/// Whether `slot` is queued.
pub open spec fn queued(q: Seq<QueueEntry>, slot: usize) -> bool {
    exists|k: int| 0 <= k < q.len() && #[trigger] q[k].slot == slot
}

/// Where `slot` stands in the queue, if it is queued.
pub open spec fn position(q: Seq<QueueEntry>, slot: usize) -> int {
    choose|k: int| 0 <= k < q.len() && #[trigger] q[k].slot == slot
}

/// The first position at or after `from` whose entry is later than `time`.
pub open spec fn first_later(q: Seq<QueueEntry>, time: i64, from: int) -> int
    decreases q.len() - from,
{
    if 0 <= from < q.len() && q[from].time <= time {
        first_later(q, time, from + 1)
    } else {
        from
    }
}

/// The queue with `e` put behind every entry that is not later than it.
pub open spec fn with_entry(q: Seq<QueueEntry>, e: QueueEntry) -> Seq<QueueEntry> {
    q.insert(first_later(q, e.time, 0), e)
}

/// The queue without the entry of `slot`.
pub open spec fn without(q: Seq<QueueEntry>, slot: usize) -> Seq<QueueEntry> {
    if queued(q, slot) {
        q.remove(position(q, slot))
    } else {
        q
    }
}

/// The time for which `slot` is queued.
pub open spec fn time_of(q: Seq<QueueEntry>, slot: usize) -> Option<i64> {
    if queued(q, slot) {
        Some(q[position(q, slot)].time)
    } else {
        None
    }
}

/// What `first_later` finds: every entry before it is not later than
/// `time`, and the entry at it, if there is one, is.
pub proof fn lemma_first_later(q: Seq<QueueEntry>, time: i64, from: int)
    requires
        0 <= from <= q.len(),
    ensures
        from <= first_later(q, time, from) <= q.len(),
        forall|k: int| from <= k < first_later(q, time, from) ==> (#[trigger] q[k]).time <= time,
        first_later(q, time, from) < q.len() ==> q[first_later(q, time, from)].time > time,
    decreases q.len() - from,
{
    if from < q.len() && q[from].time <= time {
        lemma_first_later(q, time, from + 1);
    }
}

/// In a sorted queue every entry from `first_later` on is later than `time`.
pub proof fn lemma_first_later_sorted(q: Seq<QueueEntry>, time: i64)
    requires
        sorted(q),
    ensures
        forall|k: int| first_later(q, time, 0) <= k < q.len() ==> (#[trigger] q[k]).time > time,
{
    lemma_first_later(q, time, 0);
}

/// A queue with one more entry is in order, holds the new slot for the
/// new time and the others for theirs.
pub proof fn lemma_with_entry(q: Seq<QueueEntry>, e: QueueEntry)
    requires
        sorted(q),
        distinct(q),
        !queued(q, e.slot),
    ensures
        sorted(with_entry(q, e)),
        distinct(with_entry(q, e)),
        with_entry(q, e).len() == q.len() + 1,
        forall|s: usize| queued(with_entry(q, e), s) <==> (s == e.slot || queued(q, s)),
        time_of(with_entry(q, e), e.slot) == Some(e.time),
        forall|s: usize| s != e.slot ==> time_of(with_entry(q, e), s) == time_of(q, s),
{
    let p = first_later(q, e.time, 0);
    let r = with_entry(q, e);
    lemma_first_later(q, e.time, 0);
    lemma_first_later_sorted(q, e.time);
    assert(r[p] == e);
    assert forall|i: int, j: int| 0 <= i < j < r.len() implies r[i].time <= r[j].time by {
        if i < p && j > p {
            assert(r[i] == q[i]);
            assert(r[j] == q[j - 1]);
        }
    }
    assert forall|i: int, j: int|
        0 <= i < r.len() && 0 <= j < r.len() && r[i].slot == r[j].slot implies i == j by {
        let a = if i < p { i } else { i - 1 };
        let b = if j < p { j } else { j - 1 };
        if i != p && j != p {
            assert(r[i] == q[a]);
            assert(r[j] == q[b]);
        } else if i != p {
            assert(r[i] == q[a]);
            assert(q[a].slot == e.slot);
        } else if j != p {
            assert(r[j] == q[b]);
            assert(q[b].slot == e.slot);
        }
    }
    assert forall|s: usize| queued(r, s) <==> (s == e.slot || queued(q, s)) by {
        if queued(r, s) {
            let k = choose|k: int| 0 <= k < r.len() && #[trigger] r[k].slot == s;
            if k != p {
                let a = if k < p { k } else { k - 1 };
                assert(r[k] == q[a]);
                assert(q[a].slot == s);
            }
        }
        if queued(q, s) {
            let k = choose|k: int| 0 <= k < q.len() && #[trigger] q[k].slot == s;
            let a = if k < p { k } else { k + 1 };
            assert(r[a] == q[k]);
            assert(r[a].slot == s);
        }
        if s == e.slot {
            assert(r[p].slot == s);
        }
    }
    assert(queued(r, e.slot));
    assert(position(r, e.slot) == p);
    assert forall|s: usize| s != e.slot implies time_of(r, s) == time_of(q, s) by {
        if queued(q, s) {
            let k = position(q, s);
            let a = if k < p { k } else { k + 1 };
            assert(r[a] == q[k]);
            assert(r[a].slot == s);
            assert(position(r, s) == a);
        }
    }
}

proof fn lemma_without_order(q: Seq<QueueEntry>, slot: usize)
    requires
        sorted(q),
        distinct(q),
        queued(q, slot),
    ensures
        sorted(without(q, slot)),
        distinct(without(q, slot)),
        !queued(without(q, slot), slot),
{
    let r = without(q, slot);
    let p = position(q, slot);
    assert(r == q.remove(p));
    assert forall|i: int| 0 <= i < r.len() implies #[trigger] r[i] == q[if i < p {
        i
    } else {
        i + 1
    }] by {}
    assert forall|i: int, j: int| 0 <= i < j < r.len() implies r[i].time <= r[j].time by {
        let a = if i < p { i } else { i + 1 };
        let b = if j < p { j } else { j + 1 };
        assert(r[i] == q[a]);
        assert(r[j] == q[b]);
    }
    assert forall|i: int, j: int|
        0 <= i < r.len() && 0 <= j < r.len() && r[i].slot == r[j].slot implies i == j by {
        let a = if i < p { i } else { i + 1 };
        let b = if j < p { j } else { j + 1 };
        assert(r[i] == q[a]);
        assert(r[j] == q[b]);
    }
    assert forall|k: int| 0 <= k < r.len() implies (#[trigger] r[k]).slot != slot by {
        let a = if k < p { k } else { k + 1 };
        assert(r[k] == q[a]);
    }
}

proof fn lemma_without_other(q: Seq<QueueEntry>, slot: usize, s: usize)
    requires
        distinct(q),
        queued(q, slot),
        s != slot,
    ensures
        queued(without(q, slot), s) <==> queued(q, s),
        time_of(without(q, slot), s) == time_of(q, s),
{
    let r = without(q, slot);
    let p = position(q, slot);
    assert(r == q.remove(p));
    if queued(r, s) {
        let k = choose|k: int| 0 <= k < r.len() && #[trigger] r[k].slot == s;
        let a = if k < p { k } else { k + 1 };
        assert(r[k] == q[a]);
        assert(q[a].slot == s);
        assert(queued(q, s));
    }
    if queued(q, s) {
        let k = position(q, s);
        assert(k != p);
        let a = if k < p { k } else { k - 1 };
        assert(r[a] == q[k]);
        assert(r[a].slot == s);
        assert(queued(r, s));
        let pr = position(r, s);
        let b = if pr < p { pr } else { pr + 1 };
        assert(r[pr] == q[b]);
        assert(b == k);
        assert(r[pr].time == q[k].time);
    }
}

/// A queue without a slot is in order and holds the others for their
/// times.
pub proof fn lemma_without(q: Seq<QueueEntry>, slot: usize)
    requires
        sorted(q),
        distinct(q),
    ensures
        sorted(without(q, slot)),
        distinct(without(q, slot)),
        !queued(without(q, slot), slot),
        forall|s: usize| s != slot ==> (queued(without(q, slot), s) <==> queued(q, s)),
        forall|s: usize| s != slot ==> time_of(without(q, slot), s) == time_of(q, s),
{
    if queued(q, slot) {
        lemma_without_order(q, slot);
        assert forall|s: usize| s != slot implies (queued(without(q, slot), s) <==> queued(q, s))
            && time_of(without(q, slot), s) == time_of(q, s) by {
            lemma_without_other(q, slot, s);
        }
    }
}

impl View for Scheduler {
    type V = Seq<QueueEntry>;

    closed spec fn view(&self) -> Seq<QueueEntry> {
        self.entries@
    }
}

impl Scheduler {
    /// Whether the entries are in the order of their times and no slot is
    /// queued twice.
    pub open spec fn wf(&self) -> bool {
        sorted(self@) && distinct(self@)
    }

    /// An empty scheduler.
    pub fn new() -> (s: Scheduler)
        ensures
            s.wf(),
            s@ == Seq::<QueueEntry>::empty(),
    {
        Scheduler { entries: Vec::new() }
    }

    /// How many entries there are.
    pub fn len(&self) -> (n: usize)
        ensures
            n == self@.len(),
    {
        self.entries.len()
    }

    /// The entry at position `k`.
    pub fn entry(&self, k: usize) -> (e: QueueEntry)
        requires
            k < self@.len(),
        ensures
            e == self@[k as int],
    {
        self.entries[k]
    }

    /// The time of the earliest entry.
    pub fn next_time(&self) -> (t: Option<i64>)
        ensures
            t == (if self@.len() > 0 {
                Some(self@[0].time)
            } else {
                None
            }),
    {
        if self.entries.len() > 0 {
            Some(self.entries[0].time)
        } else {
            None
        }
    }

    /// How many entries, from the front, are due at `now`.
    pub fn due_count(&self, now: i64) -> (n: usize)
        ensures
            n == first_later(self@, now, 0),
    {
        let mut i: usize = 0;
        while i < self.entries.len() && self.entries[i].time <= now
            invariant
                i <= self.entries.len(),
                first_later(self@, now, 0) == first_later(self@, now, i as int),
            decreases self.entries.len() - i,
        {
            i += 1;
        }
        i
    }

    /// Whether `slot` is queued.
    pub fn contains(&self, slot: usize) -> (b: bool)
        ensures
            b == queued(self@, slot),
    {
        let mut i: usize = 0;
        while i < self.entries.len()
            invariant
                i <= self.entries.len(),
                forall|k: int| 0 <= k < i ==> self@[k].slot != slot,
            decreases self.entries.len() - i,
        {
            if self.entries[i].slot == slot {
                return true;
            }
            i += 1;
        }
        false
    }

    /// The time for which `slot` is queued.
    pub fn time_of(&self, slot: usize) -> (t: Option<i64>)
        requires
            self.wf(),
        ensures
            t == time_of(self@, slot),
    {
        let mut i: usize = 0;
        while i < self.entries.len()
            invariant
                i <= self.entries.len(),
                distinct(self@),
                forall|k: int| 0 <= k < i ==> self@[k].slot != slot,
            decreases self.entries.len() - i,
        {
            if self.entries[i].slot == slot {
                assert(queued(self@, slot));
                assert(position(self@, slot) == i);
                return Some(self.entries[i].time);
            }
            i += 1;
        }
        None
    }

    /// Queues `slot`, which is not queued yet, for `time`, behind the
    /// entries that are not later.
    pub fn insert(&mut self, time: i64, slot: usize)
        requires
            old(self).wf(),
            !queued(old(self)@, slot),
        ensures
            final(self).wf(),
            final(self)@ == with_entry(old(self)@, QueueEntry { time, slot }),
    {
        let at = self.due_count(time);
        proof {
            lemma_first_later(self@, time, 0);
            lemma_with_entry(self@, QueueEntry { time, slot });
        }
        self.entries.insert(at, QueueEntry { time, slot });
    }

    /// Takes the entry of `slot` out, if there is one.
    pub fn remove(&mut self, slot: usize)
        requires
            old(self).wf(),
        ensures
            final(self).wf(),
            final(self)@ == without(old(self)@, slot),
    {
        proof {
            lemma_without(self@, slot);
        }
        let mut i: usize = 0;
        while i < self.entries.len()
            invariant
                i <= self.entries.len(),
                *self == *old(self),
                self.wf(),
                sorted(without(self@, slot)),
                distinct(without(self@, slot)),
                forall|k: int| 0 <= k < i ==> self@[k].slot != slot,
            decreases self.entries.len() - i,
        {
            if self.entries[i].slot == slot {
                assert(queued(self@, slot));
                assert(position(self@, slot) == i);
                self.entries.remove(i);
                return ;
            }
            i += 1;
        }
    }

    /// Drops every entry.
    pub fn clear(&mut self)
        ensures
            final(self).wf(),
            final(self)@ == Seq::<QueueEntry>::empty(),
    {
        self.entries.clear();
    }
}

} // verus!
