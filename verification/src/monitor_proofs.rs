//! Why the monitor stays in order, and what follows from it.

use crate::monitor::{
    backoff, finishes, in_order, ActionView, EventView, Executor, MonitorView, NewProcess,
};
use crate::scheduler::{
    first_later, lemma_first_later, lemma_first_later_sorted, lemma_with_entry, lemma_without, position,
    queued, time_of, with_entry, without, QueueEntry,
};
use vstd::prelude::*;

verus! {

/// An accepted `add` leaves the monitor in order, with the new name under
/// supervision and nothing else changed for the others.
pub proof fn lemma_added_wf<E: Executor>(
    m: MonitorView<E>,
    name: Seq<char>,
    executor: E,
    timeout: u32,
    current: Option<(i32, i64)>,
)
    requires
        m.wf(),
        m.processes.len() < usize::MAX,
        m.add_verdict(name, executor, current) is Ok,
    ensures
        m.added(name, executor, timeout, current).wf(),
        m.added(name, executor, timeout, current).has(name),
        forall|other: Seq<char>|
            other != name ==> m.added(name, executor, timeout, current).has(other) == m.has(other),
{
    let n = m.added(name, executor, timeout, current);
    let slot = m.processes.len() as usize;
    assert(n.processes[slot as int].name == name);
    assert forall|i: int| 0 <= i < m.processes.len() implies n.processes[i] == m.processes[i] by {}
    assert forall|i: int, j: int|
        0 <= i < n.processes.len() && 0 <= j < n.processes.len() && n.processes[i].name
            == n.processes[j].name implies i == j by {
        if i < m.processes.len() && j < m.processes.len() {
        } else if i < m.processes.len() {
            assert(m.processes[i].name == name);
        } else if j < m.processes.len() {
            assert(m.processes[j].name == name);
        }
    }
    assert forall|i: int| n.pending(i) == (if i == slot {
        current is None
    } else {
        m.pending(i)
    }) by {}
    assert forall|i: int| n.running(i) == (if i == slot {
        current is Some
    } else {
        m.running(i)
    }) by {}
    assert forall|i: int| n.live(i) == (i == slot || m.live(i)) by {}
    if current is None {
        assert(!queued(m.start_queue, slot)) by {
            if queued(m.start_queue, slot) {
                let k = choose|k: int|
                    0 <= k < m.start_queue.len() && #[trigger] m.start_queue[k].slot == slot;
                assert(m.pending(m.start_queue[k].slot as int));
            }
        }
        lemma_with_entry(m.start_queue, QueueEntry { time: 0, slot });
        assert forall|k: int| 0 <= k < n.start_queue.len() implies n.pending(
            (#[trigger] n.start_queue[k]).slot as int,
        ) by {
            let s = n.start_queue[k].slot;
            assert(queued(n.start_queue, s));
            if s != slot {
                assert(queued(m.start_queue, s));
                let k0 = choose|k0: int|
                    0 <= k0 < m.start_queue.len() && #[trigger] m.start_queue[k0].slot == s;
                assert(m.pending(m.start_queue[k0].slot as int));
            }
        }
        assert forall|i: int| #[trigger] n.pending(i) implies queued(n.start_queue, i as usize) by {
            if i != slot {
                assert(m.pending(i));
            }
        }
    } else {
        assert forall|i: int| #[trigger] n.running(i) implies {
            let p = n.processes[i].current_pid->0;
            &&& n.pids.contains_key(p)
            &&& n.pids[p] == i
            &&& !n.processes[i].removed
            &&& n.processes[i].start_time is Some
        } by {
            if i != slot {
                assert(m.running(i));
            }
        }
        assert forall|i: int| #[trigger] n.pending(i) implies queued(n.start_queue, i as usize) by {
            assert(m.pending(i));
        }
        assert forall|k: int| 0 <= k < n.start_queue.len() implies n.pending(
            (#[trigger] n.start_queue[k]).slot as int,
        ) by {
            assert(m.pending(m.start_queue[k].slot as int));
        }
    }
    assert forall|i: int| #[trigger] n.live(i) implies n.processes[i].executor.spawnable() by {
        if i != slot {
            assert(m.live(i));
        }
    }
    assert(n.known(name));
    assert(n.slot_of(name) == slot);
    assert forall|other: Seq<char>| other != name implies n.has(other) == m.has(other) by {
        if m.known(other) {
            let i = m.slot_of(other);
            assert(n.processes[i].name == other);
            assert(n.known(other));
            assert(n.slot_of(other) == i);
        }
        if n.known(other) {
            let i = n.slot_of(other);
            assert(i != slot);
            assert(m.processes[i].name == other);
            assert(m.known(other));
            assert(m.slot_of(other) == i);
        }
    }
}

/// A run that has ended takes no further event.
pub proof fn lemma_run_ended<E: Executor>(
    m: MonitorView<E>,
    events: Seq<(i64, EventView)>,
    k: int,
    n: int,
)
    requires
        0 <= k <= n,
        m.run(events, k).result is Some,
    ensures
        m.run(events, n) == m.run(events, k),
    decreases n - k,
{
    if k < n {
        lemma_run_ended(m, events, k, n - 1);
    }
}

/// A run leaves the monitor in order.
pub proof fn lemma_run_wf<E: Executor>(m: MonitorView<E>, events: Seq<(i64, EventView)>, n: int)
    requires
        m.wf(),
    ensures
        m.run(events, n).next.wf(),
    decreases n,
{
    if n > 0 {
        lemma_run_wf(m, events, n - 1);
        let before = m.run(events, n - 1);
        if before.result is None {
            lemma_step_wf(before.next, events[n - 1].1, events[n - 1].0);
        }
    }
}

/// Every queued slot waits to be started.
pub proof fn lemma_queued_pending<E: Executor>(m: MonitorView<E>, s: usize)
    requires
        m.wf(),
        queued(m.start_queue, s),
    ensures
        m.pending(s as int),
{
    let k = choose|k: int| 0 <= k < m.start_queue.len() && #[trigger] m.start_queue[k].slot == s;
    assert(m.pending(m.start_queue[k].slot as int));
}

/// Well-formedness does not depend on the strays, the name or the
/// permission to reboot.
pub proof fn lemma_same_core<E: Executor>(m: MonitorView<E>, n: MonitorView<E>)
    requires
        m.wf(),
        n.processes == m.processes,
        n.start_queue == m.start_queue,
        n.pids == m.pids,
        n.shutting_down == m.shutting_down,
    ensures
        n.wf(),
        n.any_live() == m.any_live(),
{
    assert forall|i: int| n.pending(i) == m.pending(i) by {}
    assert forall|i: int| n.running(i) == m.running(i) by {}
    assert forall|i: int| n.live(i) == m.live(i) by {}
    assert forall|i: int| #[trigger] n.running(i) implies {
        let p = n.processes[i].current_pid->0;
        &&& n.pids.contains_key(p)
        &&& n.pids[p] == i
        &&& !n.processes[i].removed
        &&& n.processes[i].start_time is Some
    } by {
        assert(m.running(i));
    }
    assert forall|i: int| #[trigger] n.live(i) implies n.processes[i].executor.spawnable() by {
        assert(m.live(i));
    }
    assert forall|k: int| 0 <= k < n.start_queue.len() implies n.pending(
        (#[trigger] n.start_queue[k]).slot as int,
    ) by {
        assert(m.pending(m.start_queue[k].slot as int));
    }
    assert forall|i: int| #[trigger] n.pending(i) implies !m.shutting_down && queued(
        n.start_queue,
        i as usize,
    ) by {
        assert(m.pending(i));
    }
    if m.any_live() {
        let i = choose|i: int| #[trigger] m.live(i);
        assert(n.live(i));
    }
    if n.any_live() {
        let i = choose|i: int| #[trigger] n.live(i);
        assert(m.live(i));
    }
}

/// What `stray_find` finds: the first stray with the pid.
pub proof fn lemma_stray_find<E: Executor>(m: MonitorView<E>, pid: i32, from: int)
    requires
        0 <= from <= m.strays.len(),
    ensures
        from <= m.stray_find(pid, from) <= m.strays.len(),
        m.stray_find(pid, from) < m.strays.len() ==> m.strays[m.stray_find(pid, from)].pid == pid,
        forall|k: int| from <= k < m.stray_find(pid, from) ==> (#[trigger] m.strays[k]).pid != pid,
    decreases m.strays.len() - from,
{
    if from < m.strays.len() && m.strays[from].pid != pid {
        lemma_stray_find(m, pid, from + 1);
    }
}

/// A stray changes nothing in the table; the monitor tracks its pid, and
/// whatever it tracked before.
pub proof fn lemma_with_stray<E: Executor>(m: MonitorView<E>, pid: i32, name: Seq<char>, executor: E)
    requires
        m.wf(),
    ensures
        m.with_stray(pid, name, executor).wf(),
        m.with_stray(pid, name, executor).tracks(pid),
        forall|p: i32| m.tracks(p) ==> m.with_stray(pid, name, executor).tracks(p),
        forall|x: Seq<char>| m.with_stray(pid, name, executor).known(x) == m.known(x),
        forall|x: Seq<char>| m.with_stray(pid, name, executor).has(x) == m.has(x),
{
    let n = m.with_stray(pid, name, executor);
    lemma_same_core(m, n);
    assert forall|p: i32| p == pid || m.tracks(p) implies n.tracks(p) by {
        lemma_stray_find(n, p, 0);
        if !n.pids.contains_key(p) {
            let at = n.stray_find(p, 0);
            if at >= n.strays.len() {
                if p == pid {
                    assert(n.strays[m.strays.len() as int].pid == pid);
                } else {
                    lemma_stray_find(m, p, 0);
                    let old_at = m.stray_find(p, 0);
                    assert(n.strays[old_at] == m.strays[old_at]);
                }
            }
        }
    }
    assert forall|x: Seq<char>| n.known(x) == m.known(x) && n.has(x) == m.has(x) by {
        if m.known(x) {
            let i = m.slot_of(x);
            assert(n.processes[i].name == x);
        }
        if n.known(x) {
            let i = n.slot_of(x);
            assert(m.processes[i].name == x);
        }
    }
}

/// The search for a stray depends on the strays alone.
pub proof fn lemma_stray_find_same<E: Executor>(
    m: MonitorView<E>,
    n: MonitorView<E>,
    pid: i32,
    from: int,
)
    requires
        n.strays == m.strays,
        0 <= from,
    ensures
        n.stray_find(pid, from) == m.stray_find(pid, from),
    decreases m.strays.len() - from,
{
    if from < m.strays.len() && m.strays[from].pid != pid {
        lemma_stray_find_same(m, n, pid, from + 1);
    }
}

/// `added` keeps what the monitor tracks and knows, and tracks the pid of
/// a process that is added as running.
pub proof fn lemma_added_tracks<E: Executor>(
    m: MonitorView<E>,
    name: Seq<char>,
    executor: E,
    timeout: u32,
    current: Option<(i32, i64)>,
)
    requires
        m.wf(),
        m.processes.len() < usize::MAX,
        m.add_verdict(name, executor, current) is Ok,
    ensures
        forall|p: i32| m.tracks(p) ==> m.added(name, executor, timeout, current).tracks(p),
        current is Some ==> m.added(name, executor, timeout, current).tracks((current->0).0),
        forall|x: Seq<char>| m.known(x) ==> m.added(name, executor, timeout, current).known(x),
        m.added(name, executor, timeout, current).known(name),
{
    let n = m.added(name, executor, timeout, current);
    assert forall|p: i32| m.tracks(p) implies n.tracks(p) by {
        lemma_stray_find_same(m, n, p, 0);
    }
    assert forall|x: Seq<char>| m.known(x) implies n.known(x) by {
        lemma_added_known(m, name, executor, timeout, current, x);
    }
    lemma_added_known(m, name, executor, timeout, current, name);
}

/// After any sequence of `add`, the monitor tracks and knows what it did
/// before, and no call of the sequence would be accepted again.
pub proof fn lemma_with_all_settled<E: Executor>(
    m: MonitorView<E>,
    items: Seq<NewProcess<E>>,
    n: int,
)
    requires
        m.wf(),
        0 <= n <= items.len(),
        m.processes.len() + n <= usize::MAX,
        forall|k: int| 0 <= k < n ==> (#[trigger] items[k]).current is None,
    ensures
        m.with_all(items, n).wf(),
        m.with_all(items, n).processes.len() <= m.processes.len() + n,
        m.with_all(items, n).shutting_down == m.shutting_down,
        m.with_all(items, n).strays == m.strays,
        forall|p: i32| m.tracks(p) ==> m.with_all(items, n).tracks(p),
        forall|x: Seq<char>| m.known(x) ==> m.with_all(items, n).known(x),
        forall|k: int|
            0 <= k < n ==> m.with_all(items, n).add_verdict(
                (#[trigger] items[k]).name,
                items[k].executor,
                items[k].current,
            ) is Err,
    decreases n,
{
    if n > 0 {
        lemma_with_all_settled(m, items, n - 1);
        let before = m.with_all(items, n - 1);
        let after = m.with_all(items, n);
        let it = items[n - 1];
        if before.add_verdict(it.name, it.executor, it.current) is Ok {
            lemma_added_wf(before, it.name, it.executor, it.timeout, it.current);
            lemma_added_tracks(before, it.name, it.executor, it.timeout, it.current);
        }
        assert forall|k: int| 0 <= k < n implies after.add_verdict(
            (#[trigger] items[k]).name,
            items[k].executor,
            items[k].current,
        ) is Err by {
            if k < n - 1 {
                assert(before.add_verdict(items[k].name, items[k].executor, items[k].current) is Err);
                if before.known(items[k].name) {
                    assert(after.known(items[k].name));
                }
            }
        }
    }
}

/// After any sequence of `add`, no process has left that had not left
/// before.
pub proof fn lemma_with_all_none_left<E: Executor>(
    m: MonitorView<E>,
    items: Seq<NewProcess<E>>,
    n: int,
)
    requires
        m.none_left(),
        0 <= n <= items.len(),
    ensures
        m.with_all(items, n).none_left(),
    decreases n,
{
    if n > 0 {
        lemma_with_all_none_left(m, items, n - 1);
    }
}

/// A sequence of `add` of which none is accepted changes nothing.
pub proof fn lemma_with_all_idle<E: Executor>(m: MonitorView<E>, items: Seq<NewProcess<E>>, n: int)
    requires
        0 <= n <= items.len(),
        forall|k: int|
            0 <= k < n ==> m.add_verdict(
                (#[trigger] items[k]).name,
                items[k].executor,
                items[k].current,
            ) is Err,
    ensures
        m.with_all(items, n) == m,
    decreases n,
{
    if n > 0 {
        lemma_with_all_idle(m, items, n - 1);
    }
}

/// Putting in order a state whose only fault is that `slot` waits unqueued.
pub proof fn lemma_requeue<E: Executor>(m: MonitorView<E>, n: MonitorView<E>, slot: int, time: i64)
    requires
        m.wf(),
        !m.shutting_down,
        n == (MonitorView {
            start_queue: with_entry(
                without(m.start_queue, slot as usize),
                QueueEntry { time, slot: slot as usize },
            ),
            processes: n.processes,
            pids: n.pids,
            ..m
        }),
        n.processes.len() == m.processes.len(),
        n.pending(slot),
        m.live(slot),
        forall|i: int| i != slot ==> n.pending(i) == m.pending(i),
        forall|i: int| i != slot ==> n.running(i) == m.running(i),
        forall|i: int|
            0 <= i < m.processes.len() && i != slot ==> #[trigger] n.processes[i]
                == m.processes[i],
        n.processes[slot].name == m.processes[slot].name,
        n.processes[slot].executor == m.processes[slot].executor,
        forall|p: i32| #[trigger]
            n.pids.contains_key(p) ==> m.pids.contains_key(p) && n.pids[p] == m.pids[p]
                && m.pids[p] != slot,
        forall|i: int| i != slot && #[trigger] m.running(i) ==> n.pids.contains_key(
            m.processes[i].current_pid->0,
        ),
    ensures
        n.wf(),
        time_of(n.start_queue, slot as usize) == Some(time),
        forall|s: usize| s != slot ==> time_of(n.start_queue, s) == time_of(m.start_queue, s),
{
    let q = m.start_queue;
    let q1 = without(q, slot as usize);
    let e = QueueEntry { time, slot: slot as usize };
    lemma_without(q, slot as usize);
    lemma_with_entry(q1, e);
    assert forall|i: int, j: int|
        0 <= i < n.processes.len() && 0 <= j < n.processes.len() && n.processes[i].name
            == n.processes[j].name implies i == j by {
        assert(n.processes[i].name == m.processes[i].name);
        assert(n.processes[j].name == m.processes[j].name);
    }
    assert forall|i: int| #[trigger] n.running(i) implies {
        let p = n.processes[i].current_pid->0;
        &&& n.pids.contains_key(p)
        &&& n.pids[p] == i
        &&& !n.processes[i].removed
        &&& n.processes[i].start_time is Some
    } by {
        assert(i != slot);
        assert(m.running(i));
        assert(n.processes[i] == m.processes[i]);
    }
    assert forall|p: i32| #[trigger] n.pids.contains_key(p) implies n.pids[p] < n.processes.len()
        && n.processes[n.pids[p] as int].current_pid == Some(p) by {
        assert(m.pids.contains_key(p));
    }
    assert forall|i: int| #[trigger] n.live(i) implies n.processes[i].executor.spawnable() by {
        if i != slot {
            assert(m.live(i));
        } else {
            assert(m.live(i));
        }
    }
    assert forall|k: int| 0 <= k < n.start_queue.len() implies n.pending(
        (#[trigger] n.start_queue[k]).slot as int,
    ) by {
        let s = n.start_queue[k].slot;
        assert(queued(n.start_queue, s));
        if s != slot {
            assert(queued(q1, s));
            assert(queued(q, s));
            lemma_queued_pending(m, s);
        }
    }
    assert forall|i: int| #[trigger] n.pending(i) implies queued(n.start_queue, i as usize) by {
        if i != slot {
            assert(m.pending(i));
            assert(queued(q, i as usize));
            assert(queued(q1, i as usize));
        }
    }
}

/// Putting off a waiting process leaves the monitor in order, and changes
/// the time of that process alone.
pub proof fn lemma_rescheduled_wf<E: Executor>(m: MonitorView<E>, slot: int, time: i64)
    requires
        m.wf(),
        !m.shutting_down,
        m.pending(slot),
    ensures
        m.rescheduled(slot, time).wf(),
        time_of(m.rescheduled(slot, time).start_queue, slot as usize) == Some(time),
        forall|s: usize|
            s != slot ==> time_of(m.rescheduled(slot, time).start_queue, s) == time_of(
                m.start_queue,
                s,
            ),
{
    let n = m.rescheduled(slot, time);
    assert forall|i: int| i != slot && #[trigger] m.running(i) implies n.pids.contains_key(
        m.processes[i].current_pid->0,
    ) by {}
    assert forall|p: i32| #[trigger] n.pids.contains_key(p) implies m.pids[p] != slot by {}
    lemma_requeue(m, n, slot, time);
}

/// The exit of a child leaves the monitor in order.
pub proof fn lemma_child_wf<E: Executor>(m: MonitorView<E>, pid: i32, status: i32)
    requires
        m.wf(),
    ensures
        m.on_child(pid, status).next.wf(),
{
    let n = m.on_child(pid, status).next;
    if m.pids.contains_key(pid) {
        let i = m.pids[pid] as int;
        let p = m.processes[i];
        assert(m.running(i));
        assert forall|j: int| j != i && #[trigger] m.running(j) implies m.processes[j].current_pid
            != Some(pid) by {}
        assert forall|q: i32| #[trigger] m.pids.contains_key(q) && q != pid implies m.pids[q]
            != i by {}
        if m.shutting_down || p.executor.finish_view().suppress_restart {
            assert forall|j: int| n.pending(j) == (j != i && m.pending(j)) by {}
            assert forall|j: int| n.running(j) == (j != i && m.running(j)) by {}
            assert forall|j: int| #[trigger] n.running(j) implies {
                let q = n.processes[j].current_pid->0;
                &&& n.pids.contains_key(q)
                &&& n.pids[q] == j
                &&& !n.processes[j].removed
                &&& n.processes[j].start_time is Some
            } by {
                assert(m.running(j));
            }
            assert forall|j: int| #[trigger] n.live(j) implies n.processes[j].executor.spawnable() by {
                assert(m.live(j));
            }
            assert forall|k: int| 0 <= k < n.start_queue.len() implies n.pending(
                (#[trigger] n.start_queue[k]).slot as int,
            ) by {
                assert(m.pending(m.start_queue[k].slot as int));
            }
            assert forall|j: int| #[trigger] n.pending(j) implies queued(
                n.start_queue,
                j as usize,
            ) || m.shutting_down by {
                assert(m.pending(j));
            }
            assert forall|j: int| m.shutting_down implies !#[trigger] n.pending(j) by {
                if n.pending(j) {
                    assert(m.pending(j));
                }
            }
        } else {
            let time = backoff(p.start_time->0, p.restart_timeout);
            assert(!queued(m.start_queue, i as usize)) by {
                if queued(m.start_queue, i as usize) {
                    lemma_queued_pending(m, i as usize);
                }
            }
            assert(m.live(i));
            lemma_requeue(m, n, i, time);
        }
    } else {
        lemma_same_core(m, n);
    }
}

/// The outcome of a start leaves the monitor in order.
pub proof fn lemma_started_wf<E: Executor>(m: MonitorView<E>, name: Seq<char>, pid: i32, now: i64)
    requires
        m.wf(),
    ensures
        m.on_started(name, pid, now).next.wf(),
        m.on_failed(name, now).next.wf(),
{
    if m.awaits(name) {
        let i = m.slot_of(name);
        lemma_rescheduled_wf(m, i, backoff(now, m.processes[i].restart_timeout));
        if !m.pids.contains_key(pid) {
            let n = m.on_started(name, pid, now).next;
            lemma_without(m.start_queue, i as usize);
            assert forall|j: int| n.pending(j) == (j != i && m.pending(j)) by {}
            assert forall|j: int| n.running(j) == (j == i || m.running(j)) by {}
            assert forall|j: int| n.live(j) == m.live(j) by {}
            assert forall|j: int| #[trigger] n.running(j) implies {
                let q = n.processes[j].current_pid->0;
                &&& n.pids.contains_key(q)
                &&& n.pids[q] == j
                &&& !n.processes[j].removed
                &&& n.processes[j].start_time is Some
            } by {
                if j != i {
                    assert(m.running(j));
                }
            }
            assert forall|q: i32| #[trigger] n.pids.contains_key(q) implies n.pids[q]
                < n.processes.len() && n.processes[n.pids[q] as int].current_pid == Some(q) by {
                if q != pid {
                    assert(m.pids.contains_key(q));
                    assert(m.running(m.pids[q] as int));
                }
            }
            assert forall|j: int| #[trigger] n.live(j) implies n.processes[j].executor.spawnable() by {
                assert(m.live(j));
            }
            assert forall|k: int| 0 <= k < n.start_queue.len() implies n.pending(
                (#[trigger] n.start_queue[k]).slot as int,
            ) by {
                let s = n.start_queue[k].slot;
                assert(queued(n.start_queue, s));
                assert(s != i);
                assert(queued(m.start_queue, s));
                lemma_queued_pending(m, s);
            }
            assert forall|j: int| #[trigger] n.pending(j) implies queued(
                n.start_queue,
                j as usize,
            ) by {
                assert(m.pending(j));
                assert(queued(m.start_queue, j as usize));
            }
        }
    }
}

/// A terminate signal leaves the monitor in order.
pub proof fn lemma_terminate_wf<E: Executor>(m: MonitorView<E>, signal: i32)
    requires
        m.wf(),
    ensures
        m.on_terminate(signal).next.wf(),
{
    let n = m.on_terminate(signal).next;
    assert forall|j: int| !n.pending(j) by {}
    assert forall|j: int| n.running(j) == m.running(j) by {}
    assert forall|j: int| #[trigger] n.running(j) implies {
        let q = n.processes[j].current_pid->0;
        &&& n.pids.contains_key(q)
        &&& n.pids[q] == j
        &&& !n.processes[j].removed
        &&& n.processes[j].start_time is Some
    } by {
        assert(m.running(j));
    }
    assert forall|q: i32| #[trigger] n.pids.contains_key(q) implies n.pids[q] < n.processes.len()
        && n.processes[n.pids[q] as int].current_pid == Some(q) by {
        assert(m.running(m.pids[q] as int));
    }
    assert forall|j: int| #[trigger] n.live(j) implies n.processes[j].executor.spawnable() by {
        assert(m.live(j));
    }
}

/// Whatever happens, the table, the pid index and the scheduler go on
/// fitting together.
pub proof fn lemma_step_wf<E: Executor>(m: MonitorView<E>, event: EventView, now: i64)
    requires
        m.wf(),
    ensures
        m.step(event, now).next.wf(),
{
    match event {
        EventView::Timeout => {},
        EventView::Terminate(signal) => lemma_terminate_wf(m, signal),
        EventView::Child(pid, status) => lemma_child_wf(m, pid, status),
        EventView::Reboot(signal) => lemma_terminate_wf(m, signal),
        EventView::Started(name, pid) => lemma_started_wf(m, name, pid, now),
        EventView::Failed(name) => lemma_started_wf(m, name, 0, now),
    }
}

/// After any sequence of `add`, the names under supervision are those that
/// were there before and those of the calls that were accepted.
pub proof fn law_has_registered<E: Executor>(
    m: MonitorView<E>,
    items: Seq<NewProcess<E>>,
    n: int,
    name: Seq<char>,
)
    requires
        m.wf(),
        0 <= n <= items.len(),
        m.processes.len() + n <= usize::MAX,
    ensures
        m.with_all(items, n).wf(),
        m.with_all(items, n).processes.len() <= m.processes.len() + n,
        m.with_all(items, n).shutting_down == m.shutting_down,
        m.with_all(items, n).has(name) <==> m.has(name) || exists|k: int|
            0 <= k < n && #[trigger] items[k].name == name && m.accepted(items, k),
        m.with_all(items, n).known(name) <==> m.known(name) || exists|k: int|
            0 <= k < n && #[trigger] items[k].name == name && m.accepted(items, k),
    decreases n,
{
    if n > 0 {
        law_has_registered(m, items, n - 1, name);
        let before = m.with_all(items, n - 1);
        let it = items[n - 1];
        if before.add_verdict(it.name, it.executor, it.current) is Ok {
            lemma_added_wf(before, it.name, it.executor, it.timeout, it.current);
            assert(m.accepted(items, n - 1));
            lemma_added_known(before, it.name, it.executor, it.timeout, it.current, name);
            if it.name == name {
                assert(items[n - 1].name == name && m.accepted(items, n - 1));
            }
        } else {
            assert(!m.accepted(items, n - 1));
        }
    }
}

/// Calls of `add` with names that differ from each other and from those
/// of the table, for processes that are to be started, are all accepted:
/// afterwards `has` holds of the names that were there and of the new ones.
pub proof fn law_has_distinct<E: Executor>(
    m: MonitorView<E>,
    items: Seq<NewProcess<E>>,
    n: int,
    name: Seq<char>,
)
    requires
        m.wf(),
        !m.shutting_down,
        0 <= n <= items.len(),
        m.processes.len() + n <= usize::MAX,
        forall|i: int, j: int| 0 <= i < j < n ==> items[i].name != items[j].name,
        forall|k: int|
            0 <= k < n ==> !m.known((#[trigger] items[k]).name) && items[k].executor.spawnable()
                && items[k].current is None,
    ensures
        forall|k: int| 0 <= k < n ==> m.accepted(items, k),
        m.with_all(items, n).has(name) <==> m.has(name) || exists|k: int|
            0 <= k < n && #[trigger] items[k].name == name,
    decreases n,
{
    law_has_registered(m, items, n, name);
    if n > 0 {
        law_has_distinct(m, items, n - 1, name);
        let it = items[n - 1];
        law_has_registered(m, items, n - 1, it.name);
        let before = m.with_all(items, n - 1);
        assert(!before.known(it.name));
        assert(m.accepted(items, n - 1));
    }
}

/// A process that is added to be started is started when the timer comes:
/// once the start is reported, the process runs under the reported pid,
/// the pid index leads from that pid to its slot, and the scheduler no
/// longer holds it.
pub proof fn law_first_start<E: Executor>(
    m: MonitorView<E>,
    name: Seq<char>,
    executor: E,
    timeout: u32,
    pid: i32,
    first: i64,
    second: i64,
)
    requires
        m.wf(),
        m.processes.len() < usize::MAX,
        m.add_verdict(name, executor, None) is Ok,
        !m.pids.contains_key(pid),
        first >= 0,
    ensures
        ({
            let slot = m.processes.len() as int;
            let added = m.added(name, executor, timeout, None);
            let timer = added.step(EventView::Timeout, first);
            let done = timer.next.step(EventView::Started(name, pid), second).next;
            &&& timer.next == added
            &&& exists|k: int|
                0 <= k < timer.actions.len() && #[trigger] timer.actions[k] == added.start_action(
                    slot,
                )
            &&& added.start_action(slot) == (ActionView::Start {
                name,
                prepare: executor.prepare_view(),
                command: executor.command_view(),
            })
            &&& done.wf()
            &&& done.has(name)
            &&& done.processes[slot].current_pid == Some(pid)
            &&& done.processes[slot].start_time == Some(second)
            &&& done.pids.contains_key(pid)
            &&& done.pids[pid] == slot
            &&& !queued(done.start_queue, slot as usize)
        }),
{
    let slot = m.processes.len() as int;
    let added = m.added(name, executor, timeout, None);
    lemma_added_wf(m, name, executor, timeout, None);
    let timer = added.step(EventView::Timeout, first);
    let q = added.start_queue;
    assert(added.pending(slot));
    assert(queued(q, slot as usize));
    let k = position(q, slot as usize);
    lemma_first_later(q, first, 0);
    lemma_first_later_sorted(q, first);
    lemma_with_entry(m.start_queue, QueueEntry { time: 0, slot: slot as usize });
    assert(time_of(q, slot as usize) == Some(0i64));
    assert(q[k].time == 0);
    assert(k < first_later(q, first, 0));
    assert(timer.actions[k] == added.start_action(slot));
    assert(added.known(name));
    assert(added.slot_of(name) == slot);
    assert(added.awaits(name));
    lemma_started_wf(added, name, pid, second);
    lemma_without(q, slot as usize);
    let done = timer.next.step(EventView::Started(name, pid), second).next;
    assert(done.processes[slot].name == name);
    assert(done.known(name));
    assert(done.slot_of(name) == slot);
}

/// A process under supervision either runs or waits in the scheduler,
/// never both and never neither, as long as the monitor is not shutting
/// down.
pub proof fn law_running_or_waiting<E: Executor>(m: MonitorView<E>, i: int)
    requires
        m.wf(),
        !m.shutting_down,
        m.live(i),
    ensures
        m.processes[i].current_pid is Some <==> !queued(m.start_queue, i as usize),
{
    if m.processes[i].current_pid is None {
        assert(m.pending(i));
    }
    if queued(m.start_queue, i as usize) {
        lemma_queued_pending(m, i as usize);
    }
}

/// The pid index and the table agree: the index leads from a pid to the
/// slot of the process that runs under it, and the pid of every running
/// process is in the index.
pub proof fn law_pid_index<E: Executor>(m: MonitorView<E>, pid: i32, i: int)
    requires
        m.wf(),
        0 <= i < m.processes.len(),
    ensures
        m.pids.contains_key(pid) && m.pids[pid] == i <==> m.processes[i].current_pid == Some(pid),
{
    if m.processes[i].current_pid == Some(pid) {
        assert(m.running(i));
    }
}

/// Putting a process under supervision keeps the restart timeouts: a new
/// process that waits has never been started.
pub proof fn law_backoff_added<E: Executor>(
    m: MonitorView<E>,
    name: Seq<char>,
    executor: E,
    timeout: u32,
    current: Option<(i32, i64)>,
)
    requires
        m.wf(),
        m.backoff_kept(),
        m.processes.len() < usize::MAX,
        m.add_verdict(name, executor, current) is Ok,
    ensures
        m.added(name, executor, timeout, current).backoff_kept(),
{
    let n = m.added(name, executor, timeout, current);
    let slot = m.processes.len() as usize;
    lemma_added_wf(m, name, executor, timeout, current);
    if current is None {
        assert(!queued(m.start_queue, slot)) by {
            if queued(m.start_queue, slot) {
                lemma_queued_pending(m, slot);
            }
        }
        lemma_with_entry(m.start_queue, QueueEntry { time: 0, slot });
    }
    assert forall|i: int|
        0 <= i < n.processes.len() && n.processes[i].start_time is Some && queued(
            n.start_queue,
            i as usize,
        ) implies time_of(n.start_queue, i as usize)->0 >= backoff(
        (#[trigger] n.processes[i]).start_time->0,
        n.processes[i].restart_timeout,
    ) by {
        if i == slot {
            if current is Some {
                assert(n.running(i));
                lemma_queued_pending(n, i as usize);
            }
        } else {
            assert(n.processes[i] == m.processes[i]);
            assert(queued(m.start_queue, i as usize));
            assert(time_of(n.start_queue, i as usize) == time_of(m.start_queue, i as usize));
        }
    }
}

/// The restart timeout is kept whatever happens, as long as the clock
/// does not run backwards: after any event, no process waits for a start
/// attempt that comes sooner than its timeout after its last start.
pub proof fn law_backoff<E: Executor>(m: MonitorView<E>, event: EventView, now: i64)
    requires
        m.wf(),
        m.backoff_kept(),
        m.started_by(now),
    ensures
        m.step(event, now).next.backoff_kept(),
        m.step(event, now).next.started_by(now),
{
    let n = m.step(event, now).next;
    lemma_step_wf(m, event, now);
    match event {
        EventView::Timeout => {},
        EventView::Terminate(signal) => {
            lemma_terminate_backoff(m, signal, now);
        },
        EventView::Reboot(signal) => {
            lemma_terminate_backoff(m, signal, now);
        },
        EventView::Child(pid, status) => {
            if m.pids.contains_key(pid) {
                let i = m.pids[pid] as int;
                let p = m.processes[i];
                assert(m.running(i));
                if m.shutting_down || p.executor.finish_view().suppress_restart {
                    assert forall|j: int| 0 <= j < n.processes.len() implies (
                    #[trigger] n.processes[j]).start_time == m.processes[j].start_time
                        && n.processes[j].restart_timeout == m.processes[j].restart_timeout by {}
                } else {
                    let time = backoff(p.start_time->0, p.restart_timeout);
                    assert(!queued(m.start_queue, i as usize)) by {
                        if queued(m.start_queue, i as usize) {
                            lemma_queued_pending(m, i as usize);
                        }
                    }
                    assert forall|j: int| j != i && #[trigger] m.running(j) implies
                        m.processes[j].current_pid != Some(pid) by {}
                    assert forall|q: i32| #[trigger] m.pids.contains_key(q) && q != pid implies
                        m.pids[q] != i by {}
                    assert(m.live(i));
                    lemma_requeue(m, n, i, time);
                    assert forall|j: int| 0 <= j < n.processes.len() implies (
                    #[trigger] n.processes[j]).start_time == m.processes[j].start_time
                        && n.processes[j].restart_timeout == m.processes[j].restart_timeout by {}
                    lemma_backoff_after(m, n, i, time);
                }
            } else {
                assert forall|j: int| 0 <= j < n.processes.len() implies #[trigger] n.processes[j]
                    == m.processes[j] by {}
            }
        },
        EventView::Started(name, pid) => {
            if m.awaits(name) {
                let i = m.slot_of(name);
                if m.pids.contains_key(pid) {
                    lemma_failed_backoff(m, name, now);
                } else {
                    lemma_without(m.start_queue, i as usize);
                    assert forall|j: int|
                        0 <= j < n.processes.len() && j != i implies #[trigger] n.processes[j]
                        == m.processes[j] by {}
                }
            }
        },
        EventView::Failed(name) => {
            lemma_failed_backoff(m, name, now);
        },
    }
}

/// After a terminate signal nothing waits, so every timeout is kept.
pub proof fn lemma_terminate_backoff<E: Executor>(m: MonitorView<E>, signal: i32, now: i64)
    requires
        m.wf(),
        m.started_by(now),
    ensures
        m.on_terminate(signal).next.backoff_kept(),
        m.on_terminate(signal).next.started_by(now),
{
    let n = m.on_terminate(signal).next;
    assert forall|j: int| 0 <= j < n.processes.len() implies (#[trigger] n.processes[j]).start_time
        == m.processes[j].start_time by {}
    assert forall|s: usize| !queued(n.start_queue, s) by {}
}

/// The restart timeout is kept after `slot` was queued for a time that
/// keeps it.
pub proof fn lemma_backoff_after<E: Executor>(
    m: MonitorView<E>,
    n: MonitorView<E>,
    slot: int,
    time: i64,
)
    requires
        m.backoff_kept(),
        0 <= slot < m.processes.len() <= usize::MAX,
        n.processes.len() == m.processes.len(),
        forall|j: int|
            0 <= j < n.processes.len() ==> (#[trigger] n.processes[j]).start_time
                == m.processes[j].start_time && n.processes[j].restart_timeout
                == m.processes[j].restart_timeout,
        time_of(n.start_queue, slot as usize) == Some(time),
        forall|s: usize| s != slot ==> time_of(n.start_queue, s) == time_of(m.start_queue, s),
        m.processes[slot].start_time is Some ==> time >= backoff(
            m.processes[slot].start_time->0,
            m.processes[slot].restart_timeout,
        ),
    ensures
        n.backoff_kept(),
{
    assert forall|i: int|
        0 <= i < n.processes.len() && n.processes[i].start_time is Some && queued(
            n.start_queue,
            i as usize,
        ) implies time_of(n.start_queue, i as usize)->0 >= backoff(
        (#[trigger] n.processes[i]).start_time->0,
        n.processes[i].restart_timeout,
    ) by {
        if i != slot {
            assert(time_of(n.start_queue, i as usize) == time_of(m.start_queue, i as usize));
            assert(queued(m.start_queue, i as usize));
            assert(m.processes[i].start_time is Some);
        }
    }
}

/// A failed start keeps the timeouts, as long as it is not reported for a
/// time before the last start.
pub proof fn lemma_failed_backoff<E: Executor>(m: MonitorView<E>, name: Seq<char>, now: i64)
    requires
        m.wf(),
        m.backoff_kept(),
        m.started_by(now),
    ensures
        m.on_failed(name, now).next.backoff_kept(),
        m.on_failed(name, now).next.started_by(now),
{
    if m.awaits(name) {
        let i = m.slot_of(name);
        let time = backoff(now, m.processes[i].restart_timeout);
        lemma_rescheduled_wf(m, i, time);
        lemma_backoff_after(m, m.rescheduled(i, time), i, time);
    }
}

/// The restart timeout is kept over a whole run whose events come in the
/// order of their times.
pub proof fn law_backoff_run<E: Executor>(
    m: MonitorView<E>,
    events: Seq<(i64, EventView)>,
    n: int,
)
    requires
        m.wf(),
        m.backoff_kept(),
        0 <= n <= events.len(),
        in_order(events),
        events.len() > 0 ==> m.started_by(events[0].0),
    ensures
        m.run(events, n).next.backoff_kept(),
        m.run(events, n).next.wf(),
        n > 0 ==> m.run(events, n).next.started_by(events[n - 1].0),
    decreases n,
{
    lemma_run_wf(m, events, n);
    if n > 0 {
        law_backoff_run(m, events, n - 1);
        let before = m.run(events, n - 1);
        if before.result is None {
            let now = events[n - 1].0;
            if n > 1 {
                assert(events[n - 2].0 <= now);
            }
            assert(before.next.started_by(now));
            law_backoff(before.next, events[n - 1].1, now);
        } else {
            lemma_run_started_by(m, events, n - 1, events[n - 1].0);
        }
    }
}

/// What holds of the start times after `n` events holds at any later time.
pub proof fn lemma_run_started_by<E: Executor>(
    m: MonitorView<E>,
    events: Seq<(i64, EventView)>,
    n: int,
    now: i64,
)
    requires
        0 <= n < events.len(),
        in_order(events),
        events[n].0 <= now,
        m.started_by(events[0].0),
        n > 0 ==> m.run(events, n).next.started_by(events[n - 1].0),
    ensures
        m.run(events, n).next.started_by(now),
{
    if n > 0 {
        assert(events[n - 1].0 <= events[n].0);
    } else {
        assert(events[0].0 <= now);
    }
}

/// What `added` does to the names of the table.
pub proof fn lemma_added_known<E: Executor>(
    m: MonitorView<E>,
    name: Seq<char>,
    executor: E,
    timeout: u32,
    current: Option<(i32, i64)>,
    other: Seq<char>,
)
    requires
        m.wf(),
        m.processes.len() < usize::MAX,
        m.add_verdict(name, executor, current) is Ok,
    ensures
        m.added(name, executor, timeout, current).known(other) <==> other == name || m.known(
            other,
        ),
        m.added(name, executor, timeout, current).has(other) <==> other == name || m.has(other),
        m.added(name, executor, timeout, current).processes.len() == m.processes.len() + 1,
        m.added(name, executor, timeout, current).shutting_down == m.shutting_down,
{
    let n = m.added(name, executor, timeout, current);
    let slot = m.processes.len() as int;
    lemma_added_wf(m, name, executor, timeout, current);
    assert(n.processes[slot].name == name);
    if m.known(other) {
        let i = m.slot_of(other);
        assert(n.processes[i].name == other);
    }
    if n.known(other) && other != name {
        let i = n.slot_of(other);
        assert(m.processes[i].name == other);
    }
}

/// The leaves in two sequences of actions add up.
pub proof fn lemma_finishes_concat(a: Seq<ActionView>, b: Seq<ActionView>, name: Seq<char>, n: int)
    requires
        0 <= n <= b.len(),
    ensures
        finishes(a + b, name, a.len() + n) == finishes(a, name, a.len() as int) + finishes(
            b,
            name,
            n,
        ),
    decreases n,
{
    if n > 0 {
        lemma_finishes_concat(a, b, name, n - 1);
        assert((a + b)[a.len() + n - 1] == b[n - 1]);
    } else {
        lemma_finishes_prefix(a + b, a, name, a.len() as int);
    }
}

/// The leaves among the first `n` actions depend on those alone.
pub proof fn lemma_finishes_prefix(a: Seq<ActionView>, b: Seq<ActionView>, name: Seq<char>, n: int)
    requires
        0 <= n <= a.len(),
        n <= b.len(),
        forall|k: int| 0 <= k < n ==> a[k] == b[k],
    ensures
        finishes(a, name, n) == finishes(b, name, n),
    decreases n,
{
    if n > 0 {
        lemma_finishes_prefix(a, b, name, n - 1);
    }
}

/// Passing a signal on says of nobody that it leaves.
pub proof fn lemma_kills_finish_nobody<E: Executor>(
    m: MonitorView<E>,
    signal: i32,
    n: int,
    name: Seq<char>,
)
    requires
        0 <= n <= m.processes.len(),
    ensures
        finishes(m.kills(signal, n), name, m.kills(signal, n).len() as int) == 0,
    decreases n,
{
    if n > 0 {
        lemma_kills_finish_nobody(m, signal, n - 1, name);
        let before = m.kills(signal, n - 1);
        let after = m.kills(signal, n);
        if after.len() > before.len() {
            lemma_finishes_prefix(after, before, name, before.len() as int);
        }
    }
}

/// The leaves at a terminate signal name each waiting process once.
pub proof fn lemma_farewells_finish_once<E: Executor>(m: MonitorView<E>, n: int, i: int)
    requires
        m.wf(),
        0 <= n <= m.processes.len(),
        0 <= i < m.processes.len(),
    ensures
        finishes(m.farewells(n), m.processes[i].name, m.farewells(n).len() as int) == (if i < n
            && m.pending(i) {
            1int
        } else {
            0int
        }),
    decreases n,
{
    if n > 0 {
        lemma_farewells_finish_once(m, n - 1, i);
        let before = m.farewells(n - 1);
        let after = m.farewells(n);
        if m.pending(n - 1) {
            lemma_finishes_prefix(after, before, m.processes[i].name, before.len() as int);
            assert(after[after.len() - 1] == m.finish_action(n - 1));
        }
    }
}

/// Leaving supervision is for good, and is said once: whatever happens, a
/// process that has left stays out and is not said to leave again, and a
/// process under supervision is said to leave exactly if it leaves.
pub proof fn law_finish_once<E: Executor>(m: MonitorView<E>, event: EventView, now: i64, i: int)
    requires
        m.wf(),
        0 <= i < m.processes.len(),
    ensures
        ({
            let s = m.step(event, now);
            &&& s.next.processes.len() == m.processes.len()
            &&& s.next.processes[i].name == m.processes[i].name
            &&& m.processes[i].removed ==> s.next.processes[i].removed
            &&& finishes(s.actions, m.processes[i].name, s.actions.len() as int) == (if 
                !m.processes[i].removed && s.next.processes[i].removed {
                1int
            } else {
                0int
            })
        }),
{
    let s = m.step(event, now);
    let name = m.processes[i].name;
    match event {
        EventView::Timeout => {
            if !m.shutting_down {
                lemma_first_later(m.start_queue, now, 0);
                lemma_starts_finish_nobody(s.actions, name, s.actions.len() as int);
            }
        },
        EventView::Terminate(signal) => {
            lemma_terminate_finishes(m, signal, i);
        },
        EventView::Reboot(signal) => {
            if !m.allow_reboot {
                lemma_terminate_finishes(m, signal, i);
            }
        },
        EventView::Child(pid, status) => {
            if m.pids.contains_key(pid) {
                let j = m.pids[pid] as int;
                assert(m.running(j));
                reveal_with_fuel(finishes, 2);
            } else {
                reveal_with_fuel(finishes, 2);
            }
        },
        EventView::Started(name, pid) => {},
        EventView::Failed(name) => {},
    }
}

/// Starts say of nobody that it leaves.
pub proof fn lemma_starts_finish_nobody(actions: Seq<ActionView>, name: Seq<char>, n: int)
    requires
        0 <= n <= actions.len(),
        forall|k: int| 0 <= k < actions.len() ==> (#[trigger] actions[k]) is Start,
    ensures
        finishes(actions, name, n) == 0,
    decreases n,
{
    if n > 0 {
        lemma_starts_finish_nobody(actions, name, n - 1);
    }
}

/// At a terminate signal a process is said to leave exactly if it does.
pub proof fn lemma_terminate_finishes<E: Executor>(m: MonitorView<E>, signal: i32, i: int)
    requires
        m.wf(),
        0 <= i < m.processes.len(),
    ensures
        ({
            let s = m.on_terminate(signal);
            &&& s.next.processes.len() == m.processes.len()
            &&& s.next.processes[i].name == m.processes[i].name
            &&& m.processes[i].removed ==> s.next.processes[i].removed
            &&& finishes(s.actions, m.processes[i].name, s.actions.len() as int) == (if 
                !m.processes[i].removed && s.next.processes[i].removed {
                1int
            } else {
                0int
            })
        }),
{
    let n = m.processes.len() as int;
    let name = m.processes[i].name;
    lemma_kills_finish_nobody(m, signal, n, name);
    lemma_farewells_finish_once(m, n, i);
    lemma_finishes_concat(m.kills(signal, n), m.farewells(n), name, m.farewells(n).len() as int);
}

/// Over a whole run a process is said to leave supervision once if it
/// has left by the end, and never otherwise.
pub proof fn law_finish_once_run<E: Executor>(
    m: MonitorView<E>,
    events: Seq<(i64, EventView)>,
    n: int,
    i: int,
)
    requires
        m.wf(),
        0 <= n <= events.len(),
        0 <= i < m.processes.len(),
        !m.processes[i].removed,
    ensures
        ({
            let r = m.run(events, n);
            &&& r.next.processes.len() == m.processes.len()
            &&& r.next.processes[i].name == m.processes[i].name
            &&& finishes(r.actions, m.processes[i].name, r.actions.len() as int) == (if 
                r.next.processes[i].removed {
                1int
            } else {
                0int
            })
        }),
    decreases n,
{
    if n > 0 {
        law_finish_once_run(m, events, n - 1, i);
        lemma_run_wf(m, events, n - 1);
        let before = m.run(events, n - 1);
        if before.result is None {
            let s = before.next.step(events[n - 1].1, events[n - 1].0);
            law_finish_once(before.next, events[n - 1].1, events[n - 1].0, i);
            lemma_finishes_concat(
                before.actions,
                s.actions,
                m.processes[i].name,
                s.actions.len() as int,
            );
        }
    }
}

} // verus!
