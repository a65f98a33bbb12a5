//! The supervisor: a table of processes, the index from process ids to its
//! slots, and the restart scheduler, moved from state to state by events.
//!
//! The monitor does no work on the system itself. `step` takes one event (a
//! timer running out, a signal, a child's exit, the outcome of a start) and
//! answers with the actions that the caller has to carry out.

use crate::command::{opt_text, Command, CommandView};
use crate::monitor_proofs::{
    lemma_added_wf, lemma_child_wf, lemma_queued_pending, lemma_run_ended, lemma_same_core,
    lemma_started_wf, lemma_terminate_wf, lemma_with_stray,
};
use crate::scheduler::{
    distinct, first_later, lemma_first_later, queued, sorted, time_of, with_entry, without,
    QueueEntry, Scheduler,
};
use crate::text::same_text;
use std::collections::HashMap;
use vstd::prelude::*;
use vstd::string::*;

verus! {

broadcast use vstd::std_specs::hash::group_hash_axioms;

/// How a run of the monitor ended.
#[derive(Clone, Copy, Debug, PartialEq, Eq, Structural)]
pub enum MonitorResult {
    /// Every supervised process is gone.
    Killed,
    /// The supervisor is to replace its own image; its children stay.
    Reboot,
}

/// What to do when a process leaves supervision for good.
#[derive(Clone, Debug, PartialEq, Eq)]
pub struct Finish {
    /// The directory to remove, with all that is in it.
    pub remove_dir: Option<String>,
    /// Whether the process must not be started again after it exits.
    pub suppress_restart: bool,
}

/// A `Finish`, with its directory as a sequence of characters.
pub struct FinishView {
    pub remove_dir: Option<Seq<char>>,
    pub suppress_restart: bool,
}

impl View for Finish {
    type V = FinishView;

    open spec fn view(&self) -> FinishView {
        FinishView { remove_dir: opt_text(self.remove_dir), suppress_restart: self.suppress_restart }
    }
}

/// What the monitor needs of a unit that it supervises.
///
/// The three answers depend on the unit alone. `prepare` is carried out
/// before every start attempt, `finish` once, when the unit leaves
/// supervision for good.
pub trait Executor {
    /// Whether the unit can be started at all.
    spec fn spawnable(&self) -> bool;

    spec fn command_view(&self) -> CommandView;

    spec fn prepare_view(&self) -> Option<Seq<char>>;

    spec fn finish_view(&self) -> FinishView;

    fn can_spawn(&self) -> (b: bool)
        ensures
            b == self.spawnable(),
    ;

    /// How to start the unit.
    fn command(&self) -> (c: Command)
        requires
            self.spawnable(),
        ensures
            c@ == self.command_view(),
    ;

    /// The directory that has to exist before the unit is started.
    fn prepare(&self) -> (dir: Option<String>)
        ensures
            opt_text(dir) == self.prepare_view(),
    ;

    fn finish(&self) -> (f: Finish)
        ensures
            f@ == self.finish_view(),
    ;
}

/// One supervised process.
pub struct Process<E> {
    name: String,
    current_pid: Option<i32>,
    start_time: Option<i64>,
    restart_timeout: u32,
    executor: E,
    removed: bool,
}

/// What the table holds of one process.
pub struct ProcessView<E> {
    pub name: Seq<char>,
    pub current_pid: Option<i32>,
    /// When the process was last started.
    pub start_time: Option<i64>,
    /// Seconds between a start and the next start attempt.
    pub restart_timeout: u32,
    pub executor: E,
    /// Whether the process has left supervision.
    pub removed: bool,
}

impl<E> View for Process<E> {
    type V = ProcessView<E>;

    closed spec fn view(&self) -> ProcessView<E> {
        ProcessView {
            name: self.name@,
            current_pid: self.current_pid,
            start_time: self.start_time,
            restart_timeout: self.restart_timeout,
            executor: self.executor,
            removed: self.removed,
        }
    }
}

/// A process that was found running, is not supervised and was told to go.
pub struct Stray<E> {
    pid: i32,
    name: String,
    executor: E,
}

/// What the monitor holds of one stray.
pub struct StrayView<E> {
    pub pid: i32,
    pub name: Seq<char>,
    pub executor: E,
}

impl<E> View for Stray<E> {
    type V = StrayView<E>;

    closed spec fn view(&self) -> StrayView<E> {
        StrayView { pid: self.pid, name: self.name@, executor: self.executor }
    }
}

/// The supervisor's state: the process table, the pid index, the restart
/// scheduler and the strays.
pub struct Monitor<E: Executor> {
    myname: String,
    processes: Vec<Process<E>>,
    start_queue: Scheduler,
    pids: HashMap<i32, usize>,
    strays: Vec<Stray<E>>,
    allow_reboot: bool,
    shutting_down: bool,
}

/// The monitor as the contracts speak of it.
pub struct MonitorView<E> {
    pub myname: Seq<char>,
    /// The process table. A slot keeps its process for good.
    pub processes: Seq<ProcessView<E>>,
    /// The restart scheduler.
    pub start_queue: Seq<QueueEntry>,
    /// The pid index: the slot of each running process.
    pub pids: Map<i32, usize>,
    pub strays: Seq<StrayView<E>>,
    pub allow_reboot: bool,
    pub shutting_down: bool,
}

/// Why `add` refused a process.
#[derive(Clone, Copy, Debug, PartialEq, Eq, Structural)]
pub enum AddError {
    /// The name is, or once was, in the table.
    Duplicate,
    /// The pid belongs to a process of the table.
    PidInUse,
    /// The unit cannot be started.
    NotSpawnable,
    /// The monitor is shutting down.
    ShuttingDown,
}

/// The time of the next start attempt after a start at `from`: `timeout`
/// seconds later, or the last moment that an `i64` can hold.
pub open spec fn backoff(from: i64, timeout: u32) -> i64 {
    if from + timeout > i64::MAX {
        i64::MAX
    } else {
        (from + timeout) as i64
    }
}

/// The time of the next start attempt after a start at `from`.
pub fn backoff_time(from: i64, timeout: u32) -> (t: i64)
    ensures
        t == backoff(from, timeout),
{
    if from > i64::MAX - (timeout as i64) {
        i64::MAX
    } else {
        from + (timeout as i64)
    }
}

/// What can happen to the monitor.
#[derive(Clone, Debug, PartialEq, Eq)]
pub enum Event {
    /// The time of the earliest scheduled start has come.
    Timeout,
    /// A signal that asks the supervisor to stop.
    Terminate(i32),
    /// A child with this pid has exited with this status.
    Child(i32, i32),
    /// A request to replace the supervisor's image, made by this signal.
    Reboot(i32),
    /// The start of the named process succeeded and gave this pid.
    Started(String, i32),
    /// The start of the named process failed.
    Failed(String),
}

/// An event, with its name as a sequence of characters.
pub enum EventView {
    Timeout,
    Terminate(i32),
    Child(i32, i32),
    Reboot(i32),
    Started(Seq<char>, i32),
    Failed(Seq<char>),
}

impl View for Event {
    type V = EventView;

    open spec fn view(&self) -> EventView {
        match *self {
            Event::Timeout => EventView::Timeout,
            Event::Terminate(signal) => EventView::Terminate(signal),
            Event::Child(pid, status) => EventView::Child(pid, status),
            Event::Reboot(signal) => EventView::Reboot(signal),
            Event::Started(name, pid) => EventView::Started(name@, pid),
            Event::Failed(name) => EventView::Failed(name@),
        }
    }
}

/// What the monitor asks its caller to do.
#[derive(Clone, Debug, PartialEq, Eq)]
pub enum Action {
    /// Create `prepare`, if any, then start `command`, and report
    /// `Started` or `Failed` under `name`.
    Start { name: String, prepare: Option<String>, command: Command },
    /// Send `signal` to `pid`.
    Kill { pid: i32, signal: i32 },
    /// `name` has left supervision: remove `remove_dir`, if any.
    Finish { name: String, remove_dir: Option<String> },
    /// The stray `pid` has exited: remove `remove_dir`, if any.
    Stray { pid: i32, name: String, remove_dir: Option<String> },
    /// A process that the monitor does not know has exited.
    Unknown { pid: i32, status: i32 },
}

/// An action, with its texts as sequences of characters.
pub enum ActionView {
    Start { name: Seq<char>, prepare: Option<Seq<char>>, command: CommandView },
    Kill { pid: i32, signal: i32 },
    Finish { name: Seq<char>, remove_dir: Option<Seq<char>> },
    Stray { pid: i32, name: Seq<char>, remove_dir: Option<Seq<char>> },
    Unknown { pid: i32, status: i32 },
}

impl View for Action {
    type V = ActionView;

    open spec fn view(&self) -> ActionView {
        match *self {
            Action::Start { name, prepare, command } => ActionView::Start {
                name: name@,
                prepare: opt_text(prepare),
                command: command@,
            },
            Action::Kill { pid, signal } => ActionView::Kill { pid, signal },
            Action::Finish { name, remove_dir } => ActionView::Finish {
                name: name@,
                remove_dir: opt_text(remove_dir),
            },
            Action::Stray { pid, name, remove_dir } => ActionView::Stray {
                pid,
                name: name@,
                remove_dir: opt_text(remove_dir),
            },
            Action::Unknown { pid, status } => ActionView::Unknown { pid, status },
        }
    }
}

/// The views of a sequence of actions.
pub open spec fn actions_view(v: Seq<Action>) -> Seq<ActionView> {
    Seq::new(v.len(), |i: int| v[i]@)
}

/// The answer to one event.
#[derive(Clone, Debug, PartialEq, Eq)]
pub struct Step {
    pub actions: Vec<Action>,
    /// Set when the run is over.
    pub result: Option<MonitorResult>,
}

/// The answer to a sequence of events.
#[derive(Clone, Debug, PartialEq, Eq)]
pub struct Run {
    pub actions: Vec<Action>,
    pub result: Option<MonitorResult>,
    /// How many events were taken.
    pub consumed: usize,
}

/// The answer to one event: the state after it, what is to be done, and
/// how the run ended if it did.
pub struct StepView<E> {
    pub next: MonitorView<E>,
    pub actions: Seq<ActionView>,
    pub result: Option<MonitorResult>,
}

impl<E: Executor> MonitorView<E> {
    /// Whether slot `i` holds a process under supervision.
    pub open spec fn live(self, i: int) -> bool {
        0 <= i < self.processes.len() && !self.processes[i].removed
    }

    /// Waiting to be started.
    pub open spec fn pending(self, i: int) -> bool {
        self.live(i) && self.processes[i].current_pid is None
    }

    /// Whether slot `i` holds a process with a pid.
    pub open spec fn running(self, i: int) -> bool {
        0 <= i < self.processes.len() && self.processes[i].current_pid is Some
    }

    /// Whether a slot of the table carries `name`.
    pub open spec fn known(self, name: Seq<char>) -> bool {
        exists|i: int| 0 <= i < self.processes.len() && #[trigger] self.processes[i].name == name
    }

    /// The slot that carries `name`, where one does.
    pub open spec fn slot_of(self, name: Seq<char>) -> int {
        choose|i: int| 0 <= i < self.processes.len() && #[trigger] self.processes[i].name == name
    }

    /// Whether `name` is under supervision.
    pub open spec fn has(self, name: Seq<char>) -> bool {
        self.known(name) && !self.processes[self.slot_of(name)].removed
    }

    /// How many of the first `n` slots hold a process under supervision.
    pub open spec fn count_live(self, n: int) -> int
        decreases n,
    {
        if n <= 0 {
            0
        } else if self.live(n - 1) {
            self.count_live(n - 1) + 1
        } else {
            self.count_live(n - 1)
        }
    }

    /// Whether no process has left supervision yet.
    pub open spec fn none_left(self) -> bool {
        forall|i: int| 0 <= i < self.processes.len() ==> !(#[trigger] self.processes[i]).removed
    }

    /// Whether any process is under supervision.
    pub open spec fn any_live(self) -> bool {
        exists|i: int| #[trigger] self.live(i)
    }

    /// Whether the table, the pid index and the scheduler fit together: no
    /// name is in the table twice; the pid index holds the pids of the running
    /// processes and leads from each to its slot; the scheduler is in order and
    /// holds the processes that wait for a start, each once, as long as the
    /// monitor is not shutting down, and nothing from then on.
    pub open spec fn wf(self) -> bool {
        &&& self.processes.len() <= usize::MAX
        &&& forall|i: int, j: int|
            0 <= i < self.processes.len() && 0 <= j < self.processes.len()
                && self.processes[i].name == self.processes[j].name ==> i == j
        &&& forall|i: int| #[trigger]
            self.running(i) ==> {
                let p = self.processes[i].current_pid->0;
                &&& self.pids.contains_key(p)
                &&& self.pids[p] == i
                &&& !self.processes[i].removed
                &&& self.processes[i].start_time is Some
            }
        &&& forall|p: i32| #[trigger]
            self.pids.contains_key(p) ==> self.pids[p] < self.processes.len()
                && self.processes[self.pids[p] as int].current_pid == Some(p)
        &&& forall|i: int| #[trigger] self.live(i) ==> self.processes[i].executor.spawnable()
        &&& sorted(self.start_queue)
        &&& distinct(self.start_queue)
        &&& forall|k: int|
            0 <= k < self.start_queue.len() ==> self.pending(
                (#[trigger] self.start_queue[k]).slot as int,
            )
        &&& !self.shutting_down ==> forall|i: int| #[trigger]
            self.pending(i) ==> queued(self.start_queue, i as usize)
        &&& self.shutting_down ==> self.start_queue.len() == 0 && forall|i: int|
            !#[trigger] self.pending(i)
    }

    /// The state after a successful `add`.
    pub open spec fn added(
        self,
        name: Seq<char>,
        executor: E,
        timeout: u32,
        current: Option<(i32, i64)>,
    ) -> MonitorView<E> {
        let slot = self.processes.len() as usize;
        match current {
            Some((pid, time)) => MonitorView {
                processes: self.processes.push(
                    ProcessView {
                        name,
                        current_pid: Some(pid),
                        start_time: Some(time),
                        restart_timeout: timeout,
                        executor,
                        removed: false,
                    },
                ),
                pids: self.pids.insert(pid, slot),
                ..self
            },
            None => MonitorView {
                processes: self.processes.push(
                    ProcessView {
                        name,
                        current_pid: None,
                        start_time: None,
                        restart_timeout: timeout,
                        executor,
                        removed: false,
                    },
                ),
                start_queue: with_entry(self.start_queue, QueueEntry { time: 0, slot }),
                ..self
            },
        }
    }

    /// What `add` answers.
    pub open spec fn add_verdict(
        self,
        name: Seq<char>,
        executor: E,
        current: Option<(i32, i64)>,
    ) -> Result<(), AddError> {
        if self.shutting_down {
            Err(AddError::ShuttingDown)
        } else if self.known(name) {
            Err(AddError::Duplicate)
        } else if !executor.spawnable() {
            Err(AddError::NotSpawnable)
        } else if current is Some && self.pids.contains_key((current->0).0) {
            Err(AddError::PidInUse)
        } else {
            Ok(())
        }
    }
}

impl<E: Executor> MonitorView<E> {
    /// The start of the process in `slot`.
    pub open spec fn start_action(self, slot: int) -> ActionView {
        ActionView::Start {
            name: self.processes[slot].name,
            prepare: self.processes[slot].executor.prepare_view(),
            command: self.processes[slot].executor.command_view(),
        }
    }

    /// The leave of the process in `slot`.
    pub open spec fn finish_action(self, slot: int) -> ActionView {
        ActionView::Finish {
            name: self.processes[slot].name,
            remove_dir: self.processes[slot].executor.finish_view().remove_dir,
        }
    }

    /// One start for every entry of the scheduler that is due at `now`,
    /// in the scheduler's order.
    pub open spec fn due_actions(self, now: i64) -> Seq<ActionView> {
        Seq::new(
            first_later(self.start_queue, now, 0) as nat,
            |k: int| self.start_action(self.start_queue[k].slot as int),
        )
    }

    /// `signal` for every running process among the first `n` of the table.
    pub open spec fn kills(self, signal: i32, n: int) -> Seq<ActionView>
        decreases n,
    {
        if n <= 0 {
            Seq::empty()
        } else {
            let before = self.kills(signal, n - 1);
            match self.processes[n - 1].current_pid {
                Some(pid) => before.push(ActionView::Kill { pid, signal }),
                None => before,
            }
        }
    }

    /// The leave of every waiting process among the first `n` of the table.
    pub open spec fn farewells(self, n: int) -> Seq<ActionView>
        decreases n,
    {
        if n <= 0 {
            Seq::empty()
        } else if self.pending(n - 1) {
            self.farewells(n - 1).push(self.finish_action(n - 1))
        } else {
            self.farewells(n - 1)
        }
    }

    /// The table after every waiting process of its first `n` has left.
    pub open spec fn retired(self, n: int) -> Seq<ProcessView<E>> {
        Seq::new(
            self.processes.len(),
            |i: int|
                if i < n && self.pending(i) {
                    ProcessView { removed: true, ..self.processes[i] }
                } else {
                    self.processes[i]
                },
        )
    }

    /// The first position at or after `from` of a stray with this pid, or
    /// the number of strays when there is none.
    pub open spec fn stray_find(self, pid: i32, from: int) -> int
        decreases self.strays.len() - from,
    {
        if 0 <= from < self.strays.len() && self.strays[from].pid != pid {
            self.stray_find(pid, from + 1)
        } else {
            from
        }
    }

    /// Whether `pid` is a process of the table or a stray.
    pub open spec fn tracks(self, pid: i32) -> bool {
        self.pids.contains_key(pid) || self.stray_find(pid, 0) < self.strays.len()
    }

    /// The state with one more stray.
    pub open spec fn with_stray(self, pid: i32, name: Seq<char>, executor: E) -> MonitorView<E> {
        MonitorView { strays: self.strays.push(StrayView { pid, name, executor }), ..self }
    }

    /// Whether a stray carries `name`.
    pub open spec fn stray_named(self, name: Seq<char>) -> bool {
        exists|k: int| 0 <= k < self.strays.len() && #[trigger] self.strays[k].name == name
    }

    /// The pid under which `name` runs.
    pub open spec fn pid_of(self, name: Seq<char>) -> Option<i32> {
        if self.known(name) {
            self.processes[self.slot_of(name)].current_pid
        } else {
            None
        }
    }

    /// The time of the next start attempt of `name`.
    pub open spec fn next_start_of(self, name: Seq<char>) -> Option<i64> {
        if self.known(name) {
            time_of(self.start_queue, self.slot_of(name) as usize)
        } else {
            None
        }
    }

    /// `Killed` once the monitor is shutting down and nothing is left.
    pub open spec fn verdict(self) -> Option<MonitorResult> {
        if self.shutting_down && !self.any_live() {
            Some(MonitorResult::Killed)
        } else {
            None
        }
    }

    /// No change and nothing to do.
    pub open spec fn unmoved(self) -> StepView<E> {
        StepView { next: self, actions: Seq::empty(), result: self.verdict() }
    }

    /// The state with the next start of `slot` put off to `time`.
    pub open spec fn rescheduled(self, slot: int, time: i64) -> MonitorView<E> {
        MonitorView {
            start_queue: with_entry(
                without(self.start_queue, slot as usize),
                QueueEntry { time, slot: slot as usize },
            ),
            ..self
        }
    }

    /// The timer: every process that is due is to be started. The
    /// scheduler keeps an entry until the outcome of the start is known, so
    /// that no process is ever both out of the scheduler and without a pid.
    pub open spec fn on_timeout(self, now: i64) -> StepView<E> {
        if self.shutting_down {
            self.unmoved()
        } else {
            StepView { next: self, actions: self.due_actions(now), result: None }
        }
    }

    /// A terminate signal: it is passed on to every running process, every
    /// waiting process leaves supervision, the scheduler is emptied, and
    /// from now on the monitor only waits for the running ones to exit.
    pub open spec fn on_terminate(self, signal: i32) -> StepView<E> {
        let n = self.processes.len() as int;
        let next = MonitorView {
            processes: self.retired(n),
            start_queue: Seq::empty(),
            shutting_down: true,
            ..self
        };
        StepView {
            next,
            actions: self.kills(signal, n) + self.farewells(n),
            result: next.verdict(),
        }
    }

    /// A reboot request: where a reboot is permitted the run ends at once
    /// and nothing is touched; where it is not, the request is a terminate
    /// signal.
    pub open spec fn on_reboot(self, signal: i32) -> StepView<E> {
        if self.allow_reboot {
            StepView { next: self, actions: Seq::empty(), result: Some(MonitorResult::Reboot) }
        } else {
            self.on_terminate(signal)
        }
    }

    /// The exit of a child. A process of the table loses its pid; it
    /// leaves supervision if the monitor is shutting down or its unit is
    /// not to be started again, and else waits for its next start, which
    /// is due one restart timeout after its last. When the last process has
    /// left, the run ends. A stray is forgotten; any other pid is unknown.
    pub open spec fn on_child(self, pid: i32, status: i32) -> StepView<E> {
        if self.pids.contains_key(pid) {
            let i = self.pids[pid] as int;
            let p = self.processes[i];
            if self.shutting_down || p.executor.finish_view().suppress_restart {
                let next = MonitorView {
                    processes: self.processes.update(
                        i,
                        ProcessView { current_pid: None, removed: true, ..p },
                    ),
                    pids: self.pids.remove(pid),
                    ..self
                };
                StepView {
                    next,
                    actions: seq![self.finish_action(i)],
                    result: if next.any_live() {
                        None
                    } else {
                        Some(MonitorResult::Killed)
                    },
                }
            } else {
                let next = MonitorView {
                    processes: self.processes.update(i, ProcessView { current_pid: None, ..p }),
                    pids: self.pids.remove(pid),
                    ..self
                };
                StepView {
                    next: next.rescheduled(i, backoff(p.start_time->0, p.restart_timeout)),
                    actions: Seq::empty(),
                    result: None,
                }
            }
        } else {
            let k = self.stray_find(pid, 0);
            if k < self.strays.len() {
                StepView {
                    next: MonitorView { strays: self.strays.remove(k), ..self },
                    actions: seq![
                        ActionView::Stray {
                            pid,
                            name: self.strays[k].name,
                            remove_dir: self.strays[k].executor.finish_view().remove_dir,
                        },
                    ],
                    result: self.verdict(),
                }
            } else {
                StepView {
                    next: self,
                    actions: seq![ActionView::Unknown { pid, status }],
                    result: self.verdict(),
                }
            }
        }
    }

    /// Whether the outcome of a start of `name` is awaited.
    pub open spec fn awaits(self, name: Seq<char>) -> bool {
        !self.shutting_down && self.known(name) && self.pending(self.slot_of(name))
    }

    /// A failed start: the next attempt is due one restart timeout from
    /// now. The process is never given up.
    pub open spec fn on_failed(self, name: Seq<char>, now: i64) -> StepView<E> {
        if self.awaits(name) {
            let i = self.slot_of(name);
            StepView {
                next: self.rescheduled(i, backoff(now, self.processes[i].restart_timeout)),
                actions: Seq::empty(),
                result: None,
            }
        } else {
            self.unmoved()
        }
    }

    /// A start that succeeded: the process runs under `pid` since `now`
    /// and leaves the scheduler. A pid that the table holds already cannot
    /// be that of a new process: such a start counts as failed.
    pub open spec fn on_started(self, name: Seq<char>, pid: i32, now: i64) -> StepView<E> {
        if self.awaits(name) && !self.pids.contains_key(pid) {
            let i = self.slot_of(name);
            StepView {
                next: MonitorView {
                    processes: self.processes.update(
                        i,
                        ProcessView {
                            current_pid: Some(pid),
                            start_time: Some(now),
                            ..self.processes[i]
                        },
                    ),
                    pids: self.pids.insert(pid, i as usize),
                    start_queue: without(self.start_queue, i as usize),
                    ..self
                },
                actions: Seq::empty(),
                result: None,
            }
        } else {
            self.on_failed(name, now)
        }
    }

    /// The answer to `event`, which arrives at `now`.
    pub open spec fn step(self, event: EventView, now: i64) -> StepView<E> {
        match event {
            EventView::Timeout => self.on_timeout(now),
            EventView::Terminate(signal) => self.on_terminate(signal),
            EventView::Child(pid, status) => self.on_child(pid, status),
            EventView::Reboot(signal) => self.on_reboot(signal),
            EventView::Started(name, pid) => self.on_started(name, pid, now),
            EventView::Failed(name) => self.on_failed(name, now),
        }
    }
}

/// The answer to a sequence of events.
pub struct RunView<E> {
    pub next: MonitorView<E>,
    pub actions: Seq<ActionView>,
    pub result: Option<MonitorResult>,
    /// How many events were taken.
    pub consumed: int,
}

/// The views of a sequence of events with their times.
pub open spec fn events_view(v: Seq<(i64, Event)>) -> Seq<(i64, EventView)> {
    Seq::new(v.len(), |i: int| (v[i].0, v[i].1@))
}

impl<E: Executor> MonitorView<E> {
    /// The monitor fed with the first `n` of `events`, each with the time
    /// at which it arrives, up to and with the first that ends the run.
    pub open spec fn run(self, events: Seq<(i64, EventView)>, n: int) -> RunView<E>
        decreases n,
    {
        if n <= 0 {
            RunView { next: self, actions: Seq::empty(), result: None, consumed: 0 }
        } else {
            let before = self.run(events, n - 1);
            if before.result is Some {
                before
            } else {
                let s = before.next.step(events[n - 1].1, events[n - 1].0);
                RunView {
                    next: s.next,
                    actions: before.actions + s.actions,
                    result: s.result,
                    consumed: n,
                }
            }
        }
    }
}

/// A process to put under supervision.
pub struct NewProcess<E> {
    pub name: Seq<char>,
    pub executor: E,
    pub timeout: u32,
    pub current: Option<(i32, i64)>,
}

impl<E: Executor> MonitorView<E> {
    /// The state after `add` was called for each of the first `n` of
    /// `items`, in order.
    pub open spec fn with_all(self, items: Seq<NewProcess<E>>, n: int) -> MonitorView<E>
        decreases n,
    {
        if n <= 0 {
            self
        } else {
            let m = self.with_all(items, n - 1);
            let it = items[n - 1];
            if m.add_verdict(it.name, it.executor, it.current) is Ok {
                m.added(it.name, it.executor, it.timeout, it.current)
            } else {
                m
            }
        }
    }

    /// Whether the `k`-th `add` of `items` was accepted.
    pub open spec fn accepted(self, items: Seq<NewProcess<E>>, k: int) -> bool {
        let it = items[k];
        self.with_all(items, k).add_verdict(it.name, it.executor, it.current) is Ok
    }

    /// No process waits for a start attempt that comes sooner than its
    /// restart timeout after its last start.
    pub open spec fn backoff_kept(self) -> bool {
        forall|i: int|
            0 <= i < self.processes.len() && self.processes[i].start_time is Some && queued(
                self.start_queue,
                i as usize,
            ) ==> time_of(self.start_queue, i as usize)->0 >= backoff(
                (#[trigger] self.processes[i]).start_time->0,
                self.processes[i].restart_timeout,
            )
    }

    /// No process was started after `now`.
    pub open spec fn started_by(self, now: i64) -> bool {
        forall|i: int|
            0 <= i < self.processes.len() && (#[trigger] self.processes[i]).start_time is Some
                ==> self.processes[i].start_time->0 <= now
    }
}

/// The events come in the order of their times.
pub open spec fn in_order(events: Seq<(i64, EventView)>) -> bool {
    forall|i: int, j: int| 0 <= i <= j < events.len() ==> events[i].0 <= events[j].0
}

/// How often the first `n` of `actions` say that `name` has left
/// supervision.
pub open spec fn finishes(actions: Seq<ActionView>, name: Seq<char>, n: int) -> int
    decreases n,
{
    if n <= 0 {
        0
    } else {
        finishes(actions, name, n - 1) + (if actions[n - 1] matches ActionView::Finish {
            name: x,
            ..
        } && x == name {
            1int
        } else {
            0int
        })
    }
}

impl<E: Executor> View for Monitor<E> {
    type V = MonitorView<E>;

    closed spec fn view(&self) -> MonitorView<E> {
        MonitorView {
            myname: self.myname@,
            processes: Seq::new(self.processes.len() as nat, |i: int| self.processes[i]@),
            start_queue: self.start_queue@,
            pids: self.pids@,
            strays: Seq::new(self.strays.len() as nat, |i: int| self.strays[i]@),
            allow_reboot: self.allow_reboot,
            shutting_down: self.shutting_down,
        }
    }
}

impl<E: Executor> Monitor<E> {
    /// Whether the table, the pid index and the scheduler fit together.
    pub open spec fn wf(&self) -> bool {
        self@.wf()
    }

    /// A monitor that supervises nothing and does not permit a reboot.
    pub fn new(name: String) -> (m: Monitor<E>)
        ensures
            m.wf(),
            m@ == (MonitorView::<E> {
                myname: name@,
                processes: Seq::empty(),
                start_queue: Seq::empty(),
                pids: Map::empty(),
                strays: Seq::empty(),
                allow_reboot: false,
                shutting_down: false,
            }),
    {
        let m = Monitor {
            myname: name,
            processes: Vec::new(),
            start_queue: Scheduler::new(),
            pids: HashMap::new(),
            strays: Vec::new(),
            allow_reboot: false,
            shutting_down: false,
        };
        assert(m@.processes =~= Seq::empty());
        assert(m@.strays =~= Seq::empty());
        m
    }

    /// From now on a reboot request ends the run at once.
    pub fn allow_reboot(&mut self)
        ensures
            final(self)@ == (MonitorView { allow_reboot: true, ..old(self)@ }),
            old(self).wf() ==> final(self).wf(),
    {
        self.allow_reboot = true;
        proof {
            if old(self).wf() {
                lemma_same_core(old(self)@, self@);
            }
        }
    }

    /// The slot that carries `name`.
    fn find(&self, name: &str) -> (r: Option<usize>)
        ensures
            match r {
                Some(i) => i < self@.processes.len() && self@.processes[i as int].name == name@,
                None => !self@.known(name@),
            },
    {
        let mut i: usize = 0;
        while i < self.processes.len()
            invariant
                i <= self.processes.len(),
                forall|k: int| 0 <= k < i ==> self@.processes[k].name != name@,
            decreases self.processes.len() - i,
        {
            if same_text(self.processes[i].name.as_str(), name) {
                return Some(i);
            }
            i += 1;
        }
        None
    }

    /// Whether a slot of the table carries `name`, be it of a process that
    /// has left supervision.
    pub fn knows(&self, name: &str) -> (b: bool)
        ensures
            b == self@.known(name@),
    {
        match self.find(name) {
            Some(i) => {
                assert(self@.known(name@));
                true
            },
            None => false,
        }
    }

    /// Whether `name` is under supervision.
    pub fn has(&self, name: &str) -> (b: bool)
        requires
            self.wf(),
        ensures
            b == self@.has(name@),
    {
        match self.find(name) {
            Some(i) => {
                assert(self@.known(name@));
                !self.processes[i].removed
            },
            None => false,
        }
    }

    /// Puts a process under supervision: as running, where `current` gives
    /// its pid and the time of its start, or else as waiting for its first
    /// start, which is due at once.
    pub fn add(
        &mut self,
        name: String,
        executor: E,
        timeout: u32,
        current: Option<(i32, i64)>,
    ) -> (r: Result<(), AddError>)
        requires
            old(self).wf(),
        ensures
            final(self).wf(),
            r == old(self)@.add_verdict(name@, executor, current),
            final(self)@ == (if r is Ok {
                old(self)@.added(name@, executor, timeout, current)
            } else {
                old(self)@
            }),
    {
        if self.shutting_down {
            return Err(AddError::ShuttingDown);
        }
        if self.find(name.as_str()).is_some() {
            assert(self@.known(name@));
            return Err(AddError::Duplicate);
        }
        if !executor.can_spawn() {
            return Err(AddError::NotSpawnable);
        }
        let slot: usize = self.processes.len();
        match current {
            Some((pid, time)) => {
                if self.pids.contains_key(&pid) {
                    return Err(AddError::PidInUse);
                }
                self.pids.insert(pid, slot);
                self.processes.push(
                    Process {
                        name,
                        current_pid: Some(pid),
                        start_time: Some(time),
                        restart_timeout: timeout,
                        executor,
                        removed: false,
                    },
                );
            },
            None => {
                proof {
                    if queued(self@.start_queue, slot) {
                        lemma_queued_pending(self@, slot);
                    }
                }
                self.start_queue.insert(0, slot);
                self.processes.push(
                    Process {
                        name,
                        current_pid: None,
                        start_time: None,
                        restart_timeout: timeout,
                        executor,
                        removed: false,
                    },
                );
            },
        }
        proof {
            assert(slot < usize::MAX) by {
                vstd::std_specs::vec::axiom_spec_len(&self.processes);
            }
            assert(self@.processes =~= old(self)@.added(
                name@,
                executor,
                timeout,
                current,
            ).processes);
            lemma_added_wf(old(self)@, name@, executor, timeout, current);
        }
        Ok(())
    }
    fn any_live(&self) -> (b: bool)
        ensures
            b == self@.any_live(),
    {
        let mut i: usize = 0;
        while i < self.processes.len()
            invariant
                i <= self.processes.len(),
                forall|k: int| 0 <= k < i ==> !self@.live(k),
            decreases self.processes.len() - i,
        {
            if !self.processes[i].removed {
                assert(self@.live(i as int));
                return true;
            }
            i += 1;
        }
        assert forall|k: int| !#[trigger] self@.live(k) by {}
        false
    }

    fn verdict(&self) -> (r: Option<MonitorResult>)
        ensures
            r == self@.verdict(),
    {
        if self.shutting_down && !self.any_live() {
            Some(MonitorResult::Killed)
        } else {
            None
        }
    }

    fn unmoved(&self) -> (r: Step)
        ensures
            actions_view(r.actions@) == self@.unmoved().actions,
            r.result == self@.unmoved().result,
    {
        let r = Step { actions: Vec::new(), result: self.verdict() };
        assert(actions_view(r.actions@) =~= Seq::empty());
        r
    }

    /// The time at which the scheduler's earliest entry falls due: until
    /// then nothing is to be started.
    pub fn deadline(&self) -> (t: Option<i64>)
        ensures
            t == (if self@.start_queue.len() > 0 {
                Some(self@.start_queue[0].time)
            } else {
                None
            }),
    {
        self.start_queue.next_time()
    }

    /// The starts that are due at `now`, in the scheduler's order. The
    /// entries stay queued until the outcome of each start is reported.
    pub fn start_processes(&self, now: i64) -> (actions: Vec<Action>)
        requires
            self.wf(),
        ensures
            actions_view(actions@) == self@.due_actions(now),
    {
        let n: usize = self.start_queue.due_count(now);
        let mut actions: Vec<Action> = Vec::new();
        let mut k: usize = 0;
        proof {
            lemma_first_later(self@.start_queue, now, 0);
        }
        while k < n
            invariant
                self.wf(),
                k <= n <= self@.start_queue.len(),
                n == first_later(self@.start_queue, now, 0),
                actions@.len() == k,
                forall|j: int| 0 <= j < k ==> (#[trigger] actions@[j])@ == self@.start_action(
                    self@.start_queue[j].slot as int,
                ),
            decreases n - k,
        {
            let slot: usize = self.start_queue.entry(k).slot;
            assert(self@.pending(self@.start_queue[k as int].slot as int));
            assert(self@.live(slot as int));
            let p = &self.processes[slot];
            actions.push(
                Action::Start {
                    name: p.name.clone(),
                    prepare: p.executor.prepare(),
                    command: p.executor.command(),
                },
            );
            k += 1;
        }
        assert(actions_view(actions@) =~= self@.due_actions(now));
        actions
    }

    fn terminate(&mut self, signal: i32) -> (r: Step)
        requires
            old(self).wf(),
        ensures
            final(self).wf(),
            final(self)@ == old(self)@.on_terminate(signal).next,
            actions_view(r.actions@) == old(self)@.on_terminate(signal).actions,
            r.result == old(self)@.on_terminate(signal).result,
    {
        let mut actions: Vec<Action> = Vec::new();
        let n: usize = self.processes.len();
        let mut i: usize = 0;
        assert(actions_view(actions@) =~= self@.kills(signal, 0));
        while i < n
            invariant
                i <= n == self.processes.len(),
                actions_view(actions@) == self@.kills(signal, i as int),
            decreases n - i,
        {
            let ghost before = actions_view(actions@);
            match self.processes[i].current_pid {
                Some(pid) => {
                    actions.push(Action::Kill { pid, signal });
                    assert(actions_view(actions@) =~= before.push(
                        ActionView::Kill { pid, signal },
                    ));
                },
                None => {},
            }
            i += 1;
        }
        let ghost kills = actions_view(actions@);
        let mut i: usize = 0;
        assert(self@.processes =~= old(self)@.retired(0));
        assert(kills + old(self)@.farewells(0) =~= kills);
        while i < n
            invariant
                i <= n == self.processes.len(),
                n == old(self)@.processes.len(),
                self@ == (MonitorView { processes: old(self)@.retired(i as int), ..old(self)@ }),
                actions_view(actions@) == kills + old(self)@.farewells(i as int),
            decreases n - i,
        {
            let ghost before = actions_view(actions@);
            let ghost table = self@.processes;
            proof {
                assert(table[i as int] == old(self)@.retired(i as int)[i as int]);
                assert(self.processes[i as int]@ == old(self)@.processes[i as int]);
            }
            if !self.processes[i].removed && self.processes[i].current_pid.is_none() {
                assert(old(self)@.pending(i as int));
                let f = self.processes[i].executor.finish();
                actions.push(
                    Action::Finish { name: self.processes[i].name.clone(), remove_dir: f.remove_dir },
                );
                self.processes[i].removed = true;
                assert(actions_view(actions@) =~= before.push(
                    old(self)@.finish_action(i as int),
                ));
            } else {
                assert(!old(self)@.pending(i as int));
            }
            proof {
                let goal = old(self)@.retired(i + 1);
                assert forall|k: int| 0 <= k < n implies self@.processes[k] == goal[k] by {
                    if k != i {
                        assert(self@.processes[k] == table[k]);
                        assert(table[k] == old(self)@.retired(i as int)[k]);
                    }
                }
                assert(self@.processes =~= goal);
            }
            assert(kills + old(self)@.farewells(i + 1) =~= actions_view(actions@));
            i += 1;
        }
        self.start_queue.clear();
        self.shutting_down = true;
        proof {
            lemma_terminate_wf(old(self)@, signal);
        }
        let result = self.verdict();
        Step { actions, result }
    }

    fn child(&mut self, pid: i32, status: i32) -> (r: Step)
        requires
            old(self).wf(),
        ensures
            final(self).wf(),
            final(self)@ == old(self)@.on_child(pid, status).next,
            actions_view(r.actions@) == old(self)@.on_child(pid, status).actions,
            r.result == old(self)@.on_child(pid, status).result,
    {
        proof {
            lemma_child_wf(self@, pid, status);
        }
        let found: Option<usize> = match self.pids.get(&pid) {
            Some(slot) => Some(*slot),
            None => None,
        };
        let mut actions: Vec<Action> = Vec::new();
        match found {
            Some(i) => {
                assert(self@.running(i as int));
                let f = self.processes[i].executor.finish();
                if self.shutting_down || f.suppress_restart {
                    actions.push(
                        Action::Finish {
                            name: self.processes[i].name.clone(),
                            remove_dir: f.remove_dir,
                        },
                    );
                    self.processes[i].current_pid = None;
                    self.processes[i].removed = true;
                    self.pids.remove(&pid);
                    assert(self@.processes =~= old(self)@.on_child(pid, status).next.processes);
                    assert(actions_view(actions@) =~= old(self)@.on_child(pid, status).actions);
                    let result = if self.any_live() {
                        None
                    } else {
                        Some(MonitorResult::Killed)
                    };
                    Step { actions, result }
                } else {
                    let started: i64 = match self.processes[i].start_time {
                        Some(t) => t,
                        None => 0,
                    };
                    let time = backoff_time(started, self.processes[i].restart_timeout);
                    self.processes[i].current_pid = None;
                    self.pids.remove(&pid);
                    self.start_queue.remove(i);
                    self.start_queue.insert(time, i);
                    assert(self@.processes =~= old(self)@.on_child(pid, status).next.processes);
                    assert(actions_view(actions@) =~= old(self)@.on_child(pid, status).actions);
                    Step { actions, result: None }
                }
            },
            None => {
                let mut k: usize = 0;
                while k < self.strays.len() && self.strays[k].pid != pid
                    invariant
                        *self == *old(self),
                        k <= self.strays.len(),
                        self@.stray_find(pid, 0) == self@.stray_find(pid, k as int),
                    decreases self.strays.len() - k,
                {
                    k += 1;
                }
                let result = self.verdict();
                if k < self.strays.len() {
                    let stray = self.strays.remove(k);
                    let f = stray.executor.finish();
                    actions.push(Action::Stray { pid, name: stray.name, remove_dir: f.remove_dir });
                    assert(self@.strays =~= old(self)@.strays.remove(k as int));
                    assert(self@.processes =~= old(self)@.processes);
                    assert(actions_view(actions@) =~= old(self)@.on_child(pid, status).actions);
                } else {
                    actions.push(Action::Unknown { pid, status });
                    assert(actions_view(actions@) =~= old(self)@.on_child(pid, status).actions);
                }
                Step { actions, result }
            },
        }
    }

    /// The slot that awaits the outcome of a start of `name`.
    fn awaited(&self, name: &str) -> (r: Option<usize>)
        requires
            self.wf(),
        ensures
            match r {
                Some(i) => self@.awaits(name@) && i == self@.slot_of(name@),
                None => !self@.awaits(name@),
            },
    {
        if self.shutting_down {
            return None;
        }
        match self.find(name) {
            Some(i) => {
                assert(self@.known(name@));
                if !self.processes[i].removed && self.processes[i].current_pid.is_none() {
                    Some(i)
                } else {
                    None
                }
            },
            None => None,
        }
    }

    fn failed(&mut self, name: &str, now: i64) -> (r: Step)
        requires
            old(self).wf(),
        ensures
            final(self).wf(),
            final(self)@ == old(self)@.on_failed(name@, now).next,
            actions_view(r.actions@) == old(self)@.on_failed(name@, now).actions,
            r.result == old(self)@.on_failed(name@, now).result,
    {
        proof {
            lemma_started_wf(self@, name@, 0, now);
        }
        match self.awaited(name) {
            Some(i) => {
                let time = backoff_time(now, self.processes[i].restart_timeout);
                self.start_queue.remove(i);
                self.start_queue.insert(time, i);
                let r = Step { actions: Vec::new(), result: None };
                assert(self@.processes =~= old(self)@.processes);
                assert(actions_view(r.actions@) =~= Seq::empty());
                r
            },
            None => self.unmoved(),
        }
    }

    fn started(&mut self, name: &str, pid: i32, now: i64) -> (r: Step)
        requires
            old(self).wf(),
        ensures
            final(self).wf(),
            final(self)@ == old(self)@.on_started(name@, pid, now).next,
            actions_view(r.actions@) == old(self)@.on_started(name@, pid, now).actions,
            r.result == old(self)@.on_started(name@, pid, now).result,
    {
        proof {
            lemma_started_wf(self@, name@, pid, now);
        }
        if self.pids.contains_key(&pid) {
            return self.failed(name, now);
        }
        match self.awaited(name) {
            Some(i) => {
                self.processes[i].current_pid = Some(pid);
                self.processes[i].start_time = Some(now);
                self.pids.insert(pid, i);
                self.start_queue.remove(i);
                let r = Step { actions: Vec::new(), result: None };
                assert(self@.processes =~= old(self)@.on_started(name@, pid, now).next.processes);
                assert(actions_view(r.actions@) =~= Seq::empty());
                r
            },
            None => self.unmoved(),
        }
    }

    /// Takes one event, which arrives at `now`, and says what is to be done.
    pub fn step(&mut self, event: &Event, now: i64) -> (r: Step)
        requires
            old(self).wf(),
        ensures
            final(self).wf(),
            final(self)@ == old(self)@.step(event@, now).next,
            actions_view(r.actions@) == old(self)@.step(event@, now).actions,
            r.result == old(self)@.step(event@, now).result,
    {
        match event {
            Event::Timeout => {
                if self.shutting_down {
                    self.unmoved()
                } else {
                    Step { actions: self.start_processes(now), result: None }
                }
            },
            Event::Terminate(signal) => self.terminate(*signal),
            Event::Child(pid, status) => self.child(*pid, *status),
            Event::Reboot(signal) => {
                if self.allow_reboot {
                    let r = Step { actions: Vec::new(), result: Some(MonitorResult::Reboot) };
                    assert(actions_view(r.actions@) =~= Seq::empty());
                    r
                } else {
                    self.terminate(*signal)
                }
            },
            Event::Started(name, pid) => self.started(name.as_str(), *pid, now),
            Event::Failed(name) => self.failed(name.as_str(), now),
        }
    }

    /// Feeds the monitor with `events`, each with the time at which it
    /// arrives, until one of them ends the run.
    pub fn run(&mut self, events: &Vec<(i64, Event)>) -> (r: Run)
        requires
            old(self).wf(),
        ensures
            final(self).wf(),
            final(self)@ == old(self)@.run(events_view(events@), events.len() as int).next,
            actions_view(r.actions@) == old(self)@.run(
                events_view(events@),
                events.len() as int,
            ).actions,
            r.result == old(self)@.run(events_view(events@), events.len() as int).result,
            r.consumed == old(self)@.run(events_view(events@), events.len() as int).consumed,
    {
        let mut actions: Vec<Action> = Vec::new();
        let mut result: Option<MonitorResult> = None;
        let mut i: usize = 0;
        let ghost evs = events_view(events@);
        assert(actions_view(actions@) =~= Seq::empty());
        while i < events.len() && result.is_none()
            invariant
                i <= events.len(),
                evs == events_view(events@),
                self.wf(),
                old(self)@.run(evs, i as int) == (RunView {
                    next: self@,
                    actions: actions_view(actions@),
                    result,
                    consumed: i as int,
                }),
            decreases events.len() - i,
        {
            let ghost before = actions_view(actions@);
            let mut s = self.step(&events[i].1, events[i].0);
            let ghost more = actions_view(s.actions@);
            actions.append(&mut s.actions);
            result = s.result;
            assert(actions_view(actions@) =~= before + more);
            i += 1;
        }
        proof {
            if result is Some {
                lemma_run_ended(old(self)@, evs, i as int, events.len() as int);
            }
        }
        Run { actions, result, consumed: i }
    }

    /// Takes note of a process that is not supervised and was told to go,
    /// so that its exit is met with `executor`'s cleanup.
    pub fn add_stray(&mut self, pid: i32, name: String, executor: E)
        requires
            old(self).wf(),
        ensures
            final(self).wf(),
            final(self)@ == old(self)@.with_stray(pid, name@, executor),
    {
        proof {
            lemma_with_stray(self@, pid, name@, executor);
        }
        self.strays.push(Stray { pid, name, executor });
        assert(self@.strays =~= old(self)@.strays.push(StrayView { pid, name: name@, executor }));
        assert(self@.processes =~= old(self)@.processes);
    }

    /// Whether `pid` is a process of the table or a stray.
    pub fn tracks(&self, pid: i32) -> (b: bool)
        ensures
            b == self@.tracks(pid),
    {
        if self.pids.contains_key(&pid) {
            return true;
        }
        let mut k: usize = 0;
        while k < self.strays.len() && self.strays[k].pid != pid
            invariant
                k <= self.strays.len(),
                self@.stray_find(pid, 0) == self@.stray_find(pid, k as int),
            decreases self.strays.len() - k,
        {
            k += 1;
        }
        k < self.strays.len()
    }

    /// Whether a stray carries `name`.
    pub fn stray_named(&self, name: &str) -> (b: bool)
        ensures
            b == self@.stray_named(name@),
    {
        let mut k: usize = 0;
        while k < self.strays.len()
            invariant
                k <= self.strays.len(),
                forall|j: int| 0 <= j < k ==> self@.strays[j].name != name@,
            decreases self.strays.len() - k,
        {
            if same_text(self.strays[k].name.as_str(), name) {
                assert(self@.strays[k as int].name == name@);
                return true;
            }
            k += 1;
        }
        false
    }

    /// The pid under which `name` runs.
    pub fn pid_of(&self, name: &str) -> (r: Option<i32>)
        requires
            self.wf(),
        ensures
            r == self@.pid_of(name@),
    {
        match self.find(name) {
            Some(i) => {
                assert(self@.known(name@));
                self.processes[i].current_pid
            },
            None => None,
        }
    }

    /// The time of the next start attempt of `name`.
    pub fn next_start_of(&self, name: &str) -> (r: Option<i64>)
        requires
            self.wf(),
        ensures
            r == self@.next_start_of(name@),
    {
        match self.find(name) {
            Some(i) => {
                assert(self@.known(name@));
                self.start_queue.time_of(i)
            },
            None => None,
        }
    }

    /// The name that the monitor was given.
    pub fn name(&self) -> (s: &str)
        ensures
            s@ == self@.myname,
    {
        self.myname.as_str()
    }

    /// Whether a terminate signal has been received.
    pub fn is_shutting_down(&self) -> (b: bool)
        ensures
            b == self@.shutting_down,
    {
        self.shutting_down
    }

    /// How many processes are under supervision.
    pub fn count(&self) -> (n: usize)
        ensures
            n == self@.count_live(self@.processes.len() as int),
    {
        let mut n: usize = 0;
        let mut i: usize = 0;
        while i < self.processes.len()
            invariant
                i <= self.processes.len(),
                n == self@.count_live(i as int),
                n <= i,
            decreases self.processes.len() - i,
        {
            if !self.processes[i].removed {
                n += 1;
            }
            i += 1;
        }
        n
    }

}

} // verus!
