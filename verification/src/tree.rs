//! The supervisor of the whole host: what should run, what was found
//! running, and how the two are brought together when the supervisor starts.

use crate::executors::{clone_text, Child, UnidentifiedChild, Unit};
use crate::identity::{
    instance_name_of, instance_parts, is_group_name, is_instance_name, law_instance_grammar,
    RecoveredIdentity,
};
use crate::json::{config_drift, drifted};
use crate::monitor::{Monitor, MonitorResult, MonitorView, NewProcess};
use crate::monitor_proofs::{
    lemma_added_tracks, lemma_added_wf, lemma_with_all_idle, lemma_with_all_none_left,
    lemma_with_all_settled, lemma_with_stray,
};
use crate::scheduler::queued;
use crate::text::{decimal_text, format_decimal, lemma_decimal_text, same_text, texts};
use crate::tree_config::TreeConfig;
use vstd::prelude::*;
use vstd::string::*;

verus! {

/// The signal that asks a process to end.
pub const SIGTERM: i32 = 15;

/// An instance that should run.
#[derive(Clone, Debug, PartialEq, Eq)]
pub struct DesiredInstance {
    /// The daemon, with the instance's name and its serialized configuration.
    pub child: Child,
    /// Seconds between a start and the next start attempt.
    pub restart_timeout: u32,
}

/// A child of the supervisor that was found running.
#[derive(Clone, Debug, PartialEq, Eq)]
pub struct Sighting {
    pub pid: i32,
    pub identity: RecoveredIdentity,
}

/// The first position at or after `from` of the desired instance called
/// `name`, or the number of instances when there is none.
pub open spec fn desired_slot(desired: Seq<DesiredInstance>, name: Seq<char>, from: int) -> int
    decreases desired.len() - from,
{
    if 0 <= from < desired.len() && desired[from].child.name@ != name {
        desired_slot(desired, name, from + 1)
    } else {
        from
    }
}

/// A unit for a process that is not to run: `name` says whose directory
/// goes when the process has exited.
pub open spec fn outcast(name: Option<String>, state_dir: String) -> Unit {
    Unit::Unidentified(UnidentifiedChild { name, state_dir })
}

/// What is made of one process that was found running.
pub struct Noticed {
    pub monitor: MonitorView<Unit>,
    /// Whether the process is told to end.
    pub kill: bool,
}

/// What is made of one process that was found running; `drift` says
/// whether its configuration differs from the one that the instance of
/// its name should have.
///
/// A process that the monitor tracks already is left alone. An instance
/// that should run is put into the table as running since `now`, and told
/// to end only if its configuration has drifted: it is then started again,
/// with the configuration of today. Any other process is told to end and
/// kept as a stray. Its directory goes with it if it carries the name of
/// an instance that neither should run nor is in the table.
pub open spec fn placed(
    m: MonitorView<Unit>,
    desired: Seq<DesiredInstance>,
    s: Sighting,
    now: i64,
    state_dir: String,
    drift: bool,
) -> Noticed {
    if m.tracks(s.pid) {
        Noticed { monitor: m, kill: false }
    } else {
        match s.identity {
            RecoveredIdentity::Unidentified => Noticed {
                monitor: m.with_stray(s.pid, Seq::empty(), outcast(None, state_dir)),
                kill: true,
            },
            RecoveredIdentity::Identified { name, config } => {
                let k = desired_slot(desired, name@, 0);
                if k < desired.len() {
                    let unit = Unit::Daemon(desired[k].child);
                    if m.add_verdict(name@, unit, Some((s.pid, now))) is Ok {
                        Noticed {
                            monitor: m.added(
                                name@,
                                unit,
                                desired[k].restart_timeout,
                                Some((s.pid, now)),
                            ),
                            kill: drift,
                        }
                    } else {
                        Noticed {
                            monitor: m.with_stray(s.pid, name@, outcast(None, state_dir)),
                            kill: true,
                        }
                    }
                } else if m.known(name@) {
                    Noticed {
                        monitor: m.with_stray(s.pid, name@, outcast(None, state_dir)),
                        kill: true,
                    }
                } else {
                    Noticed {
                        monitor: m.with_stray(s.pid, name@, outcast(Some(name), state_dir)),
                        kill: true,
                    }
                }
            },
        }
    }
}

/// Whether the configuration that a process was started with differs from
/// the one that the instance of its name should have. A process that is
/// no instance that should run has nothing to differ from.
pub open spec fn sighting_drift(desired: Seq<DesiredInstance>, s: Sighting) -> bool {
    match s.identity {
        RecoveredIdentity::Unidentified => false,
        RecoveredIdentity::Identified { name, config } => {
            let k = desired_slot(desired, name@, 0);
            k < desired.len() && drifted(config@, desired[k].child.child_config_serialized@)
        },
    }
}

/// What is made of one process that was found running.
pub open spec fn noticed(
    m: MonitorView<Unit>,
    desired: Seq<DesiredInstance>,
    s: Sighting,
    now: i64,
    state_dir: String,
) -> Noticed {
    placed(m, desired, s, now, state_dir, sighting_drift(desired, s))
}

/// What is made of the processes that were found running.
pub struct Discovery {
    pub monitor: MonitorView<Unit>,
    /// The pids that are told to end, in the order of the sightings.
    pub kills: Seq<i32>,
}

/// What is made of the first `n` processes that were found running.
pub open spec fn discovered(
    m: MonitorView<Unit>,
    desired: Seq<DesiredInstance>,
    sightings: Seq<Sighting>,
    now: i64,
    state_dir: String,
    n: int,
) -> Discovery
    decreases n,
{
    if n <= 0 {
        Discovery { monitor: m, kills: Seq::empty() }
    } else {
        let before = discovered(m, desired, sightings, now, state_dir, n - 1);
        let one = noticed(before.monitor, desired, sightings[n - 1], now, state_dir);
        Discovery {
            monitor: one.monitor,
            kills: if one.kill {
                before.kills.push(sightings[n - 1].pid)
            } else {
                before.kills
            },
        }
    }
}

/// The desired instances as processes that are to be started.
pub open spec fn to_start(desired: Seq<DesiredInstance>) -> Seq<NewProcess<Unit>> {
    Seq::new(
        desired.len(),
        |k: int|
            NewProcess {
                name: desired[k].child.name@,
                executor: Unit::Daemon(desired[k].child),
                timeout: desired[k].restart_timeout,
                current: None,
            },
    )
}

/// Whether the directory `name` belongs to nobody: to no process under
/// supervision and to no stray.
pub open spec fn is_dangling(m: MonitorView<Unit>, name: Seq<char>) -> bool {
    !m.has(name) && !m.stray_named(name)
}

/// Those of the first `n` directories that belong to nobody.
pub open spec fn dangling(m: MonitorView<Unit>, dirs: Seq<Seq<char>>, n: int) -> Seq<Seq<char>>
    decreases n,
{
    if n <= 0 {
        Seq::empty()
    } else if is_dangling(m, dirs[n - 1]) {
        dangling(m, dirs, n - 1).push(dirs[n - 1])
    } else {
        dangling(m, dirs, n - 1)
    }
}

/// What a pass comes to.
pub struct Reconciliation {
    pub monitor: MonitorView<Unit>,
    pub kills: Seq<i32>,
    pub dangling: Seq<Seq<char>>,
}

/// The whole pass: first every process that was found running is placed,
/// then every desired instance that is not in the table is put there to
/// be started, and only then the directories that belong to nobody are
/// picked out.
pub open spec fn reconciled(
    m: MonitorView<Unit>,
    desired: Seq<DesiredInstance>,
    sightings: Seq<Sighting>,
    dirs: Seq<Seq<char>>,
    now: i64,
    state_dir: String,
) -> Reconciliation {
    let found = discovered(m, desired, sightings, now, state_dir, sightings.len() as int);
    let monitor = found.monitor.with_all(to_start(desired), desired.len() as int);
    Reconciliation {
        monitor,
        kills: found.kills,
        dangling: dangling(monitor, dirs, dirs.len() as int),
    }
}

/// One placed process: the monitor stays in order, tracks the process and
/// whatever it tracked and knew before.
pub proof fn lemma_noticed(
    m: MonitorView<Unit>,
    desired: Seq<DesiredInstance>,
    s: Sighting,
    now: i64,
    state_dir: String,
)
    requires
        m.wf(),
        m.processes.len() < usize::MAX,
    ensures
        noticed(m, desired, s, now, state_dir).monitor.wf(),
        noticed(m, desired, s, now, state_dir).monitor.tracks(s.pid),
        noticed(m, desired, s, now, state_dir).monitor.processes.len() <= m.processes.len() + 1,
        noticed(m, desired, s, now, state_dir).monitor.shutting_down == m.shutting_down,
        forall|p: i32| m.tracks(p) ==> noticed(m, desired, s, now, state_dir).monitor.tracks(p),
        forall|x: Seq<char>| m.known(x) ==> noticed(m, desired, s, now, state_dir).monitor.known(x),
{
    let n = noticed(m, desired, s, now, state_dir).monitor;
    if !m.tracks(s.pid) {
        match s.identity {
            RecoveredIdentity::Unidentified => {
                lemma_with_stray(m, s.pid, Seq::empty(), outcast(None, state_dir));
            },
            RecoveredIdentity::Identified { name, config } => {
                let k = desired_slot(desired, name@, 0);
                lemma_with_stray(m, s.pid, name@, outcast(None, state_dir));
                lemma_with_stray(m, s.pid, name@, outcast(Some(name), state_dir));
                if k < desired.len() {
                    let unit = Unit::Daemon(desired[k].child);
                    if m.add_verdict(name@, unit, Some((s.pid, now))) is Ok {
                        lemma_added_wf(
                            m,
                            name@,
                            unit,
                            desired[k].restart_timeout,
                            Some((s.pid, now)),
                        );
                        lemma_added_tracks(
                            m,
                            name@,
                            unit,
                            desired[k].restart_timeout,
                            Some((s.pid, now)),
                        );
                    }
                }
            },
        }
    }
}

/// After the first `n` processes are placed, the monitor is in order and
/// tracks each of them, and whatever it tracked and knew before.
pub proof fn lemma_discovered(
    m: MonitorView<Unit>,
    desired: Seq<DesiredInstance>,
    sightings: Seq<Sighting>,
    now: i64,
    state_dir: String,
    n: int,
)
    requires
        m.wf(),
        0 <= n <= sightings.len(),
        m.processes.len() + n <= usize::MAX,
    ensures
        discovered(m, desired, sightings, now, state_dir, n).monitor.wf(),
        discovered(m, desired, sightings, now, state_dir, n).monitor.processes.len()
            <= m.processes.len() + n,
        discovered(m, desired, sightings, now, state_dir, n).monitor.shutting_down
            == m.shutting_down,
        forall|k: int|
            0 <= k < n ==> discovered(m, desired, sightings, now, state_dir, n).monitor.tracks(
                (#[trigger] sightings[k]).pid,
            ),
        forall|p: i32|
            m.tracks(p) ==> discovered(m, desired, sightings, now, state_dir, n).monitor.tracks(p),
        forall|x: Seq<char>|
            m.known(x) ==> discovered(m, desired, sightings, now, state_dir, n).monitor.known(x),
    decreases n,
{
    if n > 0 {
        lemma_discovered(m, desired, sightings, now, state_dir, n - 1);
        let before = discovered(m, desired, sightings, now, state_dir, n - 1).monitor;
        lemma_noticed(before, desired, sightings[n - 1], now, state_dir);
        let after = discovered(m, desired, sightings, now, state_dir, n).monitor;
        assert forall|k: int| 0 <= k < n implies after.tracks((#[trigger] sightings[k]).pid) by {
            if k < n - 1 {
                assert(before.tracks(sightings[k].pid));
            }
        }
    }
}

/// Processes that are all tracked are all left alone.
pub proof fn lemma_discovered_idle(
    m: MonitorView<Unit>,
    desired: Seq<DesiredInstance>,
    sightings: Seq<Sighting>,
    now: i64,
    state_dir: String,
    n: int,
)
    requires
        0 <= n <= sightings.len(),
        forall|k: int| 0 <= k < n ==> m.tracks((#[trigger] sightings[k]).pid),
    ensures
        discovered(m, desired, sightings, now, state_dir, n) == (Discovery {
            monitor: m,
            kills: Seq::empty(),
        }),
    decreases n,
{
    if n > 0 {
        lemma_discovered_idle(m, desired, sightings, now, state_dir, n - 1);
        assert(m.tracks(sightings[n - 1].pid));
    }
}

/// Placing processes makes none leave.
pub proof fn lemma_discovered_none_left(
    m: MonitorView<Unit>,
    desired: Seq<DesiredInstance>,
    sightings: Seq<Sighting>,
    now: i64,
    state_dir: String,
    n: int,
)
    requires
        m.none_left(),
        0 <= n <= sightings.len(),
    ensures
        discovered(m, desired, sightings, now, state_dir, n).monitor.none_left(),
    decreases n,
{
    if n > 0 {
        lemma_discovered_none_left(m, desired, sightings, now, state_dir, n - 1);
    }
}

/// A pass leaves nothing out: afterwards every instance that should run
/// is under supervision, and the monitor tracks every process that was
/// found running.
pub proof fn law_pass_complete(
    m: MonitorView<Unit>,
    desired: Seq<DesiredInstance>,
    sightings: Seq<Sighting>,
    dirs: Seq<Seq<char>>,
    now: i64,
    state_dir: String,
)
    requires
        m.wf(),
        !m.shutting_down,
        m.none_left(),
        m.processes.len() + sightings.len() + desired.len() <= usize::MAX,
    ensures
        reconciled(m, desired, sightings, dirs, now, state_dir).monitor.wf(),
        forall|k: int|
            0 <= k < desired.len() ==> reconciled(
                m,
                desired,
                sightings,
                dirs,
                now,
                state_dir,
            ).monitor.has((#[trigger] desired[k]).child.name@),
        forall|j: int|
            0 <= j < sightings.len() ==> reconciled(
                m,
                desired,
                sightings,
                dirs,
                now,
                state_dir,
            ).monitor.tracks((#[trigger] sightings[j]).pid),
{
    let ns = sightings.len() as int;
    let nd = desired.len() as int;
    let items = to_start(desired);
    let found = discovered(m, desired, sightings, now, state_dir, ns).monitor;
    let after = reconciled(m, desired, sightings, dirs, now, state_dir).monitor;
    lemma_discovered(m, desired, sightings, now, state_dir, ns);
    lemma_discovered_none_left(m, desired, sightings, now, state_dir, ns);
    lemma_with_all_settled(found, items, nd);
    lemma_with_all_none_left(found, items, nd);
    assert forall|k: int| 0 <= k < desired.len() implies after.has(
        (#[trigger] desired[k]).child.name@,
    ) by {
        let it = items[k];
        assert(after.add_verdict(it.name, it.executor, it.current) is Err);
        assert(after.known(it.name));
        assert(!after.processes[after.slot_of(it.name)].removed);
    }
    assert forall|j: int| 0 <= j < sightings.len() implies after.tracks(
        (#[trigger] sightings[j]).pid,
    ) by {
        assert(found.tracks(sightings[j].pid));
    }
}

/// A second pass over the same desired instances and the same running
/// processes changes nothing: no signal is sent, the monitor stays as the
/// first pass left it, and the same directories belong to nobody.
pub proof fn law_reconcile_idempotent(
    m: MonitorView<Unit>,
    desired: Seq<DesiredInstance>,
    sightings: Seq<Sighting>,
    dirs: Seq<Seq<char>>,
    now: i64,
    later: i64,
    state_dir: String,
)
    requires
        m.wf(),
        m.processes.len() + sightings.len() + desired.len() <= usize::MAX,
    ensures
        ({
            let first = reconciled(m, desired, sightings, dirs, now, state_dir);
            let second = reconciled(first.monitor, desired, sightings, dirs, later, state_dir);
            &&& first.monitor.wf()
            &&& second.monitor == first.monitor
            &&& second.kills == Seq::<i32>::empty()
            &&& second.dangling == first.dangling
        }),
{
    let ns = sightings.len() as int;
    let nd = desired.len() as int;
    let items = to_start(desired);
    let found = discovered(m, desired, sightings, now, state_dir, ns);
    lemma_discovered(m, desired, sightings, now, state_dir, ns);
    lemma_with_all_settled(found.monitor, items, nd);
    let first = reconciled(m, desired, sightings, dirs, now, state_dir);
    assert forall|k: int| 0 <= k < ns implies first.monitor.tracks((#[trigger] sightings[k]).pid) by {
        assert(found.monitor.tracks(sightings[k].pid));
    }
    lemma_discovered_idle(first.monitor, desired, sightings, later, state_dir, ns);
    lemma_with_all_idle(first.monitor, items, nd);
}

/// No directory is picked out that belongs to a process under supervision
/// or to a stray: what a pass has put into the table keeps its directory.
pub proof fn law_dangling(m: MonitorView<Unit>, dirs: Seq<Seq<char>>, n: int, name: Seq<char>)
    requires
        0 <= n <= dirs.len(),
    ensures
        dangling(m, dirs, n).contains(name) <==> is_dangling(m, name) && exists|k: int|
            0 <= k < n && dirs[k] == name,
    decreases n,
{
    if n > 0 {
        law_dangling(m, dirs, n - 1, name);
        let before = dangling(m, dirs, n - 1);
        if is_dangling(m, dirs[n - 1]) {
            let after = before.push(dirs[n - 1]);
            assert(after[after.len() - 1] == dirs[n - 1]);
            if before.contains(name) {
                let j = choose|j: int| 0 <= j < before.len() && before[j] == name;
                assert(after[j] == name);
            }
            if after.contains(name) {
                let j = choose|j: int| 0 <= j < after.len() && after[j] == name;
                if j < before.len() {
                    assert(before[j] == name);
                }
            }
        }
    }
}

/// A pass never picks out the directory of a process that it has put, or
/// found, under supervision: the directories are looked at when the table
/// is complete.
pub proof fn law_registered_keeps_directory(
    m: MonitorView<Unit>,
    desired: Seq<DesiredInstance>,
    sightings: Seq<Sighting>,
    dirs: Seq<Seq<char>>,
    now: i64,
    state_dir: String,
    name: Seq<char>,
)
    requires
        reconciled(m, desired, sightings, dirs, now, state_dir).monitor.has(name),
    ensures
        !reconciled(m, desired, sightings, dirs, now, state_dir).dangling.contains(name),
{
    let r = reconciled(m, desired, sightings, dirs, now, state_dir);
    law_dangling(r.monitor, dirs, dirs.len() as int, name);
}

/// An instance that should run and is found running comes under
/// supervision with its pid, running since `now`, and out of the
/// scheduler. It is told to end if and only if its configuration has
/// drifted; one that was started with the very text of today's
/// configuration is never told to end.
pub proof fn law_adoption(
    m: MonitorView<Unit>,
    desired: Seq<DesiredInstance>,
    s: Sighting,
    now: i64,
    state_dir: String,
)
    requires
        m.wf(),
        m.processes.len() < usize::MAX,
        !m.shutting_down,
        !m.tracks(s.pid),
        s.identity is Identified,
        desired_slot(desired, s.identity->name@, 0) < desired.len(),
        !m.known(s.identity->name@),
    ensures
        ({
            let k = desired_slot(desired, s.identity->name@, 0);
            let after = noticed(m, desired, s, now, state_dir);
            let today = desired[k].child.child_config_serialized@;
            &&& after.monitor.has(s.identity->name@)
            &&& after.monitor.pid_of(s.identity->name@) == Some(s.pid)
            &&& after.monitor.next_start_of(s.identity->name@) is None
            &&& after.monitor.pids.contains_key(s.pid)
            &&& after.monitor.pids[s.pid] == after.monitor.slot_of(s.identity->name@)
            &&& after.kill == drifted(s.identity->config@, today)
            &&& s.identity->config@ == today ==> !after.kill
        }),
{
    let name = s.identity->name@;
    let k = desired_slot(desired, name, 0);
    let unit = Unit::Daemon(desired[k].child);
    let after = noticed(m, desired, s, now, state_dir).monitor;
    lemma_added_wf(m, name, unit, desired[k].restart_timeout, Some((s.pid, now)));
    let slot = m.processes.len() as int;
    assert(after.processes[slot].name == name);
    assert(after.known(name));
    assert(after.slot_of(name) == slot);
    assert(after.running(slot));
    if queued(after.start_queue, slot as usize) {
        let j = choose|j: int|
            0 <= j < after.start_queue.len() && #[trigger] after.start_queue[j].slot == slot;
        assert(after.pending(after.start_queue[j].slot as int));
    }
}

/// What every daemon of one supervisor shares.
#[derive(Clone, Debug, PartialEq, Eq)]
pub struct Settings {
    pub global_file: String,
    pub state_dir: String,
    pub root_binary: String,
    pub term: Option<String>,
    pub rust_log: Option<String>,
    pub rust_backtrace: Option<String>,
}

/// One group of the configuration: so many instances of one daemon.
#[derive(Clone, Debug, PartialEq, Eq)]
pub struct Group {
    pub name: String,
    pub instances: usize,
    /// The serialized configuration that every instance is started with.
    pub config: String,
    pub restart_timeout: u32,
}

/// Whether `c` is the daemon called `name` with the configuration `config`
/// under `settings`.
pub open spec fn made_for(c: Child, settings: Settings, name: Seq<char>, config: String) -> bool {
    &&& c.name@ == name
    &&& c.child_config_serialized == config
    &&& c.global_file == settings.global_file
    &&& c.state_dir == settings.state_dir
    &&& c.root_binary == settings.root_binary
    &&& c.term == settings.term
    &&& c.rust_log == settings.rust_log
    &&& c.rust_backtrace == settings.rust_backtrace
}

/// The name of an instance that should run, and the group it is of.
pub struct Wanted {
    pub name: Seq<char>,
    pub group: int,
}

/// The instances that the first `n` groups ask for: for each group in
/// turn, one for each index below its number of instances.
pub open spec fn wanted(groups: Seq<Group>, n: int) -> Seq<Wanted>
    decreases n,
{
    if n <= 0 {
        Seq::empty()
    } else {
        wanted(groups, n - 1) + Seq::new(
            groups[n - 1].instances as nat,
            |i: int|
                Wanted {
                    name: instance_name_of(groups[n - 1].name@, decimal_text(i as nat)),
                    group: n - 1,
                },
        )
    }
}

/// The file name of a group's configuration without its `.yaml`, if it
/// ends in `.yaml` and has something before it.
pub open spec fn config_stem(file: Seq<char>) -> Option<Seq<char>> {
    if file.len() > 5 && file.subrange(file.len() - 5, file.len() as int) == ".yaml"@ {
        Some(file.subrange(0, file.len() - 5))
    } else {
        None
    }
}

/// The name of the group that a file of the configuration directory
/// describes. Hidden files and files of other kinds describe none.
pub fn is_config_file(file: &str) -> (r: Option<String>)
    ensures
        match config_stem(file@) {
            Some(stem) => r is Some && r->0@ == stem,
            None => r is None,
        },
{
    let n: usize = file.unicode_len();
    if n <= 5 {
        return None;
    }
    if same_text(file.substring_char(n - 5, n), ".yaml") {
        Some(String::from_str(file.substring_char(0, n - 5)))
    } else {
        None
    }
}

/// The name of the instance `index` of `group`.
pub fn instance_name(group: &str, index: u64) -> (r: String)
    ensures
        r@ == instance_name_of(group@, decimal_text(index as nat)),
{
    proof {
        reveal_strlit(".");
    }
    let mut r = String::from_str(group);
    r.append(".");
    let digits = format_decimal(index);
    r.append(digits.as_str());
    assert(r@ =~= instance_name_of(group@, decimal_text(index as nat)));
    r
}

impl Settings {
    /// The daemon called `name` with the configuration `config`.
    pub fn child(&self, name: String, config: String) -> (c: Child)
        ensures
            made_for(c, *self, name@, config),
    {
        Child {
            name,
            global_file: self.global_file.clone(),
            child_config_serialized: config,
            state_dir: self.state_dir.clone(),
            root_binary: self.root_binary.clone(),
            term: clone_text(&self.term),
            rust_log: clone_text(&self.rust_log),
            rust_backtrace: clone_text(&self.rust_backtrace),
        }
    }
}

/// The instances that should run, group by group.
pub fn expand(settings: &Settings, groups: &Vec<Group>) -> (r: Vec<DesiredInstance>)
    ensures
        r.len() == wanted(groups@, groups.len() as int).len(),
        forall|k: int|
            0 <= k < r.len() ==> {
                let w = wanted(groups@, groups.len() as int)[k];
                &&& 0 <= w.group < groups.len()
                &&& made_for((#[trigger] r[k]).child, *settings, w.name, groups[w.group].config)
                &&& r[k].restart_timeout == groups[w.group].restart_timeout
            },
{
    let mut r: Vec<DesiredInstance> = Vec::new();
    let mut g: usize = 0;
    while g < groups.len()
        invariant
            g <= groups.len(),
            r.len() == wanted(groups@, g as int).len(),
            forall|k: int|
                0 <= k < r.len() ==> {
                    let w = wanted(groups@, g as int)[k];
                    &&& 0 <= w.group < g
                    &&& made_for((#[trigger] r[k]).child, *settings, w.name, groups[w.group].config)
                    &&& r[k].restart_timeout == groups[w.group].restart_timeout
                },
        decreases groups.len() - g,
    {
        let group = &groups[g];
        let ghost base = wanted(groups@, g as int);
        let ghost all = wanted(groups@, g + 1);
        let mut i: usize = 0;
        while i < group.instances
            invariant
                g < groups.len(),
                *group == groups[g as int],
                i <= group.instances,
                base == wanted(groups@, g as int),
                all == wanted(groups@, g + 1),
                r.len() == base.len() + i,
                forall|k: int|
                    0 <= k < r.len() ==> {
                        let w = all[k];
                        &&& 0 <= w.group <= g
                        &&& made_for(
                            (#[trigger] r[k]).child,
                            *settings,
                            w.name,
                            groups[w.group].config,
                        )
                        &&& r[k].restart_timeout == groups[w.group].restart_timeout
                    },
            decreases group.instances - i,
        {
            let name = instance_name(group.name.as_str(), i as u64);
            let child = settings.child(name, group.config.clone());
            r.push(DesiredInstance { child, restart_timeout: group.restart_timeout });
            i += 1;
        }
        g += 1;
    }
    r
}

/// The names that `wanted` gives to the instances of a group whose name
/// is a word are instance names: a running instance is recognised by the
/// name it was started under.
pub proof fn law_wanted_names(group: Seq<char>, index: nat)
    requires
        is_group_name(group),
    ensures
        is_instance_name(instance_name_of(group, decimal_text(index))),
        instance_parts(instance_name_of(group, decimal_text(index))) == Some(
            (group, decimal_text(index)),
        ),
{
    lemma_decimal_text(index);
    law_instance_grammar(instance_name_of(group, decimal_text(index)));
}

/// What has to be done before the first pass.
#[derive(Clone, Debug, PartialEq, Eq)]
pub enum SetupAction {
    /// Create the directory and what is missing above it.
    CreateDir(String),
    /// Mount the directory onto itself.
    BindMount(String),
    /// Make the mount at the directory private.
    MakePrivate(String),
}

/// A `SetupAction`, with its directory as a sequence of characters.
pub enum SetupView {
    CreateDir(Seq<char>),
    BindMount(Seq<char>),
    MakePrivate(Seq<char>),
}

impl View for SetupAction {
    type V = SetupView;

    open spec fn view(&self) -> SetupView {
        match *self {
            SetupAction::CreateDir(d) => SetupView::CreateDir(d@),
            SetupAction::BindMount(d) => SetupView::BindMount(d@),
            SetupAction::MakePrivate(d) => SetupView::MakePrivate(d@),
        }
    }
}

/// The views of a sequence of setup actions.
pub open spec fn setup_views(v: Seq<SetupAction>) -> Seq<SetupView> {
    Seq::new(v.len(), |i: int| v[i]@)
}

/// Whether one of the mounts is private.
pub open spec fn any_private(mounts: Seq<bool>) -> bool {
    exists|k: int| 0 <= k < mounts.len() && mounts[k]
}

/// What `global_init` asks for: both directories in any case, the bind
/// mount where nothing is mounted at the mount directory, and the change
/// to private where no mount there is private yet.
pub open spec fn setup_plan(
    state_dir: Seq<char>,
    mount_dir: Seq<char>,
    mounts: Seq<bool>,
) -> Seq<SetupView> {
    seq![SetupView::CreateDir(state_dir), SetupView::CreateDir(mount_dir)] + (if mounts.len()
        == 0 {
        seq![SetupView::BindMount(mount_dir)]
    } else {
        Seq::empty()
    }) + (if any_private(mounts) {
        Seq::empty()
    } else {
        seq![SetupView::MakePrivate(mount_dir)]
    })
}

/// What has to be done before the first pass, given the mounts that the
/// mount table shows at the mount directory: for each, whether it is
/// private. Done twice, it asks for no mount the second time.
pub fn global_init(cfg: &TreeConfig, mounts: &Vec<bool>) -> (plan: Vec<SetupAction>)
    ensures
        setup_views(plan@) == setup_plan(cfg.state_dir@, cfg.mount_dir@, mounts@),
{
    let mut plan: Vec<SetupAction> = Vec::new();
    plan.push(SetupAction::CreateDir(cfg.state_dir.clone()));
    plan.push(SetupAction::CreateDir(cfg.mount_dir.clone()));
    if mounts.len() == 0 {
        plan.push(SetupAction::BindMount(cfg.mount_dir.clone()));
    }
    let mut private: bool = false;
    let mut k: usize = 0;
    while k < mounts.len()
        invariant
            k <= mounts.len(),
            private == any_private(mounts@.subrange(0, k as int)),
        decreases mounts.len() - k,
    {
        let ghost before = mounts@.subrange(0, k as int);
        let ghost after = mounts@.subrange(0, k + 1);
        proof {
            if any_private(before) {
                let j = choose|j: int| 0 <= j < before.len() && before[j];
                assert(after[j]);
            }
            if mounts[k as int] {
                assert(after[k as int]);
            }
            if any_private(after) {
                let j = choose|j: int| 0 <= j < after.len() && after[j];
                if j < k {
                    assert(before[j]);
                }
            }
        }
        if mounts[k] {
            private = true;
        }
        k += 1;
    }
    assert(mounts@.subrange(0, mounts.len() as int) == mounts@);
    if !private {
        plan.push(SetupAction::MakePrivate(cfg.mount_dir.clone()));
    }
    assert(setup_views(plan@) =~= setup_plan(cfg.state_dir@, cfg.mount_dir@, mounts@));
    plan
}

/// Setting up is idempotent: where the mount directory is mounted and
/// private already, nothing is mounted again.
pub proof fn law_setup_idempotent(state_dir: Seq<char>, mount_dir: Seq<char>, mounts: Seq<bool>)
    requires
        any_private(mounts),
    ensures
        setup_plan(state_dir, mount_dir, mounts) == seq![
            SetupView::CreateDir(state_dir),
            SetupView::CreateDir(mount_dir),
        ],
{
    assert(setup_plan(state_dir, mount_dir, mounts) =~= seq![
        SetupView::CreateDir(state_dir),
        SetupView::CreateDir(mount_dir),
    ]);
}

/// What has to be undone when the supervisor ends.
#[derive(Clone, Debug, PartialEq, Eq)]
pub enum CleanupAction {
    Unmount(String),
    /// Remove the empty directory.
    RemoveDir(String),
    /// Remove the directory with all that is in it.
    RemoveTree(String),
}

/// A `CleanupAction`, with its directory as a sequence of characters.
pub enum CleanupView {
    Unmount(Seq<char>),
    RemoveDir(Seq<char>),
    RemoveTree(Seq<char>),
}

impl View for CleanupAction {
    type V = CleanupView;

    open spec fn view(&self) -> CleanupView {
        match *self {
            CleanupAction::Unmount(d) => CleanupView::Unmount(d@),
            CleanupAction::RemoveDir(d) => CleanupView::RemoveDir(d@),
            CleanupAction::RemoveTree(d) => CleanupView::RemoveTree(d@),
        }
    }
}

/// The views of a sequence of cleanup actions.
pub open spec fn cleanup_views(v: Seq<CleanupAction>) -> Seq<CleanupView> {
    Seq::new(v.len(), |i: int| v[i]@)
}

/// The mount goes, then its directory, then the state directory.
pub open spec fn cleanup_plan(state_dir: Seq<char>, mount_dir: Seq<char>) -> Seq<CleanupView> {
    seq![
        CleanupView::Unmount(mount_dir),
        CleanupView::RemoveDir(mount_dir),
        CleanupView::RemoveTree(state_dir),
    ]
}

/// What has to be undone when everything has ended.
pub fn global_cleanup(cfg: &TreeConfig) -> (plan: Vec<CleanupAction>)
    ensures
        cleanup_views(plan@) == cleanup_plan(cfg.state_dir@, cfg.mount_dir@),
{
    let mut plan: Vec<CleanupAction> = Vec::new();
    plan.push(CleanupAction::Unmount(cfg.mount_dir.clone()));
    plan.push(CleanupAction::RemoveDir(cfg.mount_dir.clone()));
    plan.push(CleanupAction::RemoveTree(cfg.state_dir.clone()));
    assert(cleanup_views(plan@) =~= cleanup_plan(cfg.state_dir@, cfg.mount_dir@));
    plan
}

/// What follows a run: everything is undone after `Killed`, nothing after
/// `Reboot`, which leaves the children and the mounts to the next image.
pub fn teardown(cfg: &TreeConfig, result: MonitorResult) -> (plan: Vec<CleanupAction>)
    ensures
        cleanup_views(plan@) == (match result {
            MonitorResult::Killed => cleanup_plan(cfg.state_dir@, cfg.mount_dir@),
            MonitorResult::Reboot => Seq::empty(),
        }),
{
    match result {
        MonitorResult::Killed => global_cleanup(cfg),
        MonitorResult::Reboot => {
            let plan: Vec<CleanupAction> = Vec::new();
            assert(cleanup_views(plan@) =~= Seq::empty());
            plan
        },
    }
}

/// What the caller has to do after a pass.
#[derive(Clone, Debug, PartialEq, Eq)]
pub struct Plan {
    /// The pids to send `signal` to.
    pub kills: Vec<i32>,
    /// The signal that tells a process to end.
    pub signal: i32,
    /// The directories below the state directory to remove.
    pub dangling: Vec<String>,
}

fn find_desired(desired: &Vec<DesiredInstance>, name: &str) -> (k: usize)
    ensures
        k == desired_slot(desired@, name@, 0),
        k <= desired.len(),
{
    let mut k: usize = 0;
    while k < desired.len() && !same_text(desired[k].child.name.as_str(), name)
        invariant
            k <= desired.len(),
            desired_slot(desired@, name@, 0) == desired_slot(desired@, name@, k as int),
        decreases desired.len() - k,
    {
        k += 1;
    }
    k
}

/// Places one process that was found running; `drift` says whether its
/// configuration differs from the one that the instance of its name
/// should have.
pub fn place(
    mon: &mut Monitor<Unit>,
    desired: &Vec<DesiredInstance>,
    s: &Sighting,
    now: i64,
    state_dir: &String,
    drift: bool,
) -> (kill: bool)
    requires
        old(mon).wf(),
    ensures
        final(mon).wf(),
        final(mon)@ == placed(old(mon)@, desired@, *s, now, *state_dir, drift).monitor,
        kill == placed(old(mon)@, desired@, *s, now, *state_dir, drift).kill,
{
    if mon.tracks(s.pid) {
        return false;
    }
    match &s.identity {
        RecoveredIdentity::Unidentified => {
            mon.add_stray(
                s.pid,
                String::new(),
                Unit::Unidentified(UnidentifiedChild { name: None, state_dir: state_dir.clone() }),
            );
            true
        },
        RecoveredIdentity::Identified { name, config } => {
            let k = find_desired(desired, name.as_str());
            if k < desired.len() {
                let unit = Unit::Daemon(desired[k].child.duplicate());
                match mon.add(name.clone(), unit, desired[k].restart_timeout, Some((s.pid, now))) {
                    Ok(()) => drift,
                    Err(_) => {
                        mon.add_stray(
                            s.pid,
                            name.clone(),
                            Unit::Unidentified(
                                UnidentifiedChild { name: None, state_dir: state_dir.clone() },
                            ),
                        );
                        true
                    },
                }
            } else if mon.knows(name.as_str()) {
                mon.add_stray(
                    s.pid,
                    name.clone(),
                    Unit::Unidentified(
                        UnidentifiedChild { name: None, state_dir: state_dir.clone() },
                    ),
                );
                true
            } else {
                mon.add_stray(
                    s.pid,
                    name.clone(),
                    Unit::Unidentified(
                        UnidentifiedChild { name: Some(name.clone()), state_dir: state_dir.clone() },
                    ),
                );
                true
            }
        },
    }
}

/// Whether the configuration that a process was started with differs from
/// the one that the instance of its name should have.
fn drift_of(desired: &Vec<DesiredInstance>, s: &Sighting) -> (drift: bool)
    ensures
        drift == sighting_drift(desired@, *s),
{
    match &s.identity {
        RecoveredIdentity::Unidentified => false,
        RecoveredIdentity::Identified { name, config } => {
            let k = find_desired(desired, name.as_str());
            k < desired.len() && config_drift(
                config.as_str(),
                desired[k].child.child_config_serialized.as_str(),
            )
        },
    }
}

/// Places one process that was found running.
fn notice(
    mon: &mut Monitor<Unit>,
    desired: &Vec<DesiredInstance>,
    s: &Sighting,
    now: i64,
    state_dir: &String,
) -> (kill: bool)
    requires
        old(mon).wf(),
    ensures
        final(mon).wf(),
        final(mon)@ == noticed(old(mon)@, desired@, *s, now, *state_dir).monitor,
        kill == noticed(old(mon)@, desired@, *s, now, *state_dir).kill,
{
    let drift = drift_of(desired, s);
    place(mon, desired, s, now, state_dir, drift)
}

/// Brings what runs and what should run together, once, when the
/// supervisor starts: `sightings` are the supervisor's children that were
/// found running, `dirs` the names of the directories below the state
/// directory.
pub fn reconcile(
    mon: &mut Monitor<Unit>,
    desired: &Vec<DesiredInstance>,
    sightings: &Vec<Sighting>,
    dirs: &Vec<String>,
    now: i64,
    state_dir: &String,
) -> (plan: Plan)
    requires
        old(mon).wf(),
    ensures
        final(mon).wf(),
        plan.signal == SIGTERM,
        final(mon)@ == reconciled(
            old(mon)@,
            desired@,
            sightings@,
            texts(dirs@),
            now,
            *state_dir,
        ).monitor,
        plan.kills@ == reconciled(
            old(mon)@,
            desired@,
            sightings@,
            texts(dirs@),
            now,
            *state_dir,
        ).kills,
        texts(plan.dangling@) == reconciled(
            old(mon)@,
            desired@,
            sightings@,
            texts(dirs@),
            now,
            *state_dir,
        ).dangling,
{
    let mut kills: Vec<i32> = Vec::new();
    let mut i: usize = 0;
    while i < sightings.len()
        invariant
            i <= sightings.len(),
            mon.wf(),
            discovered(old(mon)@, desired@, sightings@, now, *state_dir, i as int) == (Discovery {
                monitor: mon@,
                kills: kills@,
            }),
        decreases sightings.len() - i,
    {
        if notice(mon, desired, &sightings[i], now, state_dir) {
            kills.push(sightings[i].pid);
        }
        i += 1;
    }
    let ghost found = mon@;
    let mut j: usize = 0;
    while j < desired.len()
        invariant
            j <= desired.len(),
            mon.wf(),
            mon@ == found.with_all(to_start(desired@), j as int),
        decreases desired.len() - j,
    {
        let d = &desired[j];
        let _ = mon.add(d.child.name.clone(), Unit::Daemon(d.child.duplicate()), d.restart_timeout, None);
        j += 1;
    }
    let mut dangling_dirs: Vec<String> = Vec::new();
    let mut k: usize = 0;
    assert(texts(dangling_dirs@) =~= Seq::empty());
    while k < dirs.len()
        invariant
            k <= dirs.len(),
            mon.wf(),
            texts(dangling_dirs@) == dangling(mon@, texts(dirs@), k as int),
        decreases dirs.len() - k,
    {
        let ghost before = texts(dangling_dirs@);
        assert(texts(dirs@)[k as int] == dirs[k as int]@);
        if !mon.has(dirs[k].as_str()) && !mon.stray_named(dirs[k].as_str()) {
            dangling_dirs.push(dirs[k].clone());
            assert(texts(dangling_dirs@) =~= before.push(dirs[k as int]@));
        }
        k += 1;
    }
    Plan { kills, signal: SIGTERM, dangling: dangling_dirs }
}

} // verus!
