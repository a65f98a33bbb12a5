//! The units that the supervisor runs: the daemon of an instance, a
//! command that runs once, and a process that was found running and could
//! not be placed.

use crate::command::{env_with, env_with_all, pairs, Command, CommandView};
use crate::identity::instance_argv;
use crate::monitor::{Executor, Finish, FinishView};
use crate::text::texts;
use vstd::prelude::*;
use vstd::string::*;

verus! {

/// `name` below the directory `dir`.
pub open spec fn path_below(dir: Seq<char>, name: Seq<char>) -> Seq<char> {
    dir + seq!['/'] + name
}

/// `name` below the directory `dir`.
pub fn join_path(dir: &str, name: &str) -> (r: String)
    ensures
        r@ == path_below(dir@, name@),
{
    proof {
        reveal_strlit("/");
    }
    let mut r = String::from_str(dir);
    r.append("/");
    r.append(name);
    assert(r@ =~= path_below(dir@, name@));
    r
}

/// A copy of a text that may be missing.
pub fn clone_text(o: &Option<String>) -> (r: Option<String>)
    ensures
        r == *o,
{
    match o {
        Some(s) => Some(s.clone()),
        None => None,
    }
}

/// The daemon of one instance, started through the program that sets up
/// its container.
#[derive(Clone, Debug, PartialEq, Eq)]
pub struct Child {
    pub name: String,
    /// The path of the supervisor's own configuration file.
    pub global_file: String,
    pub child_config_serialized: String,
    /// The directory that holds one directory for each instance.
    pub state_dir: String,
    pub root_binary: String,
    /// The terminal type, the log filter and the backtrace switch of the
    /// supervisor's own environment.
    pub term: Option<String>,
    pub rust_log: Option<String>,
    pub rust_backtrace: Option<String>,
}

/// The environment that a child inherits: the terminal type, `dumb` where
/// the supervisor has none, and the two switches where they are set.
pub open spec fn inherited_env(
    term: Option<String>,
    rust_log: Option<String>,
    rust_backtrace: Option<String>,
) -> Seq<(Seq<char>, Seq<char>)> {
    let e0 = env_with(
        Seq::empty(),
        "TERM"@,
        match term {
            Some(t) => t@,
            None => "dumb"@,
        },
    );
    let e1 = match rust_log {
        Some(x) => env_with(e0, "RUST_LOG"@, x@),
        None => e0,
    };
    match rust_backtrace {
        Some(x) => env_with(e1, "RUST_BACKTRACE"@, x@),
        None => e1,
    }
}

impl Child {
    /// A copy of the daemon.
    pub fn duplicate(&self) -> (c: Child)
        ensures
            c == *self,
    {
        Child {
            name: self.name.clone(),
            global_file: self.global_file.clone(),
            child_config_serialized: self.child_config_serialized.clone(),
            state_dir: self.state_dir.clone(),
            root_binary: self.root_binary.clone(),
            term: clone_text(&self.term),
            rust_log: clone_text(&self.rust_log),
            rust_backtrace: clone_text(&self.rust_backtrace),
        }
    }
}

impl Executor for Child {
    open spec fn spawnable(&self) -> bool {
        true
    }

    /// The name comes first among the arguments, so that a listing of the
    /// processes shows it.
    open spec fn command_view(&self) -> CommandView {
        CommandView {
            name: self.name@,
            executable: self.root_binary@,
            arguments: instance_argv(
                self.root_binary@,
                self.name@,
                self.global_file@,
                self.child_config_serialized@,
            ).subrange(1, 7),
            environment: inherited_env(self.term, self.rust_log, self.rust_backtrace),
            workdir: None,
            chroot: None,
            user_id: None,
            keep_sigmask: true,
            container: false,
        }
    }

    open spec fn prepare_view(&self) -> Option<Seq<char>> {
        Some(path_below(self.state_dir@, self.name@))
    }

    open spec fn finish_view(&self) -> FinishView {
        FinishView {
            remove_dir: Some(path_below(self.state_dir@, self.name@)),
            suppress_restart: false,
        }
    }

    fn can_spawn(&self) -> (b: bool) {
        true
    }

    fn command(&self) -> (c: Command) {
        let mut cmd = Command::new(self.name.clone(), self.root_binary.clone());
        cmd.keep_sigmask();
        cmd.arg("--name");
        cmd.arg(self.name.as_str());
        cmd.arg("--global-config");
        cmd.arg(self.global_file.as_str());
        cmd.arg("--config");
        cmd.arg(self.child_config_serialized.as_str());
        match &self.term {
            Some(t) => cmd.set_env("TERM", t.as_str()),
            None => cmd.set_env("TERM", "dumb"),
        }
        match &self.rust_log {
            Some(x) => cmd.set_env("RUST_LOG", x.as_str()),
            None => {},
        }
        match &self.rust_backtrace {
            Some(x) => cmd.set_env("RUST_BACKTRACE", x.as_str()),
            None => {},
        }
        cmd.container(false);
        assert(cmd@.arguments =~= self.command_view().arguments);
        cmd
    }

    fn prepare(&self) -> (dir: Option<String>) {
        Some(join_path(self.state_dir.as_str(), self.name.as_str()))
    }

    fn finish(&self) -> (f: Finish) {
        Finish {
            remove_dir: Some(join_path(self.state_dir.as_str(), self.name.as_str())),
            suppress_restart: false,
        }
    }
}

/// A process that was found running and is no instance that should run.
/// It is never started; where its name is known, its directory goes when
/// it has exited.
#[derive(Clone, Debug, PartialEq, Eq)]
pub struct UnidentifiedChild {
    pub name: Option<String>,
    pub state_dir: String,
}

impl UnidentifiedChild {
    /// What is left to do when the process has exited: its directory
    /// goes, where its name is known, and it is not started again.
    pub open spec fn finish_view(&self) -> FinishView {
        FinishView {
            remove_dir: match self.name {
                Some(name) => Some(path_below(self.state_dir@, name@)),
                None => None,
            },
            suppress_restart: true,
        }
    }

    pub fn finish(&self) -> (f: Finish)
        ensures
            f@ == self.finish_view(),
    {
        Finish {
            remove_dir: match &self.name {
                Some(name) => Some(join_path(self.state_dir.as_str(), name.as_str())),
                None => None,
            },
            suppress_restart: true,
        }
    }
}

/// A command that runs once inside the container's root.
#[derive(Clone, Debug, PartialEq, Eq)]
pub struct Target {
    pub name: String,
    pub executable: String,
    pub user_id: u32,
    /// The directory that becomes the root of the command.
    pub mount_dir: String,
    pub workdir: String,
    pub term: Option<String>,
    pub environ: Vec<(String, String)>,
    /// The arguments of the container's configuration.
    pub arguments: Vec<String>,
    /// The arguments of the caller, which follow them.
    pub args: Vec<String>,
}

impl Executor for Target {
    open spec fn spawnable(&self) -> bool {
        true
    }

    open spec fn command_view(&self) -> CommandView {
        CommandView {
            name: self.name@,
            executable: self.executable@,
            arguments: texts(self.arguments@) + texts(self.args@),
            environment: env_with(
                env_with_all(
                    env_with(
                        Seq::empty(),
                        "TERM"@,
                        match self.term {
                            Some(t) => t@,
                            None => "dumb"@,
                        },
                    ),
                    pairs(self.environ@),
                    self.environ.len() as int,
                ),
                "LITHOS_COMMAND"@,
                self.name@,
            ),
            workdir: Some(self.workdir@),
            chroot: Some(self.mount_dir@),
            user_id: Some(self.user_id),
            keep_sigmask: false,
            container: false,
        }
    }

    open spec fn prepare_view(&self) -> Option<Seq<char>> {
        None
    }

    /// A command is not started again.
    open spec fn finish_view(&self) -> FinishView {
        FinishView { remove_dir: None, suppress_restart: true }
    }

    fn can_spawn(&self) -> (b: bool) {
        true
    }

    fn command(&self) -> (c: Command) {
        let mut cmd = Command::new(self.name.clone(), self.executable.clone());
        cmd.set_user_id(self.user_id);
        cmd.chroot(self.mount_dir.as_str());
        cmd.set_workdir(self.workdir.as_str());
        match &self.term {
            Some(t) => cmd.set_env("TERM", t.as_str()),
            None => cmd.set_env("TERM", "dumb"),
        }
        cmd.update_env(&self.environ);
        cmd.set_env("LITHOS_COMMAND", self.name.as_str());
        cmd.args(&self.arguments);
        cmd.args(&self.args);
        assert(cmd@.arguments =~= self.command_view().arguments);
        cmd
    }

    fn prepare(&self) -> (dir: Option<String>) {
        None
    }

    fn finish(&self) -> (f: Finish) {
        Finish { remove_dir: None, suppress_restart: true }
    }
}

/// What the supervisor can hold: one of the three kinds of unit. A
/// process that could not be placed is never started: no command is ever
/// asked of it.
#[derive(Clone, Debug, PartialEq, Eq)]
pub enum Unit {
    Daemon(Child),
    Command(Target),
    Unidentified(UnidentifiedChild),
}

impl Executor for Unit {
    open spec fn spawnable(&self) -> bool {
        match *self {
            Unit::Daemon(c) => c.spawnable(),
            Unit::Command(t) => t.spawnable(),
            Unit::Unidentified(_) => false,
        }
    }

    open spec fn command_view(&self) -> CommandView {
        match *self {
            Unit::Daemon(c) => c.command_view(),
            Unit::Command(t) => t.command_view(),
            Unit::Unidentified(_) => arbitrary(),
        }
    }

    open spec fn prepare_view(&self) -> Option<Seq<char>> {
        match *self {
            Unit::Daemon(c) => c.prepare_view(),
            Unit::Command(t) => t.prepare_view(),
            Unit::Unidentified(_) => None,
        }
    }

    open spec fn finish_view(&self) -> FinishView {
        match *self {
            Unit::Daemon(c) => c.finish_view(),
            Unit::Command(t) => t.finish_view(),
            Unit::Unidentified(u) => u.finish_view(),
        }
    }

    fn can_spawn(&self) -> (b: bool) {
        match self {
            Unit::Daemon(c) => c.can_spawn(),
            Unit::Command(t) => t.can_spawn(),
            Unit::Unidentified(_) => false,
        }
    }

    fn command(&self) -> (c: Command) {
        match self {
            Unit::Daemon(c) => c.command(),
            Unit::Command(t) => t.command(),
            Unit::Unidentified(_) => unreached(),
        }
    }

    fn prepare(&self) -> (dir: Option<String>) {
        match self {
            Unit::Daemon(c) => c.prepare(),
            Unit::Command(t) => t.prepare(),
            Unit::Unidentified(_) => None,
        }
    }

    fn finish(&self) -> (f: Finish) {
        match self {
            Unit::Daemon(c) => c.finish(),
            Unit::Command(t) => t.finish(),
            Unit::Unidentified(u) => u.finish(),
        }
    }
}

/// The arguments that a daemon is started with are those by which a
/// running instance is recognised.
pub proof fn law_child_argv(child: Child)
    ensures
        child.command_view().argv() == instance_argv(
            child.root_binary@,
            child.name@,
            child.global_file@,
            child.child_config_serialized@,
        ),
{
    assert(child.command_view().argv() =~= instance_argv(
        child.root_binary@,
        child.name@,
        child.global_file@,
        child.child_config_serialized@,
    ));
}

} // verus!
