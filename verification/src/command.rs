//! What it takes to start one process: the program, its arguments and
//! environment, and where and as whom it runs.

use crate::text::{join_terminated, same_text, texts};
use vstd::prelude::*;
use vstd::string::*;

verus! {

/// How to start one process.
#[derive(Clone, Debug, PartialEq, Eq)]
pub struct Command {
    pub name: String,
    pub executable: String,
    pub arguments: Vec<String>,
    pub environment: Vec<(String, String)>,
    pub workdir: Option<String>,
    pub chroot: Option<String>,
    pub user_id: Option<u32>,
    pub keep_sigmask: bool,
    pub container: bool,
}

/// A command, with its texts as sequences of characters.
pub struct CommandView {
    pub name: Seq<char>,
    pub executable: Seq<char>,
    pub arguments: Seq<Seq<char>>,
    pub environment: Seq<(Seq<char>, Seq<char>)>,
    pub workdir: Option<Seq<char>>,
    pub chroot: Option<Seq<char>>,
    pub user_id: Option<u32>,
    pub keep_sigmask: bool,
    pub container: bool,
}

/// The view of a text that may be missing.
pub open spec fn opt_text(o: Option<String>) -> Option<Seq<char>> {
    match o {
        Some(s) => Some(s@),
        None => None,
    }
}

/// The views of a sequence of pairs of texts.
pub open spec fn pairs(v: Seq<(String, String)>) -> Seq<(Seq<char>, Seq<char>)> {
    Seq::new(v.len(), |i: int| (v[i].0@, v[i].1@))
}

/// The first position at or after `from` whose variable is `key`, or the
/// length of `env` when there is none.
pub open spec fn env_find(env: Seq<(Seq<char>, Seq<char>)>, key: Seq<char>, from: int) -> int
    decreases env.len() - from,
{
    if 0 <= from < env.len() && env[from].0 != key {
        env_find(env, key, from + 1)
    } else {
        from
    }
}

/// `env` with `key` set to `value`: in place where `key` is set already,
/// at the end otherwise.
pub open spec fn env_with(
    env: Seq<(Seq<char>, Seq<char>)>,
    key: Seq<char>,
    value: Seq<char>,
) -> Seq<(Seq<char>, Seq<char>)> {
    let p = env_find(env, key, 0);
    if p < env.len() {
        env.update(p, (key, value))
    } else {
        env.push((key, value))
    }
}

/// `env` with the first `n` settings of `more` made, in order.
pub open spec fn env_with_all(
    env: Seq<(Seq<char>, Seq<char>)>,
    more: Seq<(Seq<char>, Seq<char>)>,
    n: int,
) -> Seq<(Seq<char>, Seq<char>)>
    decreases n,
{
    if n <= 0 {
        env
    } else {
        env_with(env_with_all(env, more, n - 1), more[n - 1].0, more[n - 1].1)
    }
}

impl CommandView {
    /// The argument vector: the program, then its arguments.
    pub open spec fn argv(self) -> Seq<Seq<char>> {
        seq![self.executable] + self.arguments
    }

    /// The argument vector as the kernel shows it for a running process:
    /// every argument followed by a NUL.
    pub open spec fn cmdline(self) -> Seq<char> {
        join_terminated(self.argv(), '\0')
    }
}

impl View for Command {
    type V = CommandView;

    open spec fn view(&self) -> CommandView {
        CommandView {
            name: self.name@,
            executable: self.executable@,
            arguments: texts(self.arguments@),
            environment: pairs(self.environment@),
            workdir: opt_text(self.workdir),
            chroot: opt_text(self.chroot),
            user_id: self.user_id,
            keep_sigmask: self.keep_sigmask,
            container: self.container,
        }
    }
}

impl Command {
    /// A command that runs `executable` without arguments, with an empty
    /// environment, as the caller and where the caller is.
    pub fn new(name: String, executable: String) -> (c: Command)
        ensures
            c@ == (CommandView {
                name: name@,
                executable: executable@,
                arguments: Seq::empty(),
                environment: Seq::empty(),
                workdir: None,
                chroot: None,
                user_id: None,
                keep_sigmask: false,
                container: false,
            }),
    {
        let c = Command {
            name,
            executable,
            arguments: Vec::new(),
            environment: Vec::new(),
            workdir: None,
            chroot: None,
            user_id: None,
            keep_sigmask: false,
            container: false,
        };
        assert(c@.arguments =~= Seq::empty());
        assert(c@.environment =~= Seq::empty());
        c
    }

    /// The process keeps the signal mask of its parent.
    pub fn keep_sigmask(&mut self)
        ensures
            final(self)@ == (CommandView { keep_sigmask: true, ..old(self)@ }),
    {
        self.keep_sigmask = true;
    }

    /// Whether the process gets namespaces of its own.
    pub fn container(&mut self, on: bool)
        ensures
            final(self)@ == (CommandView { container: on, ..old(self)@ }),
    {
        self.container = on;
    }

    /// The process runs as the user `uid`.
    pub fn set_user_id(&mut self, uid: u32)
        ensures
            final(self)@ == (CommandView { user_id: Some(uid), ..old(self)@ }),
    {
        self.user_id = Some(uid);
    }

    /// The process runs with `dir` as its root.
    pub fn chroot(&mut self, dir: &str)
        ensures
            final(self)@ == (CommandView { chroot: Some(dir@), ..old(self)@ }),
    {
        self.chroot = Some(String::from_str(dir));
    }

    /// The process starts in the directory `dir`.
    pub fn set_workdir(&mut self, dir: &str)
        ensures
            final(self)@ == (CommandView { workdir: Some(dir@), ..old(self)@ }),
    {
        self.workdir = Some(String::from_str(dir));
    }

    /// Adds one argument at the end.
    pub fn arg(&mut self, value: &str)
        ensures
            final(self)@ == (CommandView {
                arguments: old(self)@.arguments.push(value@),
                ..old(self)@
            }),
    {
        self.arguments.push(String::from_str(value));
        assert(texts(self.arguments@) =~= texts(old(self).arguments@).push(value@));
    }

    /// Adds the arguments of `values` at the end, in order.
    pub fn args(&mut self, values: &Vec<String>)
        ensures
            final(self)@ == (CommandView {
                arguments: old(self)@.arguments + texts(values@),
                ..old(self)@
            }),
    {
        let mut i: usize = 0;
        assert(texts(values@).subrange(0, 0) =~= Seq::empty());
        assert(old(self)@.arguments + Seq::empty() =~= old(self)@.arguments);
        while i < values.len()
            invariant
                i <= values.len(),
                self@ == (CommandView {
                    arguments: old(self)@.arguments + texts(values@).subrange(0, i as int),
                    ..old(self)@
                }),
            decreases values.len() - i,
        {
            let ghost before = self@.arguments;
            self.arg(values[i].as_str());
            assert(texts(values@).subrange(0, i + 1) =~= texts(values@).subrange(0, i as int).push(
                values[i as int]@,
            ));
            assert(before.push(values[i as int]@) =~= old(self)@.arguments + texts(
                values@,
            ).subrange(0, i + 1));
            i += 1;
        }
        assert(texts(values@).subrange(0, values.len() as int) =~= texts(values@));
    }

    /// Sets one variable of the environment, replacing what it was set to.
    pub fn set_env(&mut self, key: &str, value: &str)
        ensures
            final(self)@ == (CommandView {
                environment: env_with(old(self)@.environment, key@, value@),
                ..old(self)@
            }),
    {
        let ghost env = self@.environment;
        let mut i: usize = 0;
        while i < self.environment.len() && !same_text(self.environment[i].0.as_str(), key)
            invariant
                *self == *old(self),
                env == self@.environment,
                i <= self.environment.len(),
                env_find(env, key@, 0) == env_find(env, key@, i as int),
            decreases self.environment.len() - i,
        {
            i += 1;
        }
        let entry = (String::from_str(key), String::from_str(value));
        if i < self.environment.len() {
            self.environment.set(i, entry);
            assert(pairs(self.environment@) =~= env.update(i as int, (key@, value@)));
        } else {
            self.environment.push(entry);
            assert(pairs(self.environment@) =~= env.push((key@, value@)));
        }
    }

    /// Sets every variable of `more`, in order.
    pub fn update_env(&mut self, more: &Vec<(String, String)>)
        ensures
            final(self)@ == (CommandView {
                environment: env_with_all(
                    old(self)@.environment,
                    pairs(more@),
                    more.len() as int,
                ),
                ..old(self)@
            }),
    {
        let mut i: usize = 0;
        while i < more.len()
            invariant
                i <= more.len(),
                self@ == (CommandView {
                    environment: env_with_all(old(self)@.environment, pairs(more@), i as int),
                    ..old(self)@
                }),
            decreases more.len() - i,
        {
            self.set_env(more[i].0.as_str(), more[i].1.as_str());
            i += 1;
        }
    }

    /// The argument vector: the program, then its arguments.
    pub fn argv(&self) -> (v: Vec<String>)
        ensures
            texts(v@) == self@.argv(),
    {
        let mut v: Vec<String> = Vec::new();
        v.push(self.executable.clone());
        let mut i: usize = 0;
        assert(texts(v@) =~= seq![self.executable@] + texts(self.arguments@).subrange(0, 0));
        while i < self.arguments.len()
            invariant
                i <= self.arguments.len(),
                texts(v@) == seq![self.executable@] + texts(self.arguments@).subrange(0, i as int),
            decreases self.arguments.len() - i,
        {
            let ghost before = texts(v@);
            v.push(self.arguments[i].clone());
            assert(texts(v@) =~= before.push(self.arguments[i as int]@));
            assert(texts(self.arguments@).subrange(0, i + 1) =~= texts(self.arguments@).subrange(
                0,
                i as int,
            ).push(self.arguments[i as int]@));
            assert(texts(v@) =~= seq![self.executable@] + texts(self.arguments@).subrange(
                0,
                i + 1,
            ));
            i += 1;
        }
        assert(texts(self.arguments@).subrange(0, self.arguments.len() as int) =~= texts(
            self.arguments@,
        ));
        v
    }

    /// The argument vector as the kernel shows it for a running process.
    pub fn cmdline(&self) -> (s: String)
        ensures
            s@ == self@.cmdline(),
    {
        let v = self.argv();
        let mut s = String::new();
        let mut i: usize = 0;
        proof {
            reveal_strlit("\0");
            assert(texts(v@).subrange(0, 0) =~= Seq::empty());
        }
        while i < v.len()
            invariant
                i <= v.len(),
                "\0"@ == seq!['\0'],
                s@ == join_terminated(texts(v@).subrange(0, i as int), '\0'),
            decreases v.len() - i,
        {
            let ghost before = s@;
            s.append(v[i].as_str());
            s.append("\0");
            proof {
                let parts = texts(v@).subrange(0, i + 1);
                assert(parts.drop_last() =~= texts(v@).subrange(0, i as int));
                assert(parts.last() == v[i as int]@);
                assert(s@ =~= before + v[i as int]@.push('\0'));
            }
            i += 1;
        }
        assert(texts(v@).subrange(0, v.len() as int) =~= texts(v@));
        s
    }
}

} // verus!
