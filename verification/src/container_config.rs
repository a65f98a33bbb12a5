//! The configuration of a container, and the variables in it.

use crate::child_config::ChildKind;
use crate::command::{env_find, opt_text, pairs};
use crate::id_map::{map_id, mapped, IdMap};
use crate::identity::{is_word, is_word_char};
use crate::sandbox_config::{in_range, within, Range, SandboxConfig};
use crate::text::{chars_of, first_at, parse_unsigned, same_text, texts, unsigned_reading};
use vstd::prelude::*;
use vstd::string::*;

verus! {

/// Seconds that a container is given to end before it is killed.
pub const DEFAULT_KILL_TIMEOUT: u32 = 5;

/// A volume in memory.
#[derive(Clone, Copy, PartialEq, Eq, Structural)]
pub struct TmpfsInfo {
    pub size: usize,
    pub mode: u32,
}

/// A volume that outlives the container.
pub struct PersistentInfo {
    pub path: String,
    pub mkdir: bool,
    pub mode: u32,
    pub user: u32,
    pub group: u32,
}

/// A volume below the state directory of the instance.
pub struct StatedirInfo {
    pub path: String,
    pub mode: u32,
    pub user: u32,
    pub group: u32,
}

/// What is mounted into a container.
pub enum Volume {
    Readonly(String),
    Persistent(PersistentInfo),
    Tmpfs(TmpfsInfo),
    Statedir(StatedirInfo),
}

/// How a container may be run.
#[derive(Debug, PartialEq, Eq, Clone, Copy, Structural)]
pub enum ContainerKind {
    Daemon,
    Command,
    CommandOrDaemon,
}

impl ContainerKind {
    /// Whether a container of this kind may run as a child of `child_kind`.
    pub fn matches(self, child_kind: ChildKind) -> (b: bool)
        ensures
            b == (self == ContainerKind::CommandOrDaemon || (self == ContainerKind::Command
                && child_kind == ChildKind::Command) || (self == ContainerKind::Daemon
                && child_kind == ChildKind::Daemon)),
    {
        match (self, child_kind) {
            (ContainerKind::Command, ChildKind::Command) => true,
            (ContainerKind::Daemon, ChildKind::Daemon) => true,
            (ContainerKind::CommandOrDaemon, ChildKind::Command) => true,
            (ContainerKind::CommandOrDaemon, ChildKind::Daemon) => true,
            (ContainerKind::Command, ChildKind::Daemon) => false,
            (ContainerKind::Daemon, ChildKind::Command) => false,
        }
    }
}

/// Where the resolver's configuration comes from.
#[derive(Clone, Copy, PartialEq, Eq, Structural)]
pub struct ResolvConf {
    pub copy_from_host: bool,
}

/// What the hosts file of a container holds.
#[derive(Clone, Copy, PartialEq, Eq, Structural)]
pub struct HostsFile {
    pub copy_from_host: bool,
    pub localhost: Option<bool>,
    pub public_hostname: Option<bool>,
}

/// The address of a host, as the configuration writes it.
pub struct Host(pub String);

/// A socket that is opened for a container before it starts.
pub struct TcpPort {
    pub host: Host,
    pub fd: i32,
    pub reuse_addr: bool,
    pub reuse_port: bool,
    pub listen_backlog: usize,
}

/// The kind of a variable: what its values may be.
pub enum Variable {
    TcpPort,
    Name,
    Choice(Vec<String>),
}

/// What is filled in for the variables of a container's configuration.
pub struct Variables<'a> {
    pub user_vars: &'a Vec<(String, String)>,
    pub lithos_name: &'a str,
    pub lithos_config_filename: &'a str,
}

/// The configuration of a container, as its image holds it.
pub struct ContainerConfig {
    pub kind: ContainerKind,
    pub variables: Vec<(String, Variable)>,
    pub volumes: Vec<(String, Volume)>,
    pub user_id: u32,
    pub group_id: u32,
    /// Seconds between a start and the next start attempt.
    pub restart_timeout: u32,
    /// Seconds that the container is given to end before it is killed.
    pub kill_timeout: u32,
    pub memory_limit: u64,
    pub fileno_limit: u64,
    pub cpu_shares: usize,
    pub executable: String,
    pub arguments: Vec<String>,
    pub environ: Vec<(String, String)>,
    pub workdir: String,
    pub resolv_conf: ResolvConf,
    pub hosts_file: HostsFile,
    pub uid_map: Vec<IdMap>,
    pub gid_map: Vec<IdMap>,
    pub stdout_stderr_file: Option<String>,
    pub interactive: bool,
    pub restart_process_only: bool,
    /// The ports to listen on; a port may be written with variables.
    pub tcp_ports: Vec<(String, TcpPort)>,
}

/// A container's configuration with its variables filled in.
pub struct InstantiatedConfig {
    pub kind: ContainerKind,
    pub volumes: Vec<(String, Volume)>,
    pub user_id: u32,
    pub group_id: u32,
    pub restart_timeout: u32,
    pub kill_timeout: u32,
    pub memory_limit: u64,
    pub fileno_limit: u64,
    pub cpu_shares: usize,
    pub executable: String,
    pub arguments: Vec<String>,
    pub environ: Vec<(String, String)>,
    pub workdir: String,
    pub resolv_conf: ResolvConf,
    pub hosts_file: HostsFile,
    pub uid_map: Vec<IdMap>,
    pub gid_map: Vec<IdMap>,
    pub stdout_stderr_file: Option<String>,
    pub interactive: bool,
    pub restart_process_only: bool,
    pub tcp_ports: Vec<(u16, TcpPort)>,
}

impl InstantiatedConfig {
    /// The user id outside the container that `internal_uid` stands for.
    pub fn map_uid(&self, internal_uid: u32) -> (r: Option<u32>)
        ensures
            r == mapped(self.uid_map@, internal_uid),
    {
        map_id(&self.uid_map, internal_uid)
    }

    /// The group id outside the container that `internal_gid` stands for.
    pub fn map_gid(&self, internal_gid: u32) -> (r: Option<u32>)
        ensures
            r == mapped(self.gid_map@, internal_gid),
    {
        map_id(&self.gid_map, internal_gid)
    }
}

/// Why a value does not suit a variable.
#[derive(Clone, Copy, Debug, PartialEq, Eq, Structural)]
pub enum VariableFault {
    /// The value is no port number.
    InvalidTcpPort,
    /// The sandbox does not allow the port.
    PortNotAllowed(u16),
    /// The value holds a character that a name cannot hold.
    BadName,
    /// The value is none of the choices.
    NotAChoice,
}

/// Whether every character of `value` is an ASCII letter or digit, `-` or
/// `_`.
pub open spec fn is_plain_name(value: Seq<char>) -> bool {
    forall|i: int| 0 <= i < value.len() ==> is_word_char(#[trigger] value[i])
}

/// Whether `value` is one of `choices`.
pub open spec fn is_choice(choices: Seq<String>, value: Seq<char>) -> bool {
    exists|k: int| 0 <= k < choices.len() && (#[trigger] choices[k])@ == value
}

/// What `validate` answers: a port has to be a number that the sandbox
/// allows, a name has to be plain, a choice has to be one of the choices.
pub open spec fn variable_verdict(
    var: Variable,
    value: Seq<char>,
    ports: Seq<Range>,
) -> Result<(), VariableFault> {
    match var {
        Variable::TcpPort => match unsigned_reading(value, u16::MAX as nat) {
            Some(port) => if within(ports, port as u32) {
                Ok(())
            } else {
                Err(VariableFault::PortNotAllowed(port as u16))
            },
            None => Err(VariableFault::InvalidTcpPort),
        },
        Variable::Name => if is_plain_name(value) {
            Ok(())
        } else {
            Err(VariableFault::BadName)
        },
        Variable::Choice(choices) => if is_choice(choices@, value) {
            Ok(())
        } else {
            Err(VariableFault::NotAChoice)
        },
    }
}

/// Reads a port number: digits, with or without a `+` before them.
pub fn parse_port(text: &str) -> (r: Option<u16>)
    ensures
        match unsigned_reading(text@, u16::MAX as nat) {
            Some(n) => r == Some(n as u16),
            None => r is None,
        },
{
    let v = chars_of(text);
    assert(v@.subrange(0, v.len() as int) == text@);
    match parse_unsigned(&v, 0, v.len(), 0xffff) {
        Some(p) => Some(p as u16),
        None => None,
    }
}

impl Variable {
    /// Whether `value` suits the variable in `sandbox`.
    pub fn validate(&self, value: &str, sandbox: &SandboxConfig) -> (r: Result<(), VariableFault>)
        ensures
            r == variable_verdict(*self, value@, sandbox.allow_tcp_ports@),
    {
        match self {
            Variable::TcpPort => {
                match parse_port(value) {
                    Some(port) => {
                        if in_range(&sandbox.allow_tcp_ports, port as u32) {
                            Ok(())
                        } else {
                            Err(VariableFault::PortNotAllowed(port))
                        }
                    },
                    None => Err(VariableFault::InvalidTcpPort),
                }
            },
            Variable::Name => {
                let v = chars_of(value);
                let mut i: usize = 0;
                while i < v.len()
                    invariant
                        *self is Name,
                        v@ == value@,
                        i <= v.len(),
                        forall|k: int| 0 <= k < i ==> is_word_char(#[trigger] v[k]),
                    decreases v.len() - i,
                {
                    if !is_word(v[i]) {
                        assert(!is_word_char(value@[i as int]));
                        return Err(VariableFault::BadName);
                    }
                    i += 1;
                }
                Ok(())
            },
            Variable::Choice(choices) => {
                let mut k: usize = 0;
                while k < choices.len()
                    invariant
                        *self == Variable::Choice(*choices),
                        k <= choices.len(),
                        forall|j: int| 0 <= j < k ==> (#[trigger] choices[j])@ != value@,
                    decreases choices.len() - k,
                {
                    if same_text(choices[k].as_str(), value) {
                        return Ok(());
                    }
                    k += 1;
                }
                Err(VariableFault::NotAChoice)
            },
        }
    }
}

/// A white space character, as Unicode lists them.
pub open spec fn is_white_space(c: char) -> bool {
    ('\u{9}' <= c && c <= '\u{d}') || c == ' ' || c == '\u{85}' || c == '\u{a0}' || c
        == '\u{1680}' || ('\u{2000}' <= c && c <= '\u{200a}') || c == '\u{2028}' || c
        == '\u{2029}' || c == '\u{202f}' || c == '\u{205f}' || c == '\u{3000}'
}

/// Where the white space that starts at `from` ends.
pub open spec fn white_end(s: Seq<char>, from: int) -> int
    decreases s.len() - from,
{
    if 0 <= from < s.len() && is_white_space(s[from]) {
        white_end(s, from + 1)
    } else {
        from
    }
}

/// Where the white space that ends at `to` starts, `from` at the earliest.
pub open spec fn white_start(s: Seq<char>, from: int, to: int) -> int
    decreases to - from,
{
    if from < to <= s.len() && is_white_space(s[to - 1]) {
        white_start(s, from, to - 1)
    } else {
        to
    }
}

/// `s[from..to]` without the white space at its start and at its end.
pub open spec fn trimmed(s: Seq<char>, from: int, to: int) -> Seq<char> {
    let a = if white_end(s, from) < to {
        white_end(s, from)
    } else {
        to
    };
    s.subrange(a, white_start(s, a, to))
}

/// The first position at or after `from` where `@{` starts, or the length
/// of `s` when there is none.
pub open spec fn next_var(s: Seq<char>, from: int) -> int
    decreases s.len() - from,
{
    if 0 <= from && from + 1 < s.len() {
        if s[from] == '@' && s[from + 1] == '{' {
            from
        } else {
            next_var(s, from + 1)
        }
    } else {
        s.len() as int
    }
}

/// The variables of `s` from `from` on, in order: each is the text from
/// its `@{` up to the next `}`, trimmed. A `@{` that no `}` follows starts
/// no variable, and nothing behind it does.
pub open spec fn var_texts(s: Seq<char>, from: int) -> Seq<Seq<char>>
    decreases s.len() - from,
{
    let at = next_var(s, from);
    let close = first_at(s, '}', at);
    if 0 <= from <= at && at < close < s.len() {
        seq![trimmed(s, at, close)] + var_texts(s, close + 1)
    } else {
        Seq::empty()
    }
}

/// `s` from `from` on, with `outs[used]`, `outs[used + 1]` and so on in
/// the places of its variables, braces included.
pub open spec fn filled(s: Seq<char>, from: int, outs: Seq<Seq<char>>, used: int) -> Seq<char>
    decreases s.len() - from,
{
    let at = next_var(s, from);
    let close = first_at(s, '}', at);
    if 0 <= from <= at && at < close < s.len() {
        s.subrange(from, at) + outs[used] + filled(s, close + 1, outs, used + 1)
    } else if 0 <= from <= s.len() {
        s.subrange(from, s.len() as int)
    } else {
        Seq::empty()
    }
}

/// Whether `c` is a white space character.
pub fn is_space(c: char) -> (b: bool)
    ensures
        b == is_white_space(c),
{
    (c >= '\u{9}' && c <= '\u{d}') || c == ' ' || c == '\u{85}' || c == '\u{a0}' || c
        == '\u{1680}' || (c >= '\u{2000}' && c <= '\u{200a}') || c == '\u{2028}' || c
        == '\u{2029}' || c == '\u{202f}' || c == '\u{205f}' || c == '\u{3000}'
}

/// The bounds of `v[from..to]` without the white space at its start and
/// at its end.
fn trim_bounds(v: &Vec<char>, from: usize, to: usize) -> (r: (usize, usize))
    requires
        from <= to <= v.len(),
    ensures
        from <= r.0 <= r.1 <= to,
        v@.subrange(r.0 as int, r.1 as int) == trimmed(v@, from as int, to as int),
{
    let mut a: usize = from;
    while a < to && is_space(v[a])
        invariant
            from <= a <= to <= v.len(),
            white_end(v@, from as int) == white_end(v@, a as int) || (a == to && white_end(
                v@,
                from as int,
            ) >= to),
        decreases to - a,
    {
        a += 1;
        proof {
            lemma_white_end(v@, a as int);
        }
    }
    proof {
        lemma_white_end(v@, a as int);
    }
    let mut b: usize = to;
    while b > a && is_space(v[b - 1])
        invariant
            a <= b <= to <= v.len(),
            white_start(v@, a as int, to as int) == white_start(v@, a as int, b as int),
        decreases b - a,
    {
        b -= 1;
    }
    (a, b)
}

/// The white space that starts at `from` ends within the text.
pub proof fn lemma_white_end(s: Seq<char>, from: int)
    requires
        0 <= from <= s.len(),
    ensures
        from <= white_end(s, from) <= s.len(),
    decreases s.len() - from,
{
    if from < s.len() && is_white_space(s[from]) {
        lemma_white_end(s, from + 1);
    }
}

/// Where `@{` starts next in `v`, at or after `from`.
fn find_var(v: &Vec<char>, from: usize) -> (at: usize)
    requires
        from <= v.len(),
    ensures
        at == next_var(v@, from as int),
        from <= at <= v.len(),
{
    let n: usize = v.len();
    let mut i: usize = from;
    while n - i > 1
        invariant
            from <= i <= n == v.len(),
            next_var(v@, from as int) == next_var(v@, i as int),
        decreases n - i,
    {
        if v[i] == '@' && v[i + 1] == '{' {
            return i;
        }
        i += 1;
    }
    n
}

fn find_close(v: &Vec<char>, from: usize) -> (at: usize)
    requires
        from <= v.len(),
    ensures
        at == first_at(v@, '}', from as int),
        from <= at <= v.len(),
{
    let mut i: usize = from;
    while i < v.len() && v[i] != '}'
        invariant
            from <= i <= v.len(),
            first_at(v@, '}', from as int) == first_at(v@, '}', i as int),
        decreases v.len() - i,
    {
        i += 1;
    }
    i
}

/// Whether `r` is `s` with the answers `outs` in the places of its
/// variables, where `f` gave each answer when asked for the variable.
pub open spec fn replaced_by<F: Fn(&str) -> String>(
    f: F,
    s: Seq<char>,
    asked: Seq<&str>,
    outs: Seq<String>,
    r: Seq<char>,
) -> bool {
    &&& asked.len() == outs.len() == var_texts(s, 0).len()
    &&& forall|i: int|
        0 <= i < asked.len() ==> (#[trigger] asked[i])@ == var_texts(s, 0)[i] && call_ensures(
            f,
            (asked[i],),
            outs[i],
        )
    &&& r == filled(s, 0, texts(outs), 0)
}

/// Puts what `f` answers in the place of every variable of `s`. A variable
/// starts at `@{` and ends at the next `}`; `f` is asked once for each, in
/// order, with the text from the `@{` up to the `}`, trimmed. A `@{` that
/// no `}` follows is text like any other.
pub fn replace_vars<F: Fn(&str) -> String>(s: &str, f: F) -> (r: String)
    requires
        forall|var: &str| call_requires(f, (var,)),
    ensures
        exists|asked: Seq<&str>, outs: Seq<String>| #[trigger] replaced_by(f, s@, asked, outs, r@),
{
    let v = chars_of(s);
    let n: usize = v.len();
    let mut result = String::new();
    let mut pos: usize = 0;
    let ghost mut asked: Seq<&str> = Seq::empty();
    let ghost mut outs: Seq<String> = Seq::empty();
    let ghost all = var_texts(s@, 0);
    let mut open: bool = true;
    while open
        invariant
            v@ == s@,
            n == v.len(),
            pos <= n,
            forall|var: &str| call_requires(f, (var,)),
            all == var_texts(s@, 0),
            asked.len() == outs.len(),
            all == Seq::new(asked.len(), |i: int| asked[i]@) + var_texts(s@, pos as int),
            forall|i: int|
                0 <= i < asked.len() ==> call_ensures(f, (#[trigger] asked[i],), outs[i]),
            forall|rest: Seq<Seq<char>>|
                #![trigger filled(s@, 0, texts(outs) + rest, 0)]
                filled(s@, 0, texts(outs) + rest, 0) == result@ + filled(
                    s@,
                    pos as int,
                    texts(outs) + rest,
                    outs.len() as int,
                ),
            !open ==> var_texts(s@, pos as int).len() == 0 && filled(
                s@,
                pos as int,
                texts(outs),
                outs.len() as int,
            ) == s@.subrange(pos as int, n as int),
        decreases n - pos, (if open { 1int } else { 0int }),
    {
        let at = find_var(&v, pos);
        let close = find_close(&v, at);
        let ghost written = result@;
        if at < close && close < n {
            let (a, b) = trim_bounds(&v, at, close);
            let var = s.substring_char(a, b);
            let out = f(var);
            result.append(s.substring_char(pos, at));
            result.append(out.as_str());
            proof {
                let old_outs = outs;
                let old_asked = asked;
                asked = asked.push(var);
                outs = outs.push(out);
                assert(Seq::new(asked.len(), |i: int| asked[i]@) =~= Seq::new(
                    old_asked.len(),
                    |i: int| old_asked[i]@,
                ).push(var@));
                assert(all =~= Seq::new(asked.len(), |i: int| asked[i]@) + var_texts(
                    s@,
                    close + 1,
                ));
                assert forall|rest: Seq<Seq<char>>|
                    #![trigger filled(s@, 0, texts(outs) + rest, 0)]
                    filled(s@, 0, texts(outs) + rest, 0) == result@ + filled(
                        s@,
                        close + 1,
                        texts(outs) + rest,
                        outs.len() as int,
                    ) by {
                    let longer = seq![out@] + rest;
                    assert(texts(outs) + rest =~= texts(old_outs) + longer);
                    assert((texts(old_outs) + longer)[old_outs.len() as int] == out@);
                    assert(filled(s@, 0, texts(old_outs) + longer, 0) == written + filled(
                        s@,
                        pos as int,
                        texts(old_outs) + longer,
                        old_outs.len() as int,
                    ));
                }
            }
            pos = close + 1;
        } else {
            open = false;
            proof {
                assert(texts(outs) + Seq::<Seq<char>>::empty() =~= texts(outs));
            }
        }
    }
    result.append(s.substring_char(pos, n));
    proof {
        assert(texts(outs) + Seq::<Seq<char>>::empty() =~= texts(outs));
        assert(Seq::new(asked.len(), |i: int| asked[i]@) + Seq::<Seq<char>>::empty() =~= Seq::new(
            asked.len(),
            |i: int| asked[i]@,
        ));
        assert(asked.len() == all.len());
        assert forall|i: int| 0 <= i < asked.len() implies (#[trigger] asked[i])@ == all[i] by {
            assert(Seq::new(asked.len(), |j: int| asked[j]@)[i] == asked[i]@);
        }
        assert(replaced_by(f, s@, asked, outs, result@));
    }
    result
}

/// Why a configuration cannot be instantiated.
#[derive(Clone, Debug, PartialEq, Eq)]
pub enum InstantiateError {
    /// Nothing stands for this variable.
    UnknownVariable(String),
    /// What stands for this port, written with variables, is no port
    /// number.
    BadPort(String),
}

/// An error of `instantiate`, with its text as a sequence of characters.
pub enum InstantiateFault {
    UnknownVariable(Seq<char>),
    BadPort(Seq<char>),
}

impl View for InstantiateError {
    type V = InstantiateFault;

    open spec fn view(&self) -> InstantiateFault {
        match *self {
            InstantiateError::UnknownVariable(v) => InstantiateFault::UnknownVariable(v@),
            InstantiateError::BadPort(k) => InstantiateFault::BadPort(k@),
        }
    }
}

/// The views of a sequence of errors.
pub open spec fn faults(v: Seq<InstantiateError>) -> Seq<InstantiateFault> {
    Seq::new(v.len(), |i: int| v[i]@)
}

impl<'a> Variables<'a> {
    /// What stands for the variable `name`: what the user has set it to,
    /// or else, for the two variables that every container has, the name
    /// of the container and the name of its configuration file.
    pub open spec fn value_of(&self, name: Seq<char>) -> Option<Seq<char>> {
        let k = env_find(pairs(self.user_vars@), name, 0);
        if k < self.user_vars.len() {
            Some(self.user_vars[k].1@)
        } else if name == "lithos:name"@ {
            Some(self.lithos_name@)
        } else if name == "lithos:config_filename"@ {
            Some(self.lithos_config_filename@)
        } else {
            None
        }
    }

    /// What `f` is given for the variables of `s`, in order; nothing for
    /// a variable that nothing stands for.
    pub open spec fn answers(&self, s: Seq<char>) -> Seq<Seq<char>> {
        Seq::new(
            var_texts(s, 0).len(),
            |i: int|
                match self.value_of(var_texts(s, 0)[i]) {
                    Some(x) => x,
                    None => Seq::empty(),
                },
        )
    }

    /// Whether something stands for every variable of `s`.
    pub open spec fn all_known(&self, s: Seq<char>) -> bool {
        forall|i: int| 0 <= i < var_texts(s, 0).len() ==> self.value_of(#[trigger] var_texts(s, 0)[i]) is Some
    }

    /// `s` with its variables filled in.
    pub open spec fn resolved(&self, s: Seq<char>) -> Seq<char> {
        filled(s, 0, self.answers(s), 0)
    }

    /// The port that `key` stands for.
    pub open spec fn port_of(&self, key: Seq<char>) -> Option<u16> {
        if self.all_known(key) {
            match unsigned_reading(self.resolved(key), u16::MAX as nat) {
                Some(n) => Some(n as u16),
                None => None,
            }
        } else {
            None
        }
    }

    /// `acc`, and behind it those of the first `n` of `vars` that nothing
    /// stands for and that are not there yet.
    pub open spec fn noted(&self, acc: Seq<Seq<char>>, vars: Seq<Seq<char>>, n: int) -> Seq<
        Seq<char>,
    >
        decreases n,
    {
        if n <= 0 {
            acc
        } else {
            let a = self.noted(acc, vars, n - 1);
            if self.value_of(vars[n - 1]) is None && !a.contains(vars[n - 1]) {
                a.push(vars[n - 1])
            } else {
                a
            }
        }
    }

    /// The variables of the first `n` of `sources` that nothing stands
    /// for, each once, in the order in which they come first.
    pub open spec fn unknown(&self, sources: Seq<Seq<char>>, n: int) -> Seq<Seq<char>>
        decreases n,
    {
        if n <= 0 {
            Seq::empty()
        } else {
            let vars = var_texts(sources[n - 1], 0);
            self.noted(self.unknown(sources, n - 1), vars, vars.len() as int)
        }
    }

    /// Those of the first `n` of `keys` that stand for no port, each once.
    pub open spec fn bad_ports(&self, keys: Seq<Seq<char>>, n: int) -> Seq<Seq<char>>
        decreases n,
    {
        if n <= 0 {
            Seq::empty()
        } else {
            let a = self.bad_ports(keys, n - 1);
            if self.port_of(keys[n - 1]) is None && !a.contains(keys[n - 1]) {
                a.push(keys[n - 1])
            } else {
                a
            }
        }
    }

    /// What stands for the variable `name`.
    pub fn lookup(&self, name: &str) -> (r: Option<String>)
        ensures
            opt_text(r) == self.value_of(name@),
    {
        let mut k: usize = 0;
        while k < self.user_vars.len() && !same_text(self.user_vars[k].0.as_str(), name)
            invariant
                k <= self.user_vars.len(),
                env_find(pairs(self.user_vars@), name@, 0) == env_find(
                    pairs(self.user_vars@),
                    name@,
                    k as int,
                ),
            decreases self.user_vars.len() - k,
        {
            k += 1;
        }
        if k < self.user_vars.len() {
            Some(self.user_vars[k].1.clone())
        } else if same_text(name, "lithos:name") {
            Some(String::from_str(self.lithos_name))
        } else if same_text(name, "lithos:config_filename") {
            Some(String::from_str(self.lithos_config_filename))
        } else {
            None
        }
    }

    /// `s` with its variables filled in; a variable that nothing stands
    /// for is left out.
    pub fn resolve(&self, s: &str) -> (r: String)
        ensures
            r@ == self.resolved(s@),
    {
        let f = |var: &str| -> (out: String)
            ensures
                out@ == (match self.value_of(var@) {
                    Some(x) => x,
                    None => Seq::empty(),
                }),
            {
                match self.lookup(var) {
                    Some(x) => x,
                    None => String::new(),
                }
            };
        let r = replace_vars(s, f);
        proof {
            let (asked, outs) = choose|asked: Seq<&str>, outs: Seq<String>| #[trigger]
                replaced_by(f, s@, asked, outs, r@);
            assert forall|i: int| 0 <= i < outs.len() implies texts(outs)[i] == self.answers(
                s@,
            )[i] by {
                assert(asked[i]@ == var_texts(s@, 0)[i]);
                assert(call_ensures(f, (asked[i],), outs[i]));
            }
            assert(texts(outs) =~= self.answers(s@));
        }
        r
    }
}

/// Whether `list` holds `text`.
pub fn contains_text(list: &Vec<String>, text: &str) -> (b: bool)
    ensures
        b == texts(list@).contains(text@),
{
    let mut k: usize = 0;
    while k < list.len()
        invariant
            k <= list.len(),
            forall|j: int| 0 <= j < k ==> texts(list@)[j] != text@,
        decreases list.len() - k,
    {
        if same_text(list[k].as_str(), text) {
            assert(texts(list@)[k as int] == text@);
            return true;
        }
        k += 1;
    }
    false
}

/// The variables of `s`, in order: each is the text from its `@{` up to
/// the next `}`, trimmed.
pub fn var_list(s: &str) -> (r: Vec<String>)
    ensures
        texts(r@) == var_texts(s@, 0),
{
    let v = chars_of(s);
    let n: usize = v.len();
    let mut r: Vec<String> = Vec::new();
    let mut pos: usize = 0;
    let mut open: bool = true;
    assert(texts(r@) + var_texts(s@, 0) =~= var_texts(s@, 0));
    while open
        invariant
            v@ == s@,
            n == v.len(),
            pos <= n,
            var_texts(s@, 0) == texts(r@) + var_texts(s@, pos as int),
            !open ==> var_texts(s@, pos as int).len() == 0,
        decreases n - pos, (if open { 1int } else { 0int }),
    {
        let at = find_var(&v, pos);
        let close = find_close(&v, at);
        if at < close && close < n {
            let (a, b) = trim_bounds(&v, at, close);
            let ghost before = texts(r@);
            r.push(String::from_str(s.substring_char(a, b)));
            assert(texts(r@) =~= before.push(trimmed(s@, at as int, close as int)));
            assert(var_texts(s@, 0) =~= texts(r@) + var_texts(s@, close + 1));
            pos = close + 1;
        } else {
            open = false;
        }
    }
    assert(texts(r@) + Seq::<Seq<char>>::empty() =~= texts(r@));
    r
}

/// Takes note of the variables of `s` that nothing stands for.
fn note_unknown(vars: &Variables, s: &str, found: &mut Vec<String>)
    ensures
        texts(final(found)@) == vars.noted(
            texts(old(found)@),
            var_texts(s@, 0),
            var_texts(s@, 0).len() as int,
        ),
{
    let list = var_list(s);
    let mut i: usize = 0;
    while i < list.len()
        invariant
            i <= list.len(),
            texts(list@) == var_texts(s@, 0),
            texts(found@) == vars.noted(texts(old(found)@), var_texts(s@, 0), i as int),
        decreases list.len() - i,
    {
        let ghost before = texts(found@);
        assert(texts(list@)[i as int] == list[i as int]@);
        if vars.lookup(list[i].as_str()).is_none() && !contains_text(found, list[i].as_str()) {
            found.push(list[i].clone());
            assert(texts(found@) =~= before.push(list[i as int]@));
        }
        i += 1;
    }
}

/// The texts of a configuration that may hold variables: the arguments,
/// the values of the environment and the ports, in this order.
pub open spec fn sources(
    arguments: Seq<String>,
    environ: Seq<(String, String)>,
    tcp_ports: Seq<(String, TcpPort)>,
) -> Seq<Seq<char>> {
    texts(arguments) + Seq::new(environ.len(), |i: int| environ[i].1@) + Seq::new(
        tcp_ports.len(),
        |i: int| tcp_ports[i].0@,
    )
}

/// What is wrong with a configuration under `vars`: first the variables
/// that nothing stands for, then the ports that are no port numbers.
pub open spec fn instantiate_faults(
    vars: Variables,
    arguments: Seq<String>,
    environ: Seq<(String, String)>,
    tcp_ports: Seq<(String, TcpPort)>,
) -> Seq<InstantiateFault> {
    let src = sources(arguments, environ, tcp_ports);
    let unknown = vars.unknown(src, src.len() as int);
    let keys = Seq::new(tcp_ports.len(), |i: int| tcp_ports[i].0@);
    let bad = vars.bad_ports(keys, keys.len() as int);
    Seq::new(unknown.len(), |i: int| InstantiateFault::UnknownVariable(unknown[i])) + Seq::new(
        bad.len(),
        |i: int| InstantiateFault::BadPort(bad[i]),
    )
}

impl ContainerConfig {
    /// The configuration with its variables filled in: in the arguments,
    /// in the values of the environment and in the ports. Everything else
    /// stays as it is.
    pub fn instantiate(self, variables: &Variables) -> (r: Result<
        InstantiatedConfig,
        Vec<InstantiateError>,
    >)
        ensures
            match r {
                Ok(c) => {
                    &&& instantiate_faults(
                        *variables,
                        self.arguments@,
                        self.environ@,
                        self.tcp_ports@,
                    ).len() == 0
                    &&& texts(c.arguments@) == Seq::new(
                        self.arguments.len() as nat,
                        |i: int| variables.resolved(self.arguments[i]@),
                    )
                    &&& pairs(c.environ@) == Seq::new(
                        self.environ.len() as nat,
                        |i: int| (self.environ[i].0@, variables.resolved(self.environ[i].1@)),
                    )
                    &&& c.tcp_ports@ == Seq::new(
                        self.tcp_ports.len() as nat,
                        |i: int| (variables.port_of(self.tcp_ports[i].0@)->0, self.tcp_ports[i].1),
                    )
                    &&& c.kind == self.kind
                    &&& c.volumes == self.volumes
                    &&& c.user_id == self.user_id
                    &&& c.group_id == self.group_id
                    &&& c.restart_timeout == self.restart_timeout
                    &&& c.kill_timeout == self.kill_timeout
                    &&& c.memory_limit == self.memory_limit
                    &&& c.fileno_limit == self.fileno_limit
                    &&& c.cpu_shares == self.cpu_shares
                    &&& c.executable == self.executable
                    &&& c.workdir == self.workdir
                    &&& c.resolv_conf == self.resolv_conf
                    &&& c.hosts_file == self.hosts_file
                    &&& c.uid_map == self.uid_map
                    &&& c.gid_map == self.gid_map
                    &&& c.stdout_stderr_file == self.stdout_stderr_file
                    &&& c.interactive == self.interactive
                    &&& c.restart_process_only == self.restart_process_only
                },
                Err(e) => e.len() > 0 && faults(e@) == instantiate_faults(
                    *variables,
                    self.arguments@,
                    self.environ@,
                    self.tcp_ports@,
                ),
            },
    {
        let ghost src = sources(self.arguments@, self.environ@, self.tcp_ports@);
        let ghost keys = Seq::new(self.tcp_ports.len() as nat, |i: int| self.tcp_ports[i].0@);
        let na: usize = self.arguments.len();
        let ne: usize = self.environ.len();
        let np: usize = self.tcp_ports.len();
        let mut unknown: Vec<String> = Vec::new();
        let mut arguments: Vec<String> = Vec::new();
        let mut i: usize = 0;
        assert(texts(unknown@) =~= variables.unknown(src, 0));
        while i < na
            invariant
                i <= na == self.arguments.len(),
                src == sources(self.arguments@, self.environ@, self.tcp_ports@),
                texts(unknown@) == variables.unknown(src, i as int),
                arguments.len() == i,
                forall|k: int|
                    0 <= k < i ==> (#[trigger] arguments[k])@ == variables.resolved(
                        self.arguments[k]@,
                    ),
            decreases na - i,
        {
            assert(src[i as int] == self.arguments[i as int]@);
            note_unknown(variables, self.arguments[i].as_str(), &mut unknown);
            arguments.push(variables.resolve(self.arguments[i].as_str()));
            i += 1;
        }
        let mut environ: Vec<(String, String)> = Vec::new();
        let mut j: usize = 0;
        while j < ne
            invariant
                j <= ne == self.environ.len(),
                na == self.arguments.len(),
                src == sources(self.arguments@, self.environ@, self.tcp_ports@),
                texts(unknown@) == variables.unknown(src, na + j),
                environ.len() == j,
                forall|k: int|
                    0 <= k < j ==> (#[trigger] environ[k]).0@ == self.environ[k].0@ && environ[k].1@
                        == variables.resolved(self.environ[k].1@),
            decreases ne - j,
        {
            assert(src[na + j] == self.environ[j as int].1@);
            note_unknown(variables, self.environ[j].1.as_str(), &mut unknown);
            environ.push(
                (self.environ[j].0.clone(), variables.resolve(self.environ[j].1.as_str())),
            );
            j += 1;
        }
        let mut bad: Vec<String> = Vec::new();
        let mut ports: Vec<u16> = Vec::new();
        let mut p: usize = 0;
        assert(texts(bad@) =~= variables.bad_ports(keys, 0));
        while p < np
            invariant
                p <= np == self.tcp_ports.len(),
                na == self.arguments.len(),
                ne == self.environ.len(),
                src == sources(self.arguments@, self.environ@, self.tcp_ports@),
                keys == Seq::new(self.tcp_ports.len() as nat, |i: int| self.tcp_ports[i].0@),
                texts(unknown@) == variables.unknown(src, na + ne + p),
                texts(bad@) == variables.bad_ports(keys, p as int),
                ports.len() == p,
                forall|k: int|
                    0 <= k < p && variables.port_of(self.tcp_ports[k].0@) is Some ==> Some(
                        #[trigger] ports[k],
                    ) == variables.port_of(self.tcp_ports[k].0@),
            decreases np - p,
        {
            let key = self.tcp_ports[p].0.as_str();
            assert(src[na + ne + p] == key@);
            assert(keys[p as int] == key@);
            note_unknown(variables, key, &mut unknown);
            let known = all_known_in(variables, key);
            let text = variables.resolve(key);
            let port = if known {
                parse_port(text.as_str())
            } else {
                None
            };
            let ghost before = texts(bad@);
            match port {
                Some(n) => ports.push(n),
                None => {
                    ports.push(0);
                    if !contains_text(&bad, key) {
                        bad.push(String::from_str(key));
                        assert(texts(bad@) =~= before.push(key@));
                    }
                },
            }
            p += 1;
        }
        proof {
            assert(src.len() == na + ne + np);
        }
        if unknown.len() > 0 || bad.len() > 0 {
            let mut errors: Vec<InstantiateError> = Vec::new();
            let mut a: usize = 0;
            while a < unknown.len()
                invariant
                    a <= unknown.len(),
                    errors.len() == a,
                    forall|k: int|
                        0 <= k < a ==> (#[trigger] errors[k])@ == InstantiateFault::UnknownVariable(
                            unknown[k]@,
                        ),
                decreases unknown.len() - a,
            {
                errors.push(InstantiateError::UnknownVariable(unknown[a].clone()));
                a += 1;
            }
            let mut b: usize = 0;
            while b < bad.len()
                invariant
                    b <= bad.len(),
                    errors.len() == unknown.len() + b,
                    forall|k: int|
                        0 <= k < unknown.len() ==> (#[trigger] errors[k])@
                            == InstantiateFault::UnknownVariable(unknown[k]@),
                    forall|k: int|
                        0 <= k < b ==> (#[trigger] errors[unknown.len() + k])@
                            == InstantiateFault::BadPort(bad[k]@),
                decreases bad.len() - b,
            {
                errors.push(InstantiateError::BadPort(bad[b].clone()));
                b += 1;
            }
            proof {
                let want = instantiate_faults(
                    *variables,
                    self.arguments@,
                    self.environ@,
                    self.tcp_ports@,
                );
                assert(faults(errors@).len() == want.len());
                assert forall|k: int| 0 <= k < want.len() implies faults(errors@)[k] == want[k] by {
                    if k < unknown.len() {
                        assert(texts(unknown@)[k] == unknown[k]@);
                    } else {
                        assert(texts(bad@)[k - unknown.len()] == bad[k - unknown.len()]@);
                        assert(errors[unknown.len() + (k - unknown.len())]@
                            == InstantiateFault::BadPort(bad[k - unknown.len()]@));
                    }
                }
                assert(faults(errors@) =~= want);
            }
            return Err(errors);
        }
        proof {
            assert forall|k: int| 0 <= k < np implies variables.port_of(
                #[trigger] self.tcp_ports[k].0@,
            ) is Some by {
                lemma_bad_ports(*variables, keys, np as int, k);
                assert(keys[k] == self.tcp_ports[k].0@);
            }
        }
        let ContainerConfig {
            kind,
            variables: _,
            volumes,
            user_id,
            group_id,
            restart_timeout,
            kill_timeout,
            memory_limit,
            fileno_limit,
            cpu_shares,
            executable,
            arguments: _,
            environ: _,
            workdir,
            resolv_conf,
            hosts_file,
            uid_map,
            gid_map,
            stdout_stderr_file,
            interactive,
            restart_process_only,
            tcp_ports: old_ports,
        } = self;
        let mut old_ports = old_ports;
        let mut tcp_ports: Vec<(u16, TcpPort)> = Vec::new();
        let mut q: usize = 0;
        while q < np
            invariant
                q <= np == ports.len(),
                old_ports.len() == np - q,
                self.tcp_ports.len() == np,
                forall|k: int| 0 <= k < np - q ==> old_ports[k] == self.tcp_ports[q + k],
                tcp_ports.len() == q,
                forall|k: int|
                    0 <= k < q ==> (#[trigger] tcp_ports[k]) == (ports[k], self.tcp_ports[k].1),
            decreases np - q,
        {
            let (_, port) = old_ports.remove(0);
            tcp_ports.push((ports[q], port));
            q += 1;
        }
        let c = InstantiatedConfig {
            kind,
            volumes,
            user_id,
            group_id,
            restart_timeout,
            kill_timeout,
            memory_limit,
            fileno_limit,
            cpu_shares,
            executable,
            arguments,
            environ,
            workdir,
            resolv_conf,
            hosts_file,
            uid_map,
            gid_map,
            stdout_stderr_file,
            interactive,
            restart_process_only,
            tcp_ports,
        };
        proof {
            assert(texts(c.arguments@) =~= Seq::new(
                self.arguments.len() as nat,
                |i: int| variables.resolved(self.arguments[i]@),
            ));
            assert(pairs(c.environ@) =~= Seq::new(
                self.environ.len() as nat,
                |i: int| (self.environ[i].0@, variables.resolved(self.environ[i].1@)),
            ));
            assert(c.tcp_ports@ =~= Seq::new(
                self.tcp_ports.len() as nat,
                |i: int| (variables.port_of(self.tcp_ports[i].0@)->0, self.tcp_ports[i].1),
            ));
            assert(texts(unknown@).len() == 0);
            assert(texts(bad@).len() == 0);
        }
        Ok(c)
    }
}

/// Where no port is bad, every key stands for a port.
proof fn lemma_bad_ports(vars: Variables, keys: Seq<Seq<char>>, n: int, k: int)
    requires
        0 <= k < n <= keys.len(),
        vars.bad_ports(keys, n).len() == 0,
    ensures
        vars.port_of(keys[k]) is Some,
    decreases n,
{
    let a = vars.bad_ports(keys, n - 1);
    if vars.port_of(keys[n - 1]) is None && !a.contains(keys[n - 1]) {
        assert(vars.bad_ports(keys, n).len() == a.len() + 1);
    } else if vars.port_of(keys[n - 1]) is None {
        assert(a.len() == 0);
        assert(!a.contains(keys[n - 1]));
    }
    if k < n - 1 {
        lemma_bad_ports(vars, keys, n - 1, k);
    }
}

/// Whether something stands for every variable of `s`.
pub fn all_known_in(vars: &Variables, s: &str) -> (b: bool)
    ensures
        b == vars.all_known(s@),
{
    let list = var_list(s);
    let mut i: usize = 0;
    while i < list.len()
        invariant
            i <= list.len(),
            texts(list@) == var_texts(s@, 0),
            forall|k: int| 0 <= k < i ==> vars.value_of(#[trigger] var_texts(s@, 0)[k]) is Some,
        decreases list.len() - i,
    {
        assert(texts(list@)[i as int] == list[i as int]@);
        if vars.lookup(list[i].as_str()).is_none() {
            return false;
        }
        i += 1;
    }
    true
}

} // verus!
