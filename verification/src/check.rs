//! What can be wrong with a configuration before anything is started.

use crate::child_config::ChildConfig;
use crate::command::{env_find, pairs};
use crate::container_config::{
    var_list, var_texts, variable_verdict, ContainerConfig, InstantiatedConfig, Variable,
    VariableFault,
};
use crate::id_map::{in_mapping, mapped, IdMap};
use crate::sandbox_config::{in_range, within, Range, SandboxConfig};
use crate::text::{same_text, texts};
use vstd::prelude::*;
use vstd::string::*;

verus! {

/// What is wrong with the user or the group of a container.
#[derive(Clone, Copy, Debug, PartialEq, Eq, Structural)]
pub enum IdFault {
    /// Both the sandbox and the container map ids.
    BothMap,
    /// The sandbox maps ids, and not this one.
    NotMapped,
    /// The sandbox does not allow the id.
    NotAllowed,
    /// The container maps ids, and not its own.
    NotInOwnMap,
}

/// The faults of the id of a container that runs in a sandbox. A
/// container that maps ids itself has to map its own, and its sandbox must
/// map none; any other container needs an id that the sandbox allows and,
/// where the sandbox maps ids, maps.
pub open spec fn id_faults(
    own_map: Seq<IdMap>,
    sandbox_map: Seq<IdMap>,
    allowed: Seq<Range>,
    id: u32,
) -> Seq<IdFault> {
    if own_map.len() > 0 {
        (if mapped(own_map, id) is None {
            seq![IdFault::NotInOwnMap]
        } else {
            Seq::empty()
        }) + (if sandbox_map.len() > 0 {
            seq![IdFault::BothMap]
        } else {
            Seq::empty()
        })
    } else {
        (if sandbox_map.len() > 0 && mapped(sandbox_map, id) is None {
            seq![IdFault::NotMapped]
        } else {
            Seq::empty()
        }) + (if within(allowed, id) {
            Seq::empty()
        } else {
            seq![IdFault::NotAllowed]
        })
    }
}

/// The faults of one id of a container.
pub fn check_id(own_map: &Vec<IdMap>, sandbox_map: &Vec<IdMap>, allowed: &Vec<Range>, id: u32) -> (r:
    Vec<IdFault>)
    ensures
        r@ == id_faults(own_map@, sandbox_map@, allowed@, id),
{
    let mut r: Vec<IdFault> = Vec::new();
    if own_map.len() > 0 {
        if !in_mapping(own_map, id) {
            r.push(IdFault::NotInOwnMap);
        }
        if sandbox_map.len() > 0 {
            r.push(IdFault::BothMap);
        }
    } else {
        if sandbox_map.len() > 0 && !in_mapping(sandbox_map, id) {
            r.push(IdFault::NotMapped);
        }
        if !in_range(allowed, id) {
            r.push(IdFault::NotAllowed);
        }
    }
    assert(r@ =~= id_faults(own_map@, sandbox_map@, allowed@, id));
    r
}

/// The faults of a container's user.
pub fn check_user(config: &ContainerConfig, sandbox: &SandboxConfig) -> (r: Vec<IdFault>)
    ensures
        r@ == id_faults(config.uid_map@, sandbox.uid_map@, sandbox.allow_users@, config.user_id),
{
    check_id(&config.uid_map, &sandbox.uid_map, &sandbox.allow_users, config.user_id)
}

/// The faults of a container's group.
pub fn check_group(config: &ContainerConfig, sandbox: &SandboxConfig) -> (r: Vec<IdFault>)
    ensures
        r@ == id_faults(config.gid_map@, sandbox.gid_map@, sandbox.allow_groups@, config.group_id),
{
    check_id(&config.gid_map, &sandbox.gid_map, &sandbox.allow_groups, config.group_id)
}

/// Those of the first `n` ports that the sandbox does not allow.
pub open spec fn refused_ports(ports: Seq<u16>, allowed: Seq<Range>, n: int) -> Seq<u16>
    decreases n,
{
    if n <= 0 {
        Seq::empty()
    } else if within(allowed, ports[n - 1] as u32) {
        refused_ports(ports, allowed, n - 1)
    } else {
        refused_ports(ports, allowed, n - 1).push(ports[n - 1])
    }
}

/// The ports of a container that its sandbox does not allow.
pub fn check_ports(config: &InstantiatedConfig, sandbox: &SandboxConfig) -> (r: Vec<u16>)
    ensures
        r@ == refused_ports(
            Seq::new(config.tcp_ports.len() as nat, |i: int| config.tcp_ports[i].0),
            sandbox.allow_tcp_ports@,
            config.tcp_ports.len() as int,
        ),
{
    let ghost ports = Seq::new(config.tcp_ports.len() as nat, |i: int| config.tcp_ports[i].0);
    let mut r: Vec<u16> = Vec::new();
    let mut i: usize = 0;
    while i < config.tcp_ports.len()
        invariant
            i <= config.tcp_ports.len(),
            ports == Seq::new(config.tcp_ports.len() as nat, |i: int| config.tcp_ports[i].0),
            r@ == refused_ports(ports, sandbox.allow_tcp_ports@, i as int),
        decreases config.tcp_ports.len() - i,
    {
        let port = config.tcp_ports[i].0;
        assert(ports[i as int] == port);
        if !in_range(&sandbox.allow_tcp_ports, port as u32) {
            r.push(port);
        }
        i += 1;
    }
    r
}

/// Whether the container declares the variable `name`.
pub open spec fn declares(variables: Seq<(String, Variable)>, name: Seq<char>) -> bool {
    exists|k: int| 0 <= k < variables.len() && (#[trigger] variables[k]).0@ == name
}

/// `acc`, and behind it those of the first `n` of `vars` that the
/// container does not declare.
pub open spec fn undeclared(
    variables: Seq<(String, Variable)>,
    acc: Seq<Seq<char>>,
    vars: Seq<Seq<char>>,
    n: int,
) -> Seq<Seq<char>>
    decreases n,
{
    if n <= 0 {
        acc
    } else if declares(variables, vars[n - 1]) {
        undeclared(variables, acc, vars, n - 1)
    } else {
        undeclared(variables, acc, vars, n - 1).push(vars[n - 1])
    }
}

/// The variables in the first `n` of `sources` that the container does
/// not declare, one for each place where one is used.
pub open spec fn undeclared_in(
    variables: Seq<(String, Variable)>,
    sources: Seq<Seq<char>>,
    n: int,
) -> Seq<Seq<char>>
    decreases n,
{
    if n <= 0 {
        Seq::empty()
    } else {
        let vars = var_texts(sources[n - 1], 0);
        undeclared(variables, undeclared_in(variables, sources, n - 1), vars, vars.len() as int)
    }
}

/// The texts that `validate_substitutions` looks through: the ports, the
/// values of the environment and the arguments, in this order.
pub open spec fn substitution_sources(config: ContainerConfig) -> Seq<Seq<char>> {
    Seq::new(config.tcp_ports.len() as nat, |i: int| config.tcp_ports[i].0@) + Seq::new(
        config.environ.len() as nat,
        |i: int| config.environ[i].1@,
    ) + texts(config.arguments@)
}

fn is_declared(variables: &Vec<(String, Variable)>, name: &str) -> (b: bool)
    ensures
        b == declares(variables@, name@),
{
    let mut k: usize = 0;
    while k < variables.len()
        invariant
            k <= variables.len(),
            forall|j: int| 0 <= j < k ==> (#[trigger] variables[j]).0@ != name@,
        decreases variables.len() - k,
    {
        if same_text(variables[k].0.as_str(), name) {
            return true;
        }
        k += 1;
    }
    false
}

fn note_undeclared(variables: &Vec<(String, Variable)>, s: &str, found: &mut Vec<String>)
    ensures
        texts(final(found)@) == undeclared(
            variables@,
            texts(old(found)@),
            var_texts(s@, 0),
            var_texts(s@, 0).len() as int,
        ),
{
    let list = var_list(s);
    let mut i: usize = 0;
    while i < list.len()
        invariant
            i <= list.len(),
            texts(list@) == var_texts(s@, 0),
            texts(found@) == undeclared(variables@, texts(old(found)@), var_texts(s@, 0), i as int),
        decreases list.len() - i,
    {
        let ghost before = texts(found@);
        assert(texts(list@)[i as int] == list[i as int]@);
        if !is_declared(variables, list[i].as_str()) {
            found.push(list[i].clone());
            assert(texts(found@) =~= before.push(list[i as int]@));
        }
        i += 1;
    }
}

/// The variables that a container uses and does not declare.
pub fn validate_substitutions(config: &ContainerConfig) -> (r: Vec<String>)
    ensures
        texts(r@) == undeclared_in(
            config.variables@,
            substitution_sources(*config),
            substitution_sources(*config).len() as int,
        ),
{
    let ghost src = substitution_sources(*config);
    let np: usize = config.tcp_ports.len();
    let ne: usize = config.environ.len();
    let na: usize = config.arguments.len();
    let mut r: Vec<String> = Vec::new();
    let mut i: usize = 0;
    assert(texts(r@) =~= undeclared_in(config.variables@, src, 0));
    while i < np
        invariant
            i <= np == config.tcp_ports.len(),
            src == substitution_sources(*config),
            texts(r@) == undeclared_in(config.variables@, src, i as int),
        decreases np - i,
    {
        assert(src[i as int] == config.tcp_ports[i as int].0@);
        note_undeclared(&config.variables, config.tcp_ports[i].0.as_str(), &mut r);
        i += 1;
    }
    let mut j: usize = 0;
    while j < ne
        invariant
            j <= ne == config.environ.len(),
            np == config.tcp_ports.len(),
            src == substitution_sources(*config),
            texts(r@) == undeclared_in(config.variables@, src, np + j),
        decreases ne - j,
    {
        assert(src[np + j] == config.environ[j as int].1@);
        note_undeclared(&config.variables, config.environ[j].1.as_str(), &mut r);
        j += 1;
    }
    let mut k: usize = 0;
    while k < na
        invariant
            k <= na == config.arguments.len(),
            np == config.tcp_ports.len(),
            ne == config.environ.len(),
            src == substitution_sources(*config),
            texts(r@) == undeclared_in(config.variables@, src, np + ne + k),
        decreases na - k,
    {
        assert(src[np + ne + k] == config.arguments[k as int]@);
        note_undeclared(&config.variables, config.arguments[k].as_str(), &mut r);
        k += 1;
    }
    assert(src.len() == np + ne + na);
    r
}

/// What is wrong with the value of a variable.
#[derive(Clone, Debug, PartialEq, Eq)]
pub struct VariableProblem {
    pub name: String,
    /// Why the value does not suit, or nothing where there is no value.
    pub fault: Option<VariableFault>,
}

/// A problem, with its name as text.
pub struct ProblemView {
    pub name: Seq<char>,
    pub fault: Option<VariableFault>,
}

impl View for VariableProblem {
    type V = ProblemView;

    open spec fn view(&self) -> ProblemView {
        ProblemView { name: self.name@, fault: self.fault }
    }
}

/// The views of a sequence of problems.
pub open spec fn problems(v: Seq<VariableProblem>) -> Seq<ProblemView> {
    Seq::new(v.len(), |i: int| v[i]@)
}

/// The problems of the first `n` variables that a container declares,
/// given the values of a child: a variable needs a value, and the value
/// has to suit it.
pub open spec fn variable_problems(
    variables: Seq<(String, Variable)>,
    values: Seq<(String, String)>,
    ports: Seq<Range>,
    n: int,
) -> Seq<ProblemView>
    decreases n,
{
    if n <= 0 {
        Seq::empty()
    } else {
        let before = variable_problems(variables, values, ports, n - 1);
        let (name, var) = variables[n - 1];
        let k = env_find(pairs(values), name@, 0);
        if k < values.len() {
            match variable_verdict(var, values[k].1@, ports) {
                Ok(_) => before,
                Err(fault) => before.push(ProblemView { name: name@, fault: Some(fault) }),
            }
        } else {
            before.push(ProblemView { name: name@, fault: None })
        }
    }
}

/// The variables of a container that a child gives no value or a value
/// that does not suit.
pub fn validate_variable_types(
    config: &ContainerConfig,
    child_cfg: &ChildConfig,
    sandbox: &SandboxConfig,
) -> (r: Vec<VariableProblem>)
    ensures
        problems(r@) == variable_problems(
            config.variables@,
            child_cfg.variables@,
            sandbox.allow_tcp_ports@,
            config.variables.len() as int,
        ),
{
    let mut r: Vec<VariableProblem> = Vec::new();
    let mut i: usize = 0;
    assert(problems(r@) =~= Seq::empty());
    while i < config.variables.len()
        invariant
            i <= config.variables.len(),
            problems(r@) == variable_problems(
                config.variables@,
                child_cfg.variables@,
                sandbox.allow_tcp_ports@,
                i as int,
            ),
        decreases config.variables.len() - i,
    {
        let ghost before = problems(r@);
        let name = config.variables[i].0.as_str();
        let mut k: usize = 0;
        while k < child_cfg.variables.len() && !same_text(child_cfg.variables[k].0.as_str(), name)
            invariant
                k <= child_cfg.variables.len(),
                env_find(pairs(child_cfg.variables@), name@, 0) == env_find(
                    pairs(child_cfg.variables@),
                    name@,
                    k as int,
                ),
            decreases child_cfg.variables.len() - k,
        {
            k += 1;
        }
        if k < child_cfg.variables.len() {
            match config.variables[i].1.validate(child_cfg.variables[k].1.as_str(), sandbox) {
                Ok(()) => {},
                Err(fault) => {
                    r.push(VariableProblem { name: String::from_str(name), fault: Some(fault) });
                    assert(problems(r@) =~= before.push(
                        ProblemView { name: name@, fault: Some(fault) },
                    ));
                },
            }
        } else {
            r.push(VariableProblem { name: String::from_str(name), fault: None });
            assert(problems(r@) =~= before.push(ProblemView { name: name@, fault: None }));
        }
        i += 1;
    }
    r
}

} // verus!
