//! Running one command of a group under a monitor of its own.

use crate::child_config::{ChildConfig, ChildKind};
use crate::text::{chars_of, decimal_text, format_decimal, is_ascii_digit, is_digit};
use vstd::prelude::*;
use vstd::string::*;

verus! {

/// An ASCII letter or digit.
pub open spec fn is_alnum(c: char) -> bool {
    ('a' <= c && c <= 'z') || ('A' <= c && c <= 'Z') || is_digit(c)
}

/// Whether `name` can be the name of a command: an ASCII letter or digit,
/// then one or more of letters, digits, `_`, `.` and `-`.
pub open spec fn is_command_name(name: Seq<char>) -> bool {
    &&& name.len() >= 2
    &&& is_alnum(name[0])
    &&& forall|i: int|
        1 <= i < name.len() ==> is_alnum(#[trigger] name[i]) || name[i] == '_' || name[i] == '.'
            || name[i] == '-'
}

fn alnum(c: char) -> (b: bool)
    ensures
        b == is_alnum(c),
{
    (c >= 'a' && c <= 'z') || (c >= 'A' && c <= 'Z') || is_ascii_digit(c)
}

/// Whether `name` can be the name of a command.
pub fn check_command_name(name: &str) -> (b: bool)
    ensures
        b == is_command_name(name@),
{
    let v = chars_of(name);
    if v.len() < 2 || !alnum(v[0]) {
        return false;
    }
    let mut i: usize = 1;
    while i < v.len()
        invariant
            v@ == name@,
            1 <= i <= v.len(),
            forall|k: int|
                1 <= k < i ==> is_alnum(#[trigger] v[k]) || v[k] == '_' || v[k] == '.' || v[k]
                    == '-',
        decreases v.len() - i,
    {
        let c = v[i];
        if !(alnum(c) || c == '_' || c == '.' || c == '-') {
            return false;
        }
        i += 1;
    }
    true
}

/// The name under which the monitor holds the command `name`.
pub open spec fn command_name_of(name: Seq<char>) -> Seq<char> {
    name + ".cmd"@
}

/// The name of the state directory of one run of the command `name` by
/// the process `pid`.
pub open spec fn command_dir_of(name: Seq<char>, pid: u32) -> Seq<char> {
    ".cmd."@ + name + seq!['.'] + decimal_text(pid as nat)
}

/// The name under which the monitor holds the command `name`.
pub fn command_name(name: &str) -> (r: String)
    ensures
        r@ == command_name_of(name@),
{
    let mut r = String::from_str(name);
    r.append(".cmd");
    r
}

/// The name of the state directory of one run of the command `name` by
/// the process `pid`.
pub fn command_dir(name: &str, pid: u32) -> (r: String)
    ensures
        r@ == command_dir_of(name@, pid),
{
    proof {
        reveal_strlit(".");
    }
    let mut r = String::from_str(".cmd.");
    r.append(name);
    r.append(".");
    let digits = format_decimal(pid as u64);
    r.append(digits.as_str());
    assert(r@ =~= command_dir_of(name@, pid));
    r
}

/// Whether the group can be run as a command.
pub fn is_command(child_cfg: &ChildConfig) -> (b: bool)
    ensures
        b == (child_cfg.kind == ChildKind::Command),
{
    child_cfg.kind == ChildKind::Command
}

} // verus!
