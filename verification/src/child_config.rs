//! One group of the supervisor's configuration.

use vstd::prelude::*;

verus! {

/// How a group is run.
#[derive(Debug, PartialEq, Eq, Clone, Copy, Structural)]
pub enum ChildKind {
    Daemon,
    Command,
}

/// So many instances of one image, run with one configuration.
pub struct ChildConfig {
    pub instances: usize,
    pub image: String,
    pub config: String,
    pub variables: Vec<(String, String)>,
    pub kind: ChildKind,
}

impl ChildConfig {
    /// Whether the group's instances run under the supervisor: daemons do,
    /// commands are run on demand.
    pub fn is_supervised(&self) -> (b: bool)
        ensures
            b == (self.kind == ChildKind::Daemon),
    {
        self.kind == ChildKind::Daemon
    }
}

} // verus!
