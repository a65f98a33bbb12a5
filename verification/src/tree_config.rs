//! The supervisor's own configuration.

use vstd::prelude::*;

verus! {

/// Where the supervisor finds its groups and keeps its state.
pub struct TreeConfig {
    /// The directory with one configuration file for each group.
    pub config_dir: String,
    /// The directory that holds one directory for each instance.
    pub state_dir: String,
    /// The root of the private mount namespace.
    pub mount_dir: String,
    pub devfs_dir: String,
    pub readonly_paths: Vec<String>,
    pub writable_paths: Vec<String>,
    pub devices: String,
    pub min_port: u16,
    pub max_port: u16,
}

} // verus!
