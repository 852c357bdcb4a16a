//! The configuration that scheduling reads, as plain values. Reading it from
//! a file is left to the caller.
use vstd::prelude::*;

use crate::size_in_bytes::{all_digits, decimal_value, parse_u64, parses_as_u64, SizeInBytes};
use crate::triplet::Triplet;

verus! {

/// Which image a new machine boots from when both its own persisted image and
/// a base are possible.
#[derive(Clone, Copy, Debug, PartialEq, Eq, Structural)]
pub enum SeedBasePolicy {
    IfNewer,
    Always,
    Never,
}

impl Default for SeedBasePolicy {
    fn default() -> (r: SeedBasePolicy)
        ensures
            r == SeedBasePolicy::IfNewer,
    {
        SeedBasePolicy::IfNewer
    }
}

/// A template directory for the configuration file systems, and extra
/// `<KEY>` to value substitutions.
#[derive(Clone, Debug)]
pub struct SetupTemplate {
    pub path: String,
    pub parameters: Vec<(String, String)>,
}

/// A host directory shared with the guest.
#[derive(Clone, Debug)]
pub struct ExposedDirectory {
    pub path: String,
    pub tag: String,
    pub writable: bool,
}

/// A place that a guest may upload files to, with a byte budget per machine.
#[derive(Clone, Debug)]
pub struct Artifact {
    pub name: String,
    pub path: String,
    pub url: String,
    pub quota: SizeInBytes,
    pub token: Option<String>,
}

/// One machine type of a repository.
#[derive(Clone, Debug)]
pub struct MachineConfig {
    pub base_machine: Option<Triplet>,
    pub base_image: Option<String>,
    pub setup_template: SetupTemplate,
    pub use_base: SeedBasePolicy,
    pub cpus: u32,
    pub disk: SizeInBytes,
    pub ram: SizeInBytes,
    pub shared: Vec<ExposedDirectory>,
    pub artifacts: Vec<Artifact>,
}

impl MachineConfig {
    /// A copy for a new machine to keep for its lifetime.
    pub fn snapshot(&self) -> (r: MachineConfig)
        ensures
            r.ram == self.ram,
            r.disk == self.disk,
            r.cpus == self.cpus,
            r.use_base == self.use_base,
    {
        MachineConfig {
            base_machine: self.base_machine.clone(),
            base_image: self.base_image.clone(),
            setup_template: self.setup_template.clone(),
            use_base: self.use_base,
            cpus: self.cpus,
            disk: self.disk,
            ram: self.ram,
            shared: self.shared.clone(),
            artifacts: self.artifacts.clone(),
        }
    }
}

/// A repository: its optional persistence token and its machine types by name.
#[derive(Clone, Debug)]
pub struct Repository {
    pub persistence_token: Option<String>,
    pub machines: Vec<(String, MachineConfig)>,
}

#[derive(Clone, Debug)]
pub struct GitHubConfig {
    pub app_id: u64,
    pub jwt_key_file: String,
    pub webhook_secret: String,
    /// Seconds between two polls.
    pub polling_interval: u64,
}

#[derive(Clone, Debug)]
pub struct HostConfig {
    pub base_dir: String,
    pub ram: SizeInBytes,
}

/// The whole configuration: repositories by owner, then by name.
#[derive(Clone, Debug)]
pub struct ConfigFile {
    pub github: GitHubConfig,
    pub host: HostConfig,
    pub repositories: Vec<(String, Vec<(String, Repository)>)>,
}

/// The first position in `entries` whose key is `k`.
pub open spec fn first_key_index<V>(entries: Seq<(String, V)>, k: Seq<char>) -> Option<int> {
    if exists|i: int| 0 <= i < entries.len() && (#[trigger] entries[i]).0@ == k {
        Some(
            choose|i: int|
                0 <= i < entries.len() && (#[trigger] entries[i]).0@ == k && forall|j: int|
                    0 <= j < i ==> (#[trigger] entries[j]).0@ != k,
        )
    } else {
        None
    }
}

/// The value stored under `k`: the first entry with that key wins.
pub open spec fn lookup<V>(entries: Seq<(String, V)>, k: Seq<char>) -> Option<V> {
    match first_key_index(entries, k) {
        Some(i) => Some(entries[i].1),
        None => None,
    }
}

pub fn find_entry<'a, V>(entries: &'a Vec<(String, V)>, k: &str) -> (r: Option<&'a V>)
    ensures
        r.is_some() == lookup(entries@, k@).is_some(),
        r.is_some() ==> *r.unwrap() == lookup(entries@, k@).unwrap(),
{
    let mut i: usize = 0;
    while i < entries.len()
        invariant
            i <= entries.len(),
            forall|j: int| 0 <= j < i ==> (#[trigger] entries@[j]).0@ != k@,
        decreases entries.len() - i,
    {
        if crate::text::str_equal(entries[i].0.as_str(), k) {
            proof {
                let w = choose|w: int|
                    0 <= w < entries@.len() && (#[trigger] entries@[w]).0@ == k@ && forall|j: int|
                        0 <= j < w ==> (#[trigger] entries@[j]).0@ != k@;
                assert(0 <= i < entries@.len() && entries@[i as int].0@ == k@);
                if w < i {
                    assert(entries@[w].0@ != k@);
                } else if w > i {
                    assert(entries@[i as int].0@ != k@);
                }
            }
            return Some(&entries[i].1);
        }
        i = i + 1;
    }
    None
}

impl ConfigFile {
    pub open spec fn repository_spec(&self, owner: Seq<char>, repository: Seq<char>) -> Option<Repository> {
        match lookup(self.repositories@, owner) {
            Some(repos) => lookup(repos@, repository),
            None => None,
        }
    }

    pub open spec fn machine_config_spec(&self, t: (Seq<char>, Seq<char>, Seq<char>)) -> Option<MachineConfig> {
        match self.repository_spec(t.0, t.1) {
            Some(repo) => lookup(repo.machines@, t.2),
            None => None,
        }
    }

    /// The configuration of a repository, if it is listed.
    pub fn repository<'a>(&'a self, owner: &str, repository: &str) -> (r: Option<&'a Repository>)
        ensures
            r.is_some() == self.repository_spec(owner@, repository@).is_some(),
            r.is_some() ==> *r.unwrap() == self.repository_spec(owner@, repository@).unwrap(),
    {
        match find_entry(&self.repositories, owner) {
            Some(repos) => find_entry(repos, repository),
            None => None,
        }
    }

    /// The configuration of a machine type, if it is listed.
    pub fn machine_config<'a>(&'a self, triplet: &Triplet) -> (r: Option<&'a MachineConfig>)
        ensures
            r.is_some() == self.machine_config_spec(triplet@).is_some(),
            r.is_some() ==> *r.unwrap() == self.machine_config_spec(triplet@).unwrap(),
    {
        match self.repository(triplet.owner(), triplet.repository()) {
            Some(repo) => find_entry(&repo.machines, triplet.machine_name()),
            None => None,
        }
    }
}

/// Seconds per unit letter of a duration: `s`, `m`, `h` and `d`.
pub open spec fn duration_unit(c: char) -> Option<nat> {
    if c == 's' {
        Some(1)
    } else if c == 'm' {
        Some(60)
    } else if c == 'h' {
        Some(3600)
    } else if c == 'd' {
        Some(86400)
    } else {
        None
    }
}

/// The number of seconds that a duration such as `15m` stands for.
pub open spec fn duration_value(s: Seq<char>) -> Option<nat> {
    if s.len() == 0 {
        None
    } else {
        match duration_unit(s.last()) {
            Some(m) => {
                let digits = s.drop_last();
                if parses_as_u64(digits) && decimal_value(digits) * m <= u64::MAX {
                    Some(decimal_value(digits) * m)
                } else {
                    None
                }
            },
            None => None,
        }
    }
}

/// Reads a duration written as `<number><unit>` into seconds.
pub fn parse_duration_secs(s: &str) -> (r: Option<u64>)
    ensures
        r.is_some() == duration_value(s@).is_some(),
        r.is_some() ==> r.unwrap() as nat == duration_value(s@).unwrap(),
{
    let n = s.unicode_len();
    if n == 0 {
        return None;
    }
    let unit = s.get_char(n - 1);
    let multiplier: u64 = if unit == 's' {
        1
    } else if unit == 'm' {
        60
    } else if unit == 'h' {
        3600
    } else if unit == 'd' {
        86400
    } else {
        return None;
    };
    let digits = s.substring_char(0, n - 1);
    assert(digits@ == s@.drop_last());
    match parse_u64(digits) {
        Some(v) => {
            if v > u64::MAX / multiplier {
                assert(v * multiplier > u64::MAX) by (nonlinear_arith)
                    requires
                        v > u64::MAX / multiplier,
                        multiplier > 0,
                ;
                None
            } else {
                assert(v * multiplier <= u64::MAX) by (nonlinear_arith)
                    requires
                        v <= u64::MAX / multiplier,
                        multiplier > 0,
                ;
                Some(v * multiplier)
            }
        },
        None => None,
    }
}

/// The polling interval where none is configured: fifteen minutes.
pub fn default_timeout() -> (r: u64)
    ensures
        r == 900,
{
    15 * 60
}

/// The name of an artifact where none is configured.
pub fn default_artifact_name() -> (r: String)
    ensures
        r@ == "artifact"@,
{
    "artifact".to_owned()
}

} // verus!
