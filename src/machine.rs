//! One virtual machine: its identity, its lifecycle and its upload quotas.
use vstd::prelude::*;

use crate::config::{Artifact as ArtifactConfig, MachineConfig};
use crate::text::{ends_with_char, replace_all, replaced, str_equal};
use crate::triplet::Triplet;

verus! {

/// Where a machine stands in its lifecycle.
#[derive(Clone, Copy, Debug, PartialEq, Eq, Structural)]
pub enum Status {
    Requested,
    Registering,
    Registered,
    Starting,
    Waiting,
    Running,
    Stopping,
    Stopped,
}

impl Status {
    /// Not yet committed to a job: the machine still counts as supply.
    pub open spec fn available(self) -> bool {
        match self {
            Status::Requested | Status::Registering | Status::Registered | Status::Starting
            | Status::Waiting => true,
            _ => false,
        }
    }

    /// A guest process exists and holds its RAM.
    pub open spec fn has_guest(self) -> bool {
        match self {
            Status::Starting | Status::Waiting | Status::Running | Status::Stopping => true,
            _ => false,
        }
    }

    /// How much work killing a machine in this state throws away.
    pub open spec fn kill_cost(self) -> u32 {
        match self {
            Status::Requested => 0,
            Status::Registering => 1,
            Status::Registered => 2,
            Status::Starting => 3,
            Status::Waiting => 4,
            _ => u32::MAX,
        }
    }

    pub fn is_available(&self) -> (r: bool)
        ensures
            r == self.available(),
    {
        match self {
            Status::Requested | Status::Registering | Status::Registered | Status::Starting
            | Status::Waiting => true,
            Status::Running | Status::Stopping | Status::Stopped => false,
        }
    }

    pub fn is_stopped(&self) -> (r: bool)
        ensures
            r == (*self == Status::Stopped),
    {
        match self {
            Status::Stopped => true,
            _ => false,
        }
    }

    pub open spec fn name_spec(self) -> Seq<char> {
        match self {
            Status::Requested => "requested"@,
            Status::Registering => "registering"@,
            Status::Registered => "registered"@,
            Status::Starting => "starting"@,
            Status::Waiting => "waiting"@,
            Status::Running => "running"@,
            Status::Stopping => "stopping"@,
            Status::Stopped => "stopped"@,
        }
    }

    /// The lower-case name of the state.
    pub fn name(&self) -> (r: &'static str)
        ensures
            r@ == self.name_spec(),
    {
        match self {
            Status::Requested => "requested",
            Status::Registering => "registering",
            Status::Registered => "registered",
            Status::Starting => "starting",
            Status::Waiting => "waiting",
            Status::Running => "running",
            Status::Stopping => "stopping",
            Status::Stopped => "stopped",
        }
    }
}

/// The state that runner feedback `(online, busy)` moves a machine to.
/// `online` is `None` where the source of the feedback cannot tell.
pub open spec fn feedback_next(s: Status, online: Option<bool>, busy: bool) -> Status {
    match s {
        Status::Starting => if online == Some(true) {
            if busy {
                Status::Running
            } else {
                Status::Waiting
            }
        } else {
            Status::Starting
        },
        Status::Waiting => if busy {
            Status::Running
        } else if online == Some(false) {
            Status::Stopping
        } else {
            Status::Waiting
        },
        Status::Running => if online == Some(false) || !busy {
            Status::Stopping
        } else {
            Status::Running
        },
        _ => s,
    }
}

/// A machine after runner feedback: its new state, and its configuration
/// dropped where it enters `Stopping`.
pub open spec fn feedback_view(m: MachineView, online: Option<bool>, busy: bool) -> MachineView {
    let next = feedback_next(m.status, online, busy);
    MachineView {
        status: next,
        jit: if next == Status::Stopping && m.status != Status::Stopping {
            None
        } else {
            m.jit
        },
        ..m
    }
}

/// One move of a machine's lifecycle: each method of `Machine` that changes
/// a machine makes one.
pub open spec fn lifecycle_step(a: MachineView, b: MachineView) -> bool {
    ||| a.status == Status::Requested && b == a.with_status(Status::Registering)
    ||| a.status == Status::Registering && b.jit.is_some() && b == (MachineView {
        status: Status::Registered,
        jit: b.jit,
        ..a
    })
    ||| a.status == Status::Registering && b == a.with_status(Status::Stopped)
    ||| a.status == Status::Registered && b.run_dir.is_some() && b.started.is_some() && b == (
    MachineView { status: Status::Starting, run_dir: b.run_dir, started: b.started, ..a })
    ||| b == a.with_status(Status::Stopped)
    ||| a.status != Status::Registered && b == (MachineView { jit: None, ..a })
    ||| b == feedback_view(a, Some(true), true) || b == feedback_view(a, Some(true), false)
        || b == feedback_view(a, Some(false), true) || b == feedback_view(a, Some(false), false)
        || b == feedback_view(a, None, true) || b == feedback_view(a, None, false)
    ||| b == (MachineView { quota: b.quota, ..a })
}

/// A stopped machine stays stopped: no step of the lifecycle leaves `Stopped`.
pub proof fn lemma_stopped_is_final(a: MachineView, b: MachineView)
    requires
        a.status == Status::Stopped,
        lifecycle_step(a, b),
    ensures
        b.status == Status::Stopped,
{
}

/// A machine in `Registered` holds its runner configuration, in every state
/// that the lifecycle reaches from a well formed one.
pub proof fn lemma_registered_has_jit_config(a: MachineView, b: MachineView)
    requires
        a.wf(),
        lifecycle_step(a, b),
    ensures
        b.status == Status::Registered ==> b.jit.is_some(),
{
}

/// The runner registration that the platform issued for a machine.
#[derive(Clone, Debug)]
pub struct JitConfig {
    pub encoded_jit_config: String,
    pub runner_id: u64,
}

/// What a machine is, as the contracts see it.
pub struct MachineView {
    pub triplet: (Seq<char>, Seq<char>, Seq<char>),
    pub runner_name: Seq<char>,
    pub run_token: Seq<char>,
    pub ram_required: u64,
    pub status: Status,
    pub jit: Option<(Seq<char>, u64)>,
    pub run_dir: Option<Seq<char>>,
    pub started: Option<u64>,
    pub quota: Seq<u64>,
    pub artifacts: Seq<ArtifactConfig>,
}

impl MachineView {
    pub open spec fn wf(self) -> bool {
        &&& self.status == Status::Registered ==> self.jit.is_some()
        &&& self.status.has_guest() ==> self.run_dir.is_some() && self.started.is_some()
        &&& !self.status.has_guest() && self.status != Status::Stopped ==> self.run_dir.is_none()
            && self.started.is_none()
        &&& self.quota.len() == self.artifacts.len()
    }

    /// The RAM this machine holds right now.
    pub open spec fn consumed(self) -> nat {
        if self.status.has_guest() {
            self.ram_required as nat
        } else {
            0
        }
    }

    /// The same machine in state `s`.
    pub open spec fn with_status(self, s: Status) -> MachineView {
        MachineView { status: s, ..self }
    }
}

pub open spec fn jit_view(j: Option<JitConfig>) -> Option<(Seq<char>, u64)> {
    match j {
        Some(c) => Some((c.encoded_jit_config@, c.runner_id)),
        None => None,
    }
}

pub open spec fn runner_name_spec(machine_name: Seq<char>, suffix: Seq<char>) -> Seq<char> {
    "forrest-"@ + machine_name + "-"@ + suffix
}

/// One virtual machine and its lifecycle.
pub struct Machine {
    triplet: Triplet,
    config: MachineConfig,
    runner_name: String,
    run_token: String,
    status: Status,
    jit_config: Option<JitConfig>,
    run_dir: Option<String>,
    started: Option<u64>,
    artifact_quota_remaining: Vec<u64>,
}

impl View for Machine {
    type V = MachineView;

    closed spec fn view(&self) -> MachineView {
        MachineView {
            triplet: self.triplet@,
            runner_name: self.runner_name@,
            run_token: self.run_token@,
            ram_required: self.config.ram.0,
            status: self.status,
            jit: jit_view(self.jit_config),
            run_dir: match self.run_dir {
                Some(d) => Some(d@),
                None => None,
            },
            started: self.started,
            quota: self.artifact_quota_remaining@,
            artifacts: self.config.artifacts@,
        }
    }
}

impl Machine {
    pub open spec fn wf(&self) -> bool {
        self@.wf()
    }

    /// A machine in the `Requested` state, named `forrest-<machine_name>-<suffix>`,
    /// with the full quota of each configured artifact.
    pub fn new(triplet: Triplet, config: MachineConfig, runner_suffix: &str, run_token: String) -> (r: Machine)
        ensures
            r.wf(),
            r@.triplet == triplet@,
            r@.runner_name == runner_name_spec(triplet@.2, runner_suffix@),
            r@.run_token == run_token@,
            r@.ram_required == config.ram.0,
            r@.status == Status::Requested,
            r@.jit.is_none(),
            r@.run_dir.is_none(),
            r@.started.is_none(),
            r@.artifacts == config.artifacts@,
            forall|i: int| 0 <= i < r@.quota.len() ==> r@.quota[i] == config.artifacts@[i].quota.0,
    {
        let mut runner_name = "forrest-".to_owned();
        runner_name.append(triplet.machine_name());
        runner_name.append("-");
        runner_name.append(runner_suffix);
        let mut quota: Vec<u64> = Vec::new();
        let mut i: usize = 0;
        while i < config.artifacts.len()
            invariant
                i <= config.artifacts.len(),
                quota@.len() == i,
                forall|j: int| 0 <= j < i ==> quota@[j] == config.artifacts@[j].quota.0,
            decreases config.artifacts.len() - i,
        {
            quota.push(config.artifacts[i].quota.bytes());
            i = i + 1;
        }
        Machine {
            triplet,
            config,
            runner_name,
            run_token,
            status: Status::Requested,
            jit_config: None,
            run_dir: None,
            started: None,
            artifact_quota_remaining: quota,
        }
    }

    pub fn triplet(&self) -> (r: &Triplet)
        ensures
            r@ == self@.triplet,
    {
        &self.triplet
    }

    /// The configuration this machine was created with.
    pub fn config(&self) -> (r: &MachineConfig)
        ensures
            r.ram.0 == self@.ram_required,
            r.artifacts@ == self@.artifacts,
    {
        &self.config
    }

    pub fn runner_name(&self) -> (r: &str)
        ensures
            r@ == self@.runner_name,
    {
        self.runner_name.as_str()
    }

    pub fn run_token(&self) -> (r: &str)
        ensures
            r@ == self@.run_token,
    {
        self.run_token.as_str()
    }

    pub fn status(&self) -> (r: Status)
        ensures
            r == self@.status,
    {
        self.status
    }

    pub fn run_dir(&self) -> (r: Option<&String>)
        ensures
            r.is_some() == self@.run_dir.is_some(),
            r.is_some() ==> r.unwrap()@ == self@.run_dir.unwrap(),
    {
        match &self.run_dir {
            Some(d) => Some(d),
            None => None,
        }
    }

    /// The configuration string to hand to the runner inside the guest.
    pub fn encoded_jit_config(&self) -> (r: Option<String>)
        ensures
            r.is_some() == self@.jit.is_some(),
            r.is_some() ==> r.unwrap()@ == self@.jit.unwrap().0,
    {
        match &self.jit_config {
            Some(jc) => Some(jc.encoded_jit_config.clone()),
            None => None,
        }
    }

    pub fn runner_id(&self) -> (r: Option<u64>)
        ensures
            r.is_some() == self@.jit.is_some(),
            r.is_some() ==> r.unwrap() == self@.jit.unwrap().1,
    {
        match &self.jit_config {
            Some(jc) => Some(jc.runner_id),
            None => None,
        }
    }

    /// How much work killing this machine would throw away.
    pub fn cost_to_kill(&self) -> (r: u32)
        ensures
            r == self@.status.kill_cost(),
    {
        match self.status {
            Status::Requested => 0,
            Status::Registering => 1,
            Status::Registered => 2,
            Status::Starting => 3,
            Status::Waiting => 4,
            Status::Running | Status::Stopping | Status::Stopped => u32::MAX,
        }
    }

    /// The RAM the machine would hold once started.
    pub fn ram_required(&self) -> (r: u64)
        ensures
            r == self@.ram_required,
    {
        self.config.ram.bytes()
    }

    /// The RAM the machine holds right now.
    pub fn ram_consumed(&self) -> (r: u64)
        ensures
            r as nat == self@.consumed(),
    {
        match self.status {
            Status::Starting | Status::Waiting | Status::Running | Status::Stopping => {
                self.ram_required()
            },
            Status::Requested | Status::Registering | Status::Registered | Status::Stopped => 0,
        }
    }

    /// Seconds spent in `Starting` by time `now`, while the machine is starting.
    pub fn starting_duration(&self, now: u64) -> (r: Option<u64>)
        requires
            self.wf(),
        ensures
            r.is_some() == (self@.status == Status::Starting),
            r.is_some() ==> r.unwrap() == if now >= self@.started.unwrap() {
                (now - self@.started.unwrap()) as u64
            } else {
                0
            },
    {
        match self.status {
            Status::Starting => {
                let s = match self.started {
                    Some(s) => s,
                    None => now,
                };
                Some(now.saturating_sub(s))
            },
            _ => None,
        }
    }

    /// `Requested` to `Registering`: the runner registration is under way.
    pub fn begin_registration(&mut self)
        requires
            old(self).wf(),
            old(self)@.status == Status::Requested,
        ensures
            lifecycle_step(old(self)@, final(self)@),
            final(self).wf(),
            final(self)@ == old(self)@.with_status(Status::Registering),
    {
        self.status = Status::Registering;
    }

    /// The outcome of the runner registration: `Registered` with the issued
    /// configuration, or `Stopped` where it failed. A machine that left
    /// `Registering` meanwhile (it was killed) stays as it is.
    pub fn registration_finished(&mut self, jit_config: Option<JitConfig>)
        requires
            old(self).wf(),
        ensures
            lifecycle_step(old(self)@, final(self)@),
            final(self).wf(),
            old(self)@.status != Status::Registering ==> final(self)@ == old(self)@,
            old(self)@.status == Status::Registering && jit_config.is_some() ==> final(self)@ == (
            MachineView { status: Status::Registered, jit: jit_view(jit_config), ..old(self)@ }),
            old(self)@.status == Status::Registering && jit_config.is_none() ==> final(self)@
                == old(self)@.with_status(Status::Stopped),
    {
        if self.status == Status::Registering {
            match jit_config {
                Some(jc) => {
                    self.jit_config = Some(jc);
                    self.status = Status::Registered;
                },
                None => {
                    self.status = Status::Stopped;
                },
            }
        }
    }

    /// `Registered` to `Starting`: the guest was launched from `run_dir` at `now`.
    pub fn start(&mut self, run_dir: String, now: u64)
        requires
            old(self).wf(),
            old(self)@.status == Status::Registered,
        ensures
            lifecycle_step(old(self)@, final(self)@),
            final(self).wf(),
            final(self)@ == (MachineView {
                status: Status::Starting,
                run_dir: Some(run_dir@),
                started: Some(now),
                ..old(self)@
            }),
    {
        self.run_dir = Some(run_dir);
        self.started = Some(now);
        self.status = Status::Starting;
    }

    /// Moves the machine to `Stopped`. Returns the id of a registered runner
    /// that should now be removed from the platform. A machine that is already
    /// stopped is left alone.
    pub fn kill(&mut self) -> (r: Option<u64>)
        requires
            old(self).wf(),
        ensures
            lifecycle_step(old(self)@, final(self)@),
            final(self).wf(),
            old(self)@.status == Status::Stopped ==> final(self)@ == old(self)@ && r.is_none(),
            old(self)@.status != Status::Stopped ==> final(self)@ == old(self)@.with_status(
                Status::Stopped,
            ) && r == match old(self)@.jit {
                Some(j) => Some(j.1),
                None => None::<u64>,
            },
    {
        if self.status == Status::Stopped {
            return None;
        }
        self.status = Status::Stopped;
        match &self.jit_config {
            Some(jc) => Some(jc.runner_id),
            None => None,
        }
    }

    /// The runner was removed from the platform: forget its configuration.
    pub fn runner_deregistered(&mut self)
        requires
            old(self).wf(),
        ensures
            lifecycle_step(old(self)@, final(self)@),
            final(self).wf(),
            old(self)@.status == Status::Registered ==> final(self)@ == old(self)@,
            old(self)@.status != Status::Registered ==> final(self)@ == (MachineView {
                jit: None,
                ..old(self)@
            }),
    {
        if self.status != Status::Registered {
            self.jit_config = None;
        }
    }

    /// Feedback on the runner from the platform. The configuration is dropped
    /// when the machine enters `Stopping`.
    pub fn status_feedback(&mut self, online: Option<bool>, busy: bool)
        requires
            old(self).wf(),
        ensures
            lifecycle_step(old(self)@, final(self)@),
            final(self).wf(),
            final(self)@ == feedback_view(old(self)@, online, busy),
    {
        let next = match self.status {
            Status::Starting => if online == Some(true) {
                if busy {
                    Status::Running
                } else {
                    Status::Waiting
                }
            } else {
                Status::Starting
            },
            Status::Waiting => if busy {
                Status::Running
            } else if online == Some(false) {
                Status::Stopping
            } else {
                Status::Waiting
            },
            Status::Running => if online == Some(false) || !busy {
                Status::Stopping
            } else {
                Status::Running
            },
            s => s,
        };
        if next == Status::Stopping && self.status != Status::Stopping {
            self.jit_config = None;
        }
        self.status = next;
    }

    /// Takes `bytes` from the remaining quota of artifact `index`. Where less
    /// remains, the quota is used up and the upload must fail.
    pub fn consume_quota(&mut self, index: usize, bytes: u64) -> (r: bool)
        requires
            old(self).wf(),
            index < old(self)@.quota.len(),
        ensures
            lifecycle_step(old(self)@, final(self)@),
            final(self).wf(),
            r == (bytes <= old(self)@.quota[index as int]),
            final(self)@ == (MachineView {
                quota: old(self)@.quota.update(
                    index as int,
                    if r {
                        (old(self)@.quota[index as int] - bytes) as u64
                    } else {
                        0
                    },
                ),
                ..old(self)@
            }),
    {
        let remaining = self.artifact_quota_remaining[index];
        if bytes <= remaining {
            self.artifact_quota_remaining.set(index, remaining - bytes);
            true
        } else {
            self.artifact_quota_remaining.set(index, 0);
            false
        }
    }

    /// The configured artifact called `name` whose extra token, if it has one,
    /// equals `extra_token`: the first such in configuration order.
    pub fn artifact(&self, name: &str, extra_token: &str) -> (r: Option<Artifact>)
        requires
            self.wf(),
        ensures
            r.is_some() == exists|i: int|
                0 <= i < self@.artifacts.len() && artifact_matches(
                    #[trigger] self@.artifacts[i],
                    name@,
                    extra_token@,
                ),
            r.is_some() ==> {
                let a = r.unwrap();
                &&& 0 <= a.quota_index < self@.artifacts.len()
                &&& artifact_matches(self@.artifacts[a.quota_index as int], name@, extra_token@)
                &&& forall|j: int|
                    0 <= j < a.quota_index ==> !artifact_matches(
                        #[trigger] self@.artifacts[j],
                        name@,
                        extra_token@,
                    )
                &&& a.path_template@ == self@.artifacts[a.quota_index as int].path@
                &&& a.url_template@ == self@.artifacts[a.quota_index as int].url@
                &&& a.runner_name@ == self@.runner_name
            },
    {
        let mut i: usize = 0;
        while i < self.config.artifacts.len()
            invariant
                i <= self.config.artifacts.len(),
                forall|j: int|
                    0 <= j < i ==> !artifact_matches(
                        #[trigger] self.config.artifacts@[j],
                        name@,
                        extra_token@,
                    ),
            decreases self.config.artifacts.len() - i,
        {
            let a = &self.config.artifacts[i];
            let name_ok = str_equal(a.name.as_str(), name);
            let token_ok = match &a.token {
                Some(t) => tokens_equal(t.as_str(), extra_token),
                None => true,
            };
            if name_ok && token_ok {
                return Some(
                    Artifact {
                        quota_index: i,
                        path_template: a.path.clone(),
                        url_template: a.url.clone(),
                        runner_name: self.runner_name.clone(),
                    },
                );
            }
            i = i + 1;
        }
        None
    }
}

/// Whether an upload to `name` with `extra_token` may use artifact `a`.
pub open spec fn artifact_matches(a: ArtifactConfig, name: Seq<char>, extra_token: Seq<char>) -> bool {
    &&& a.name@ == name
    &&& match a.token {
        Some(t) => t@ == extra_token,
        None => true,
    }
}

/// Compares two tokens without stopping at the first difference.
pub fn tokens_equal(a: &str, b: &str) -> (r: bool)
    ensures
        r == (a@ == b@),
{
    let n = a.unicode_len();
    let m = b.unicode_len();
    let mut same = n == m;
    let mut i: usize = 0;
    while i < n
        invariant
            n == a@.len(),
            m == b@.len(),
            i <= n,
            same == (n == m && forall|j: int| 0 <= j < i ==> a@[j] == b@[j]),
        decreases n - i,
    {
        let c = a.get_char(i);
        let d = if i < m {
            b.get_char(i)
        } else {
            c
        };
        same = same && c == d;
        i = i + 1;
    }
    proof {
        if same {
            assert(a@ =~= b@);
        }
    }
    same
}

/// An upload destination resolved for one machine.
pub struct Artifact {
    pub quota_index: usize,
    pub path_template: String,
    pub url_template: String,
    pub runner_name: String,
}

pub open spec fn runner_name_pattern() -> Seq<char> {
    "<RUNNER_NAME>"@
}

/// The artifact's URL with the runner name filled in, ending in `/`.
pub open spec fn artifact_url_spec(template: Seq<char>, runner_name: Seq<char>) -> Seq<char> {
    let u = replaced(template, runner_name_pattern(), runner_name);
    if u.len() > 0 && u.last() == '/' {
        u
    } else {
        u + "/"@
    }
}

impl Artifact {
    /// Draws `bytes` from this artifact's quota on `machine`.
    pub fn consume_quota(&self, machine: &mut Machine, bytes: u64) -> (r: bool)
        requires
            old(machine).wf(),
            self.quota_index < old(machine)@.quota.len(),
        ensures
            final(machine).wf(),
            r == (bytes <= old(machine)@.quota[self.quota_index as int]),
            final(machine)@ == (MachineView {
                quota: old(machine)@.quota.update(
                    self.quota_index as int,
                    if r {
                        (old(machine)@.quota[self.quota_index as int] - bytes) as u64
                    } else {
                        0
                    },
                ),
                ..old(machine)@
            }),
    {
        machine.consume_quota(self.quota_index, bytes)
    }

    /// The directory that uploads go to, with `<RUNNER_NAME>` filled in.
    pub fn path(&self) -> (r: String)
        ensures
            r@ == replaced(self.path_template@, runner_name_pattern(), self.runner_name@),
    {
        proof {
            reveal_strlit("<RUNNER_NAME>");
        }
        replace_all(self.path_template.as_str(), "<RUNNER_NAME>", self.runner_name.as_str())
    }

    /// The URL that uploaded files are served under, ending in `/`.
    pub fn url(&self) -> (r: String)
        ensures
            r@ == artifact_url_spec(self.url_template@, self.runner_name@),
    {
        proof {
            reveal_strlit("<RUNNER_NAME>");
        }
        let mut url = replace_all(self.url_template.as_str(), "<RUNNER_NAME>", self.runner_name.as_str());
        if !ends_with_char(url.as_str(), '/') {
            url.append("/");
        }
        url
    }
}

} // verus!
