//! The working directory of one machine run: which image it boots from, the
//! text substitutions of its configuration file systems, and whether its
//! disk is kept afterwards.
use vstd::prelude::*;

use crate::config::{MachineConfig, SeedBasePolicy};
use crate::manager::Manager as MachineManager;
use crate::text::{join_path, path_join};
use crate::triplet::{machine_image_path_spec, run_dir_path_spec, Triplet};

verus! {

pub const JOB_CONFIG_IMAGE_SIZE: u64 = 1_000_000;

pub const CLOUD_INIT_IMAGE_SIZE: u64 = 1_000_000;

/// One of two candidate files.
#[derive(Clone, Copy, Debug, PartialEq, Eq, Structural)]
pub enum Pick {
    A,
    B,
}

/// Of two files with modification times (`None`: the file does not exist):
/// the newer where both exist, `b` where only it exists, else `a`.
pub open spec fn newer(a_modified: Option<u128>, b_modified: Option<u128>) -> Pick {
    match (a_modified, b_modified) {
        (Some(ma), Some(mb)) => if ma > mb {
            Pick::A
        } else {
            Pick::B
        },
        (None, Some(_)) => Pick::B,
        _ => Pick::A,
    }
}

pub fn pick_newer(a_modified: Option<u128>, b_modified: Option<u128>) -> (r: Pick)
    ensures
        r == newer(a_modified, b_modified),
{
    match (a_modified, b_modified) {
        (Some(ma), Some(mb)) => if ma > mb {
            Pick::A
        } else {
            Pick::B
        },
        (None, Some(_)) => Pick::B,
        (Some(_), None) | (None, None) => Pick::A,
    }
}

/// The image a machine of type `t` is seeded from: its base machine's image,
/// else the configured base image, else its own image.
pub open spec fn base_image_spec(t: (Seq<char>, Seq<char>, Seq<char>), mc: MachineConfig, base_dir: Seq<char>) -> Seq<char> {
    match mc.base_machine {
        Some(b) => machine_image_path_spec(b@, base_dir),
        None => match mc.base_image {
            Some(p) => p@,
            None => machine_image_path_spec(t, base_dir),
        },
    }
}

/// The images a new machine may boot from.
pub enum ImagePlan {
    /// The base machine is running and will likely leave a newer image.
    NotReady,
    Candidates { base: String, machine: String, policy: SeedBasePolicy },
}

/// The candidate images of a machine of type `triplet` with configuration `mc`.
pub fn image_plan(machines: &MachineManager, triplet: &Triplet, mc: &MachineConfig, base_dir: &str) -> (r: ImagePlan)
    ensures
        ({
            let waiting = match mc.base_machine {
                Some(b) => exists|j: int|
                    0 <= j < machines@.machines.len() && (#[trigger] machines@.machines[j]).triplet
                        == b@ && machines@.machines[j].status != crate::machine::Status::Stopped,
                None => false,
            };
            &&& waiting ==> r is NotReady
            &&& !waiting ==> match r {
                ImagePlan::Candidates { base, machine, policy } => base@ == base_image_spec(
                    triplet@,
                    *mc,
                    base_dir@,
                ) && machine@ == machine_image_path_spec(triplet@, base_dir@) && policy
                    == mc.use_base,
                ImagePlan::NotReady => false,
            }
        }),
{
    let machine = triplet.machine_image_path(base_dir);
    let base = match &mc.base_machine {
        Some(b) => {
            if machines.has_machine_of(b) {
                return ImagePlan::NotReady;
            }
            b.machine_image_path(base_dir)
        },
        None => match &mc.base_image {
            Some(p) => p.clone(),
            None => triplet.machine_image_path(base_dir),
        },
    };
    ImagePlan::Candidates { base, machine, policy: mc.use_base }
}

/// The image to boot from under `policy`, given the modification times of
/// the candidates (`None`: missing); `None` where the chosen one is missing.
pub open spec fn chosen_image(
    policy: SeedBasePolicy,
    base: Seq<char>,
    machine: Seq<char>,
    base_modified: Option<u128>,
    machine_modified: Option<u128>,
) -> Option<Seq<char>> {
    let pick = match policy {
        SeedBasePolicy::Always => Pick::A,
        SeedBasePolicy::Never => Pick::B,
        SeedBasePolicy::IfNewer => newer(base_modified, machine_modified),
    };
    match pick {
        Pick::A => if base_modified.is_some() {
            Some(base)
        } else {
            None
        },
        Pick::B => if machine_modified.is_some() {
            Some(machine)
        } else {
            None
        },
    }
}

pub fn choose_image(
    policy: SeedBasePolicy,
    base: &str,
    machine: &str,
    base_modified: Option<u128>,
    machine_modified: Option<u128>,
) -> (r: Option<String>)
    ensures
        r.is_some() == chosen_image(policy, base@, machine@, base_modified, machine_modified).is_some(),
        r.is_some() ==> r.unwrap()@ == chosen_image(
            policy,
            base@,
            machine@,
            base_modified,
            machine_modified,
        ).unwrap(),
{
    let pick = match policy {
        SeedBasePolicy::Always => Pick::A,
        SeedBasePolicy::Never => Pick::B,
        SeedBasePolicy::IfNewer => pick_newer(base_modified, machine_modified),
    };
    match pick {
        Pick::A => if base_modified.is_some() {
            Some(base.to_owned())
        } else {
            None
        },
        Pick::B => if machine_modified.is_some() {
            Some(machine.to_owned())
        } else {
            None
        },
    }
}

pub open spec fn pairs_view(v: Seq<(String, String)>) -> Seq<(Seq<char>, Seq<char>)> {
    v.map_values(|p: (String, String)| (p.0@, p.1@))
}

/// The `<KEY>` substitutions of a run: the repository, the machine name,
/// the runner configuration, the run token, then the template's parameters.
pub open spec fn substitutions_spec(
    t: (Seq<char>, Seq<char>, Seq<char>),
    encoded_jit_config: Seq<char>,
    run_token: Seq<char>,
    parameters: Seq<(Seq<char>, Seq<char>)>,
) -> Seq<(Seq<char>, Seq<char>)> {
    seq![
        ("REPO_OWNER"@, t.0),
        ("REPO_NAME"@, t.1),
        ("MACHINE_NAME"@, t.2),
        ("JITCONFIG"@, encoded_jit_config),
        ("RUN_TOKEN"@, run_token),
    ] + parameters
}

pub fn substitutions(
    triplet: &Triplet,
    encoded_jit_config: &str,
    run_token: &str,
    parameters: &Vec<(String, String)>,
) -> (r: Vec<(String, String)>)
    ensures
        pairs_view(r@) == substitutions_spec(
            triplet@,
            encoded_jit_config@,
            run_token@,
            pairs_view(parameters@),
        ),
{
    let mut r: Vec<(String, String)> = Vec::new();
    r.push(("REPO_OWNER".to_owned(), triplet.owner().to_owned()));
    r.push(("REPO_NAME".to_owned(), triplet.repository().to_owned()));
    r.push(("MACHINE_NAME".to_owned(), triplet.machine_name().to_owned()));
    r.push(("JITCONFIG".to_owned(), encoded_jit_config.to_owned()));
    r.push(("RUN_TOKEN".to_owned(), run_token.to_owned()));
    let ghost head = pairs_view(r@);
    let mut i: usize = 0;
    while i < parameters.len()
        invariant
            i <= parameters@.len(),
            head.len() == 5,
            pairs_view(r@) == head + pairs_view(parameters@).take(i as int),
        decreases parameters@.len() - i,
    {
        let ghost prev = r@;
        r.push((parameters[i].0.clone(), parameters[i].1.clone()));
        assert(pairs_view(r@) =~= pairs_view(prev).push((parameters@[i as int].0@, parameters@[i as int].1@)));
        assert(pairs_view(parameters@).take(i + 1) =~= pairs_view(parameters@).take(i as int).push(
            pairs_view(parameters@)[i as int],
        ));
        i = i + 1;
    }
    assert(pairs_view(parameters@).take(i as int) =~= pairs_view(parameters@));
    assert(head =~= seq![
        ("REPO_OWNER"@, triplet@.0),
        ("REPO_NAME"@, triplet@.1),
        ("MACHINE_NAME"@, triplet@.2),
        ("JITCONFIG"@, encoded_jit_config@),
        ("RUN_TOKEN"@, run_token@),
    ]);
    r
}

/// The size to grow a cloned disk of `current` bytes to, where it is smaller
/// than the configured `wanted` bytes.
pub fn disk_target(current: u64, wanted: u64) -> (r: Option<u64>)
    ensures
        r == if current < wanted {
            Some(wanted)
        } else {
            None::<u64>
        },
{
    if current < wanted {
        Some(wanted)
    } else {
        None
    }
}

/// A machine whose own image went missing (moved away after a failed boot)
/// starts from an existing base image under `IfNewer`.
pub proof fn lemma_missing_image_falls_back(base: Seq<char>, machine: Seq<char>, base_modified: u128)
    ensures
        chosen_image(SeedBasePolicy::IfNewer, base, machine, Some(base_modified), None) == Some(base),
{
}

/// What becomes of a run's disk once the guest has exited.
#[derive(Clone, Copy, Debug, PartialEq, Eq, Structural)]
pub enum PersistDecision {
    /// The repository has no persistence token: nothing is kept.
    NoToken,
    /// The job left no `persist` file: nothing is kept.
    NoFile,
    /// The `persist` file does not hold the token: nothing is kept.
    Mismatch,
    /// The `persist` file holds exactly the token: the disk becomes the
    /// machine image.
    Persist,
}

pub open spec fn persist_decision_spec(token: Option<Seq<char>>, persist_file: Option<Seq<u8>>) -> PersistDecision {
    match token {
        None => PersistDecision::NoToken,
        Some(t) => match persist_file {
            None => PersistDecision::NoFile,
            Some(content) => if content == vstd::utf8::encode_utf8(t) {
                PersistDecision::Persist
            } else {
                PersistDecision::Mismatch
            },
        },
    }
}

/// A run directory: where its files are and what keeps its disk.
pub struct RunDir {
    run_dir: String,
    disk: String,
    machine_image: String,
    persistence_token: Option<String>,
}

pub struct RunDirView {
    pub run_dir: Seq<char>,
    pub disk: Seq<char>,
    pub machine_image: Seq<char>,
    pub persistence_token: Option<Seq<char>>,
}

impl View for RunDir {
    type V = RunDirView;

    closed spec fn view(&self) -> RunDirView {
        RunDirView {
            run_dir: self.run_dir@,
            disk: self.disk@,
            machine_image: self.machine_image@,
            persistence_token: match self.persistence_token {
                Some(t) => Some(t@),
                None => None,
            },
        }
    }
}

impl RunDir {
    /// The run directory of runner `runner_name` and the image it boots from,
    /// given the modification times of the base and machine images (`None`:
    /// missing). `None` (not ready) where a live machine of the base type
    /// exists, or where the chosen image is missing.
    pub fn plan(
        machines: &MachineManager,
        triplet: &Triplet,
        mc: &MachineConfig,
        runner_name: &str,
        base_dir: &str,
        persistence_token: Option<String>,
        base_modified: Option<u128>,
        machine_modified: Option<u128>,
    ) -> (r: Option<(RunDir, String)>)
        ensures
            ({
                let waiting = match mc.base_machine {
                    Some(b) => exists|j: int|
                        0 <= j < machines@.machines.len() && (#[trigger] machines@.machines[j]).triplet
                            == b@ && machines@.machines[j].status != crate::machine::Status::Stopped,
                    None => false,
                };
                let image = chosen_image(
                    mc.use_base,
                    base_image_spec(triplet@, *mc, base_dir@),
                    machine_image_path_spec(triplet@, base_dir@),
                    base_modified,
                    machine_modified,
                );
                &&& r.is_some() == (!waiting && image.is_some())
                &&& r.is_some() ==> {
                    let (rd, img) = r.unwrap();
                    &&& img@ == image.unwrap()
                    &&& rd@.run_dir == run_dir_path_spec(triplet@, base_dir@, runner_name@)
                    &&& rd@.disk == path_join(rd@.run_dir, "disk.img"@)
                    &&& rd@.machine_image == machine_image_path_spec(triplet@, base_dir@)
                    &&& rd@.persistence_token == match persistence_token {
                        Some(t) => Some(t@),
                        None => None::<Seq<char>>,
                    }
                }
            }),
    {
        match image_plan(machines, triplet, mc, base_dir) {
            ImagePlan::NotReady => None,
            ImagePlan::Candidates { base, machine, policy } => {
                match choose_image(policy, base.as_str(), machine.as_str(), base_modified, machine_modified) {
                    Some(image) => Some((RunDir::new(triplet, runner_name, base_dir, persistence_token), image)),
                    None => None,
                }
            },
        }
    }

    /// The run directory of runner `runner_name` of type `triplet` under
    /// `base_dir`, with the disk `disk.img` in it.
    pub fn new(triplet: &Triplet, runner_name: &str, base_dir: &str, persistence_token: Option<String>) -> (r: RunDir)
        ensures
            r@.run_dir == run_dir_path_spec(triplet@, base_dir@, runner_name@),
            r@.disk == path_join(r@.run_dir, "disk.img"@),
            r@.machine_image == machine_image_path_spec(triplet@, base_dir@),
            r@.persistence_token == match persistence_token {
                Some(t) => Some(t@),
                None => None::<Seq<char>>,
            },
    {
        let run_dir = triplet.run_dir_path(base_dir, runner_name);
        let disk = join_path(run_dir.as_str(), "disk.img");
        let machine_image = triplet.machine_image_path(base_dir);
        RunDir { run_dir, disk, machine_image, persistence_token }
    }

    pub fn path(&self) -> (r: &str)
        ensures
            r@ == self@.run_dir,
    {
        self.run_dir.as_str()
    }

    pub fn disk(&self) -> (r: &str)
        ensures
            r@ == self@.disk,
    {
        self.disk.as_str()
    }

    pub fn machine_image(&self) -> (r: &str)
        ensures
            r@ == self@.machine_image,
    {
        self.machine_image.as_str()
    }

    /// A file of the run directory.
    pub fn file(&self, name: &str) -> (r: String)
        ensures
            r@ == path_join(self@.run_dir, name@),
    {
        join_path(self.run_dir.as_str(), name)
    }

    /// Whether the disk is kept, given the content of the `persist` file that
    /// the job left on its configuration file system, if any.
    pub fn maybe_persist(&self, persist_file: Option<&Vec<u8>>) -> (r: PersistDecision)
        ensures
            r == persist_decision_spec(
                self@.persistence_token,
                match persist_file {
                    Some(c) => Some(c@),
                    None => None::<Seq<u8>>,
                },
            ),
    {
        match &self.persistence_token {
            None => PersistDecision::NoToken,
            Some(token) => match persist_file {
                None => PersistDecision::NoFile,
                Some(content) => {
                    let expected = token.as_str().as_bytes();
                    let mut same = content.len() == expected.len();
                    let mut i: usize = 0;
                    while i < content.len()
                        invariant
                            i <= content@.len(),
                            expected@ == vstd::utf8::encode_utf8(token@),
                            same == (content@.len() == expected@.len() && forall|j: int|
                                0 <= j < i ==> content@[j] == expected@[j]),
                        decreases content@.len() - i,
                    {
                        let x = content[i];
                        let y = if i < expected.len() {
                            expected[i]
                        } else {
                            x
                        };
                        same = same && x == y;
                        i = i + 1;
                    }
                    proof {
                        if same {
                            assert(content@ =~= expected@);
                        }
                    }
                    if same {
                        PersistDecision::Persist
                    } else {
                        PersistDecision::Mismatch
                    }
                },
            },
        }
    }
}

} // verus!
