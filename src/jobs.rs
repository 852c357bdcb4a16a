//! The job tracker: which workflow jobs are outstanding, and the demand for
//! machines that follows from them.
use vstd::prelude::*;

use crate::config::ConfigFile;
use crate::machine::{feedback_view, MachineView, Status};
use crate::manager::{
    first_live_runner, fleet_feedback, is_live_runner, lemma_first_live_runner, triplets_view, Killed,
    Manager as MachineManager, TripletView,
};
use crate::triplet::{OwnerAndRepo, Triplet};

verus! {

/// The state of a workflow job on the platform.
#[derive(Clone, Copy, Debug, PartialEq, Eq, Structural)]
pub enum JobStatus {
    Pending,
    Queued,
    InProgress,
    Completed,
    Failed,
}

impl JobStatus {
    /// Still to be served or being served: such a job is outstanding.
    pub open spec fn outstanding(self) -> bool {
        match self {
            JobStatus::Pending | JobStatus::Queued | JobStatus::InProgress => true,
            _ => false,
        }
    }
}

/// An outstanding job.
pub struct Job {
    orm: Triplet,
    job_id: u64,
    run_id: u64,
    status: JobStatus,
}

pub struct JobView {
    pub orm: TripletView,
    pub job_id: u64,
    pub run_id: u64,
    pub status: JobStatus,
}

impl View for Job {
    type V = JobView;

    closed spec fn view(&self) -> JobView {
        JobView { orm: self.orm@, job_id: self.job_id, run_id: self.run_id, status: self.status }
    }
}

impl Job {
    pub fn new(orm: Triplet, job_id: u64, run_id: u64, status: JobStatus) -> (r: Job)
        ensures
            r@ == (JobView { orm: orm@, job_id, run_id, status }),
    {
        Job { orm, job_id, run_id, status }
    }

    pub fn orm(&self) -> (r: &Triplet)
        ensures
            r@ == self@.orm,
    {
        &self.orm
    }

    pub fn job_id(&self) -> (r: u64)
        ensures
            r == self@.job_id,
    {
        self.job_id
    }

    pub fn run_id(&self) -> (r: u64)
        ensures
            r == self@.run_id,
    {
        self.run_id
    }

    pub fn is_queued(&self) -> (r: bool)
        ensures
            r == (self@.status == JobStatus::Queued),
    {
        self.status == JobStatus::Queued
    }

    pub fn is_interesting(&self) -> (r: bool)
        ensures
            r == self@.status.outstanding(),
    {
        match self.status {
            JobStatus::Pending | JobStatus::Queued | JobStatus::InProgress => true,
            JobStatus::Completed | JobStatus::Failed => false,
        }
    }

    /// Sets the status; returns whether it differed.
    pub fn update_status(&mut self, status: JobStatus) -> (r: bool)
        ensures
            r == (old(self)@.status != status),
            final(self)@ == (JobView { status, ..old(self)@ }),
    {
        if self.status != status {
            self.status = status;
            true
        } else {
            false
        }
    }
}

pub open spec fn jobs_view(v: Seq<Job>) -> Seq<JobView> {
    v.map_values(|j: Job| j@)
}

/// The position of the job `(orm, job_id)`.
pub open spec fn job_position(jobs: Seq<JobView>, orm: TripletView, job_id: u64) -> Option<int> {
    if exists|i: int| 0 <= i < jobs.len() && (#[trigger] jobs[i]).orm == orm && jobs[i].job_id == job_id {
        Some(choose|i: int| 0 <= i < jobs.len() && (#[trigger] jobs[i]).orm == orm && jobs[i].job_id == job_id)
    } else {
        None
    }
}

/// Every job is outstanding and no two share a key.
pub open spec fn jobs_wf(jobs: Seq<JobView>) -> bool {
    &&& forall|i: int| 0 <= i < jobs.len() ==> (#[trigger] jobs[i]).status.outstanding()
    &&& forall|i: int, j: int|
        0 <= i < jobs.len() && 0 <= j < jobs.len() && i != j ==> !((#[trigger] jobs[i]).orm
            == (#[trigger] jobs[j]).orm && jobs[i].job_id == jobs[j].job_id)
}

/// The outstanding jobs after a status report, and whether they changed: a job
/// in an outstanding state is added or has its status updated; a finished job is
/// dropped (its place taken by the last job).
pub open spec fn jobs_after(jobs: Seq<JobView>, orm: TripletView, job_id: u64, run_id: u64, status: JobStatus) -> (Seq<JobView>, bool) {
    match job_position(jobs, orm, job_id) {
        None => if status.outstanding() {
            (jobs.push(JobView { orm, job_id, run_id, status }), true)
        } else {
            (jobs, false)
        },
        Some(i) => if status.outstanding() {
            (jobs.update(i, JobView { status, ..jobs[i] }), jobs[i].status != status)
        } else {
            (jobs.update(i, jobs.last()).drop_last(), true)
        },
    }
}

/// The runner feedback that a job's status implies: a job in progress keeps
/// its runner online and busy; a finished one leaves it idle.
pub open spec fn fleet_after(
    s: Seq<MachineView>,
    orm: TripletView,
    status: JobStatus,
    runner_name: Option<Seq<char>>,
) -> Seq<MachineView> {
    match runner_name {
        Some(rn) => if status == JobStatus::InProgress {
            fleet_feedback(s, orm, rn, Some(true), true)
        } else if status == JobStatus::Completed || status == JobStatus::Failed {
            fleet_feedback(s, orm, rn, None, false)
        } else {
            s
        },
        None => s,
    }
}

pub open spec fn opt_view(o: Option<&str>) -> Option<Seq<char>> {
    match o {
        Some(s) => Some(s@),
        None => None,
    }
}

/// The machine types that the queued jobs ask for, in order.
pub open spec fn queued_demand(jobs: Seq<JobView>) -> Seq<TripletView>
    decreases jobs.len(),
{
    if jobs.len() == 0 {
        Seq::empty()
    } else if jobs.last().status == JobStatus::Queued {
        queued_demand(jobs.drop_last()).push(jobs.last().orm)
    } else {
        queued_demand(jobs.drop_last())
    }
}

/// Run `run_id` of repository `oar` is listed in `r`.
pub open spec fn run_listed(r: Seq<(OwnerAndRepo, u64)>, oar: (Seq<char>, Seq<char>), run_id: u64) -> bool {
    exists|k: int| 0 <= k < r.len() && (#[trigger] r[k]).0@ == oar && r[k].1 == run_id
}

/// Some job among the first `n` belongs to run `run_id` of repository `oar`.
pub open spec fn run_has_job(jobs: Seq<JobView>, n: int, oar: (Seq<char>, Seq<char>), run_id: u64) -> bool {
    exists|j: int| 0 <= j < n && ((#[trigger] jobs[j]).orm.0, jobs[j].orm.1) == oar && jobs[j].run_id == run_id
}

proof fn lemma_job_position(jobs: Seq<JobView>, i: int)
    requires
        jobs_wf(jobs),
        0 <= i < jobs.len(),
    ensures
        job_position(jobs, jobs[i].orm, jobs[i].job_id) == Some(i),
{
    let w = choose|w: int|
        0 <= w < jobs.len() && (#[trigger] jobs[w]).orm == jobs[i].orm && jobs[w].job_id
            == jobs[i].job_id;
    assert(0 <= i < jobs.len() && jobs[i].orm == jobs[i].orm && jobs[i].job_id == jobs[i].job_id);
}

/// A report applied twice leaves the jobs as one report does, and the second
/// reports no change.
pub proof fn lemma_jobs_after_idempotent(jobs: Seq<JobView>, orm: TripletView, job_id: u64, run_id: u64, status: JobStatus)
    requires
        jobs_wf(jobs),
    ensures
        jobs_wf(jobs_after(jobs, orm, job_id, run_id, status).0),
        jobs_after(jobs_after(jobs, orm, job_id, run_id, status).0, orm, job_id, run_id, status)
            == (jobs_after(jobs, orm, job_id, run_id, status).0, false),
{
    let j1 = jobs_after(jobs, orm, job_id, run_id, status).0;
    match job_position(jobs, orm, job_id) {
        None => {
            if status.outstanding() {
                let n = jobs.len() as int;
                assert forall|a: int, b: int|
                    0 <= a < j1.len() && 0 <= b < j1.len() && a != b implies !((#[trigger] j1[a]).orm
                    == (#[trigger] j1[b]).orm && j1[a].job_id == j1[b].job_id) by {
                    if a < n && b < n {
                        assert(j1[a] == jobs[a] && j1[b] == jobs[b]);
                    } else if a < n {
                        assert(j1[a] == jobs[a]);
                    } else {
                        assert(j1[b] == jobs[b]);
                    }
                }
                lemma_job_position(j1, n);
                assert(j1.update(n, JobView { status, ..j1[n] }) =~= j1);
            }
        },
        Some(i) => {
            let w = choose|w: int|
                0 <= w < jobs.len() && (#[trigger] jobs[w]).orm == orm && jobs[w].job_id == job_id;
            if status.outstanding() {
                assert forall|a: int, b: int|
                    0 <= a < j1.len() && 0 <= b < j1.len() && a != b implies !((#[trigger] j1[a]).orm
                    == (#[trigger] j1[b]).orm && j1[a].job_id == j1[b].job_id) by {
                    assert(j1[a].orm == jobs[a].orm && j1[a].job_id == jobs[a].job_id);
                    assert(j1[b].orm == jobs[b].orm && j1[b].job_id == jobs[b].job_id);
                }
                lemma_job_position(j1, i);
                assert(j1.update(i, JobView { status, ..j1[i] }) =~= j1);
            } else {
                let last = jobs.len() - 1;
                assert forall|a: int, b: int|
                    0 <= a < j1.len() && 0 <= b < j1.len() && a != b implies !((#[trigger] j1[a]).orm
                    == (#[trigger] j1[b]).orm && j1[a].job_id == j1[b].job_id) by {
                    let a2 = if a == i { last } else { a };
                    let b2 = if b == i { last } else { b };
                    assert(j1[a] == jobs[a2]);
                    assert(j1[b] == jobs[b2]);
                }
                assert forall|a: int| 0 <= a < j1.len() implies (#[trigger] j1[a]).status.outstanding() by {
                    let a2 = if a == i { last } else { a };
                    assert(j1[a] == jobs[a2]);
                }
                if exists|k: int| 0 <= k < j1.len() && (#[trigger] j1[k]).orm == orm && j1[k].job_id == job_id {
                    let k = choose|k: int| 0 <= k < j1.len() && (#[trigger] j1[k]).orm == orm && j1[k].job_id == job_id;
                    let k2 = if k == i { last } else { k };
                    assert(j1[k] == jobs[k2]);
                    assert(jobs[i].orm == orm && jobs[i].job_id == job_id);
                    assert(k2 != i);
                }
            }
        },
    }
}

/// Runner feedback applied twice leaves the fleet as applying it once does,
/// for the feedback that job reports imply.
pub proof fn lemma_fleet_after_idempotent(
    s: Seq<MachineView>,
    orm: TripletView,
    status: JobStatus,
    runner_name: Option<Seq<char>>,
)
    ensures
        fleet_after(fleet_after(s, orm, status, runner_name), orm, status, runner_name) == fleet_after(
            s,
            orm,
            status,
            runner_name,
        ),
{
    match runner_name {
        Some(rn) => {
            if status == JobStatus::InProgress {
                lemma_fleet_feedback_idempotent(s, orm, rn, Some(true), true);
            } else if status == JobStatus::Completed || status == JobStatus::Failed {
                lemma_fleet_feedback_idempotent(s, orm, rn, None, false);
            }
        },
        None => {},
    }
}

proof fn lemma_fleet_feedback_idempotent(
    s: Seq<MachineView>,
    t: TripletView,
    rn: Seq<char>,
    online: Option<bool>,
    busy: bool,
)
    requires
        (online, busy) == (Some(true), true) || (online, busy) == (None::<bool>, false),
    ensures
        fleet_feedback(fleet_feedback(s, t, rn, online, busy), t, rn, online, busy) == fleet_feedback(
            s,
            t,
            rn,
            online,
            busy,
        ),
{
    if exists|k: int| 0 <= k < s.len() && is_live_runner(#[trigger] s[k], t, rn) {
        let k = choose|k: int| 0 <= k < s.len() && is_live_runner(#[trigger] s[k], t, rn);
        let i = lemma_min_live_runner(s, t, rn, k);
        lemma_first_live_runner(s, t, rn, i);
        let s1 = s.update(i, feedback_view(s[i], online, busy));
        lemma_feedback_view_idempotent(s[i], online, busy);
        assert forall|j: int| 0 <= j < i implies !is_live_runner(#[trigger] s1[j], t, rn) by {
            assert(s1[j] == s[j]);
        }
        lemma_first_live_runner(s1, t, rn, i);
        assert(s1.update(i, feedback_view(s1[i], online, busy)) =~= s1);
    }
}

proof fn lemma_feedback_view_idempotent(m: MachineView, online: Option<bool>, busy: bool)
    requires
        (online, busy) == (Some(true), true) || (online, busy) == (None::<bool>, false),
    ensures
        feedback_view(feedback_view(m, online, busy), online, busy) == feedback_view(m, online, busy),
        m.status != Status::Stopped ==> feedback_view(m, online, busy).status != Status::Stopped,
{
}

proof fn lemma_min_live_runner(s: Seq<MachineView>, t: TripletView, rn: Seq<char>, k: int) -> (m: int)
    requires
        0 <= k < s.len(),
        is_live_runner(s[k], t, rn),
    ensures
        0 <= m <= k,
        is_live_runner(s[m], t, rn),
        forall|j: int| 0 <= j < m ==> !is_live_runner(#[trigger] s[j], t, rn),
    decreases k,
{
    if exists|j: int| 0 <= j < k && is_live_runner(#[trigger] s[j], t, rn) {
        let j = choose|j: int| 0 <= j < k && is_live_runner(#[trigger] s[j], t, rn);
        lemma_min_live_runner(s, t, rn, j)
    } else {
        k
    }
}

/// A status report applied twice has the effect of applying it once: the
/// jobs, the pending demand update and the fleet end up the same, and the
/// second report schedules nothing.
pub proof fn lemma_status_feedback_idempotent(
    jobs: Seq<JobView>,
    pending: bool,
    fleet: Seq<MachineView>,
    orm: TripletView,
    job_id: u64,
    run_id: u64,
    status: JobStatus,
    runner_name: Option<Seq<char>>,
)
    requires
        jobs_wf(jobs),
    ensures
        ({
            let (j1, c1) = jobs_after(jobs, orm, job_id, run_id, status);
            let pending1 = pending || c1;
            let f1 = fleet_after(fleet, orm, status, runner_name);
            let (j2, c2) = jobs_after(j1, orm, job_id, run_id, status);
            let pending2 = pending1 || c2;
            let f2 = fleet_after(f1, orm, status, runner_name);
            &&& j2 == j1
            &&& pending2 == pending1
            &&& f2 == f1
            &&& !(!pending1 && c2)
        }),
{
    lemma_jobs_after_idempotent(jobs, orm, job_id, run_id, status);
    lemma_fleet_after_idempotent(fleet, orm, status, runner_name);
}

pub struct ManagerView {
    pub jobs: Seq<JobView>,
    pub update_pending: bool,
}

/// The outstanding jobs, and whether a demand update is already scheduled.
pub struct Manager {
    jobs: Vec<Job>,
    update_pending: bool,
}

impl View for Manager {
    type V = ManagerView;

    closed spec fn view(&self) -> ManagerView {
        ManagerView { jobs: jobs_view(self.jobs@), update_pending: self.update_pending }
    }
}

impl Manager {
    pub open spec fn wf(&self) -> bool {
        jobs_wf(self@.jobs)
    }

    pub fn new() -> (r: Manager)
        ensures
            r.wf(),
            r@.jobs.len() == 0,
            !r@.update_pending,
    {
        let r = Manager { jobs: Vec::new(), update_pending: false };
        assert(r@.jobs =~= Seq::<JobView>::empty());
        r
    }

    fn position(&self, orm: &Triplet, job_id: u64) -> (r: Option<usize>)
        requires
            self.wf(),
        ensures
            r.is_some() == job_position(self@.jobs, orm@, job_id).is_some(),
            r.is_some() ==> r.unwrap() as int == job_position(self@.jobs, orm@, job_id).unwrap(),
            r.is_some() ==> r.unwrap() < self@.jobs.len(),
    {
        let ghost s = self@.jobs;
        let mut i: usize = 0;
        while i < self.jobs.len()
            invariant
                s == self@.jobs,
                s.len() == self.jobs@.len(),
                forall|k: int| 0 <= k < s.len() ==> #[trigger] s[k] == self.jobs@[k]@,
                i <= s.len(),
                forall|k: int| 0 <= k < i ==> !((#[trigger] s[k]).orm == orm@ && s[k].job_id == job_id),
                jobs_wf(s),
            decreases s.len() - i,
        {
            if self.jobs[i].orm().same(orm) && self.jobs[i].job_id() == job_id {
                proof {
                    assert(s[i as int].orm == orm@ && s[i as int].job_id == job_id);
                    let w = choose|w: int|
                        0 <= w < s.len() && (#[trigger] s[w]).orm == orm@ && s[w].job_id == job_id;
                    if w != i {
                        assert(!(s[w].orm == s[i as int].orm && s[w].job_id == s[i as int].job_id));
                    }
                }
                return Some(i);
            }
            i = i + 1;
        }
        None
    }

    /// A status report for job `job_id` of run `run_id`, which asks for machine
    /// type `orm`; `runner_name` is the runner that took it, if known. The
    /// implied runner feedback goes to `machines`; the outstanding jobs change as
    /// `jobs_after` says. Returns whether a demand update must now be
    /// scheduled: the jobs changed and none is pending yet.
    pub fn status_feedback(
        &mut self,
        machines: &mut MachineManager,
        orm: &Triplet,
        job_id: u64,
        run_id: u64,
        status: JobStatus,
        runner_name: Option<&str>,
    ) -> (r: bool)
        requires
            old(self).wf(),
            old(machines).wf(),
        ensures
            final(self).wf(),
            final(machines).wf(),
            final(machines)@.host_ram == old(machines)@.host_ram,
            final(machines)@.machines == fleet_after(
                old(machines)@.machines,
                orm@,
                status,
                opt_view(runner_name),
            ),
            final(self)@.jobs == jobs_after(old(self)@.jobs, orm@, job_id, run_id, status).0,
            final(self)@.update_pending == (old(self)@.update_pending || jobs_after(
                old(self)@.jobs,
                orm@,
                job_id,
                run_id,
                status,
            ).1),
            r == (!old(self)@.update_pending && jobs_after(
                old(self)@.jobs,
                orm@,
                job_id,
                run_id,
                status,
            ).1),
    {
        match runner_name {
            Some(rn) => {
                match status {
                    JobStatus::InProgress => {
                        machines.status_feedback(orm, rn, Some(true), true);
                    },
                    JobStatus::Completed | JobStatus::Failed => {
                        machines.status_feedback(orm, rn, None, false);
                    },
                    _ => {},
                }
            },
            None => {},
        }
        let ghost s = self@.jobs;
        let outstanding = match status {
            JobStatus::Pending | JobStatus::Queued | JobStatus::InProgress => true,
            JobStatus::Completed | JobStatus::Failed => false,
        };
        let changed = match self.position(orm, job_id) {
            None => {
                if outstanding {
                    let new_job = Job::new(orm.duplicate(), job_id, run_id, status);
                    self.jobs.push(new_job);
                    proof {
                        assert(self@.jobs =~= s.push(JobView { orm: orm@, job_id, run_id, status }));
                        let t = self@.jobs;
                        assert forall|a: int, b: int|
                            0 <= a < t.len() && 0 <= b < t.len() && a != b implies !((#[trigger] t[a]).orm
                            == (#[trigger] t[b]).orm && t[a].job_id == t[b].job_id) by {
                            if a < s.len() && b < s.len() {
                                assert(t[a] == s[a] && t[b] == s[b]);
                            } else if a < s.len() {
                                assert(t[a] == s[a]);
                            } else {
                                assert(t[b] == s[b]);
                            }
                        }
                    }
                    true
                } else {
                    false
                }
            },
            Some(i) => {
                if outstanding {
                    let ghost before = self.jobs@;
                    let c = self.jobs[i].update_status(status);
                    proof {
                        assert(self@.jobs =~= s.update(i as int, JobView { status, ..s[i as int] }));
                        let t = self@.jobs;
                        assert forall|a: int, b: int|
                            0 <= a < t.len() && 0 <= b < t.len() && a != b implies !((#[trigger] t[a]).orm
                            == (#[trigger] t[b]).orm && t[a].job_id == t[b].job_id) by {
                            assert(t[a].orm == s[a].orm && t[a].job_id == s[a].job_id);
                            assert(t[b].orm == s[b].orm && t[b].job_id == s[b].job_id);
                        }
                    }
                    c
                } else {
                    self.jobs.swap_remove(i);
                    proof {
                        assert(self@.jobs =~= s.update(i as int, s.last()).drop_last());
                        let t = self@.jobs;
                        assert forall|a: int, b: int|
                            0 <= a < t.len() && 0 <= b < t.len() && a != b implies !((#[trigger] t[a]).orm
                            == (#[trigger] t[b]).orm && t[a].job_id == t[b].job_id) by {
                            let a2 = if a == i { s.len() - 1 } else { a };
                            let b2 = if b == i { s.len() - 1 } else { b };
                            assert(t[a] == s[a2]);
                            assert(t[b] == s[b2]);
                        }
                        assert forall|a: int| 0 <= a < t.len() implies (#[trigger] t[a]).status.outstanding() by {
                            let a2 = if a == i { s.len() - 1 } else { a };
                            assert(t[a] == s[a2]);
                        }
                    }
                    true
                }
            },
        };
        let start = changed && !self.update_pending;
        if changed {
            self.update_pending = true;
        }
        start
    }

    /// The pairs of repository and run that own at least one outstanding job,
    /// each once.
    pub fn runs_of_interest(&self) -> (r: Vec<(OwnerAndRepo, u64)>)
        requires
            self.wf(),
        ensures
            forall|a: int, b: int|
                0 <= a < r@.len() && 0 <= b < r@.len() && a != b ==> !((#[trigger] r@[a]).0@
                    == (#[trigger] r@[b]).0@ && r@[a].1 == r@[b].1),
            forall|oar: (Seq<char>, Seq<char>), run_id: u64|
                #![trigger run_listed(r@, oar, run_id)]
                #![trigger run_has_job(self@.jobs, self@.jobs.len() as int, oar, run_id)]
                run_listed(r@, oar, run_id) <==> run_has_job(
                    self@.jobs,
                    self@.jobs.len() as int,
                    oar,
                    run_id,
                ),
    {
        let ghost s = self@.jobs;
        let mut r: Vec<(OwnerAndRepo, u64)> = Vec::new();
        let mut i: usize = 0;
        while i < self.jobs.len()
            invariant
                s == self@.jobs,
                s.len() == self.jobs@.len(),
                forall|k: int| 0 <= k < s.len() ==> #[trigger] s[k] == self.jobs@[k]@,
                i <= s.len(),
                forall|a: int, b: int|
                    0 <= a < r@.len() && 0 <= b < r@.len() && a != b ==> !((#[trigger] r@[a]).0@
                        == (#[trigger] r@[b]).0@ && r@[a].1 == r@[b].1),
                forall|oar: (Seq<char>, Seq<char>), run_id: u64|
                    #![trigger run_listed(r@, oar, run_id)]
                    #![trigger run_has_job(s, i as int, oar, run_id)]
                    run_listed(r@, oar, run_id) <==> run_has_job(s, i as int, oar, run_id),
            decreases s.len() - i,
        {
            let oar = self.jobs[i].orm().owner_and_repo();
            let run_id = self.jobs[i].run_id();
            let mut k: usize = 0;
            let mut present = false;
            while k < r.len()
                invariant
                    k <= r@.len(),
                    present ==> exists|q: int| 0 <= q < r@.len() && (#[trigger] r@[q]).0@ == oar@ && r@[q].1 == run_id,
                    !present ==> forall|q: int| 0 <= q < k ==> !((#[trigger] r@[q]).0@ == oar@ && r@[q].1 == run_id),
                decreases r@.len() - k,
            {
                if r[k].0.same(&oar) && r[k].1 == run_id {
                    present = true;
                }
                k = k + 1;
            }
            let ghost old_r = r@;
            let ghost oar_v = oar@;
            if !present {
                r.push((oar, run_id));
                proof {
                    assert forall|a: int, b: int|
                        0 <= a < r@.len() && 0 <= b < r@.len() && a != b implies !((#[trigger] r@[a]).0@
                        == (#[trigger] r@[b]).0@ && r@[a].1 == r@[b].1) by {
                        if a < old_r.len() && b < old_r.len() {
                            assert(r@[a] == old_r[a] && r@[b] == old_r[b]);
                        } else if a < old_r.len() {
                            assert(r@[a] == old_r[a]);
                        } else {
                            assert(r@[b] == old_r[b]);
                        }
                    }
                }
            }
            proof {
                assert forall|o: (Seq<char>, Seq<char>), id: u64|
                    #![trigger run_listed(r@, o, id)]
                    #![trigger run_has_job(s, i + 1, o, id)]
                    run_listed(r@, o, id) <==> run_has_job(s, i + 1, o, id) by {
                    if o == oar_v && id == run_id {
                        assert(s[i as int].orm.0 == oar_v.0 && s[i as int].orm.1 == oar_v.1);
                        if !present {
                            assert(r@[old_r.len() as int].0@ == o);
                        } else {
                            let q = choose|q: int| 0 <= q < old_r.len() && (#[trigger] old_r[q]).0@ == o && old_r[q].1 == id;
                            assert(r@[q] == old_r[q]);
                        }
                    } else {
                        if run_listed(r@, o, id) {
                            let q = choose|q: int| 0 <= q < r@.len() && (#[trigger] r@[q]).0@ == o && r@[q].1 == id;
                            if q < old_r.len() {
                                assert(old_r[q] == r@[q]);
                                assert(run_listed(old_r, o, id));
                                assert(run_has_job(s, i as int, o, id));
                                let j = choose|j: int| 0 <= j < i && ((#[trigger] s[j]).orm.0, s[j].orm.1) == o && s[j].run_id == id;
                                assert(0 <= j < i + 1);
                            }
                        }
                        if run_has_job(s, i + 1, o, id) {
                            let j = choose|j: int| 0 <= j < i + 1 && ((#[trigger] s[j]).orm.0, s[j].orm.1) == o && s[j].run_id == id;
                            assert(j < i);
                            assert(run_has_job(s, i as int, o, id));
                            assert(run_listed(old_r, o, id));
                            let q = choose|q: int| 0 <= q < old_r.len() && (#[trigger] old_r[q]).0@ == o && old_r[q].1 == id;
                            assert(r@[q] == old_r[q]);
                        }
                    }
                }
            }
            i = i + 1;
        }
        r
    }

    /// The machine types that the queued jobs ask for, one per job. Jobs in
    /// progress already have their machine.
    pub fn demand(&self) -> (r: Vec<Triplet>)
        ensures
            triplets_view(r@) == queued_demand(self@.jobs),
    {
        let ghost s = self@.jobs;
        let mut r: Vec<Triplet> = Vec::new();
        let mut i: usize = 0;
        assert(triplets_view(r@) =~= queued_demand(s.take(0)));
        while i < self.jobs.len()
            invariant
                s == self@.jobs,
                s.len() == self.jobs@.len(),
                forall|k: int| 0 <= k < s.len() ==> #[trigger] s[k] == self.jobs@[k]@,
                i <= s.len(),
                triplets_view(r@) == queued_demand(s.take(i as int)),
            decreases s.len() - i,
        {
            assert(s.take(i + 1).drop_last() =~= s.take(i as int));
            assert(s.take(i + 1).last() == s[i as int]);
            if self.jobs[i].is_queued() {
                let ghost prev = r@;
                r.push(self.jobs[i].orm().duplicate());
                assert(triplets_view(r@) =~= triplets_view(prev).push(s[i as int].orm));
            }
            i = i + 1;
        }
        assert(s.take(i as int) =~= s);
        r
    }

    /// The scheduled demand update: tells `machines` how many machines of each
    /// type the queued jobs need (see `manager::Manager::update_demand`).
    pub fn update_demand(&mut self, machines: &mut MachineManager, cfg: &ConfigFile) -> (r: Vec<Killed>)
        requires
            old(self).wf(),
            old(machines).wf(),
        ensures
            forall|k: int|
                0 <= k < r@.len() ==> crate::manager::reports_surplus(
                    old(machines)@.machines,
                    queued_demand(old(self)@.jobs),
                    #[trigger] r@[k],
                ),
            forall|i: int|
                0 <= i < old(machines)@.machines.len() && crate::manager::surplus(
                    old(machines)@.machines,
                    queued_demand(old(self)@.jobs),
                    i,
                ) ==> crate::manager::reported(r@, #[trigger] old(machines)@.machines[i]),
            final(self).wf(),
            final(self)@.jobs == old(self)@.jobs,
            !final(self)@.update_pending,
            final(machines).wf(),
            final(machines)@.host_ram == old(machines)@.host_ram,
            final(machines)@.machines.len() >= old(machines)@.machines.len(),
            final(machines)@.machines.take(old(machines)@.machines.len() as int)
                == crate::manager::reduced(old(machines)@.machines, queued_demand(old(self)@.jobs)),
            forall|i: int|
                0 <= i < final(machines)@.machines.len() && crate::manager::count_of(
                    queued_demand(old(self)@.jobs),
                    (#[trigger] final(machines)@.machines[i]).triplet,
                ) == 0 ==> !final(machines)@.machines[i].status.available(),
            forall|i: int|
                old(machines)@.machines.len() <= i < final(machines)@.machines.len()
                    ==> crate::manager::fresh_machine(#[trigger] final(machines)@.machines[i], *cfg),
            forall|t: TripletView|
                #[trigger] crate::manager::count_of(
                    crate::manager::triplets_of(
                        final(machines)@.machines.skip(old(machines)@.machines.len() as int),
                    ),
                    t,
                ) <= crate::manager::shortfall(
                    crate::manager::reduced(old(machines)@.machines, queued_demand(old(self)@.jobs)),
                    queued_demand(old(self)@.jobs),
                    t,
                ),
            old(machines)@.machines.len() == 0 && queued_demand(old(self)@.jobs).len() == 1
                && cfg.machine_config_spec(queued_demand(old(self)@.jobs)[0]).is_some()
                ==> final(machines)@.machines.len() == 1 && final(machines)@.machines[0].triplet
                == queued_demand(old(self)@.jobs)[0],
    {
        self.update_pending = false;
        let requested = self.demand();
        proof {
            if requested@.len() > 0 {
                assert(triplets_view(requested@)[0] == requested@[0]@);
            }
        }
        machines.update_demand(&requested, cfg)
    }
}

} // verus!
