use forrest::config::{
    Artifact as ArtifactConfig, ConfigFile, GitHubConfig, HostConfig, MachineConfig, Repository,
    SeedBasePolicy, SetupTemplate,
};
use forrest::jobs::{JobStatus, Manager as JobManager};
use forrest::machine::{JitConfig, Status};
use forrest::manager::{Manager as MachineManager, Reschedule};
use forrest::run_dir::{
    choose_image, image_plan, ImagePlan, PersistDecision, RunDir,
};
use forrest::size_in_bytes::SizeInBytes;
use forrest::triplet::Triplet;
use forrest::webhook::{handle_webhook, WebhookEvent, WorkflowJob, WorkflowJobEvent};
use hmac::Mac;

const GIB: u64 = 1024 * 1024 * 1024;

fn machine_config(ram: u64, base_machine: Option<Triplet>, artifacts: Vec<ArtifactConfig>) -> MachineConfig {
    MachineConfig {
        base_machine,
        base_image: Some("/srv/seed.img".to_string()),
        setup_template: SetupTemplate { path: "/srv/template".to_string(), parameters: vec![] },
        use_base: SeedBasePolicy::IfNewer,
        cpus: 4,
        disk: SizeInBytes::from_bytes(20 * GIB),
        ram: SizeInBytes::from_bytes(ram),
        shared: vec![],
        artifacts,
    }
}

fn config(machines: Vec<(String, MachineConfig)>, token: Option<&str>) -> ConfigFile {
    ConfigFile {
        github: GitHubConfig {
            app_id: 1,
            jwt_key_file: "key.pem".to_string(),
            webhook_secret: "s3cr3t".to_string(),
            polling_interval: 900,
        },
        host: HostConfig { base_dir: "/srv/forrest".to_string(), ram: SizeInBytes::from_bytes(32 * GIB) },
        repositories: vec![(
            "acme".to_string(),
            vec![(
                "web".to_string(),
                Repository { persistence_token: token.map(|t| t.to_string()), machines },
            )],
        )],
    }
}

fn small_config() -> ConfigFile {
    config(vec![("small".to_string(), machine_config(8 * GIB, None, vec![]))], None)
}

fn labels(machine: &str) -> Vec<String> {
    vec!["self-hosted".to_string(), "forrest".to_string(), machine.to_string()]
}

fn sign(secret: &str, body: &[u8]) -> String {
    let mut mac = <hmac::Hmac<sha2::Sha256> as Mac>::new_from_slice(secret.as_bytes()).unwrap();
    mac.update(body);
    format!("sha256={}", hex::encode(mac.finalize().into_bytes()))
}

fn job_event(job_id: u64, status: JobStatus) -> WebhookEvent {
    WebhookEvent::WorkflowJob(WorkflowJobEvent {
        owner: Some("acme".to_string()),
        repository: Some("web".to_string()),
        installation_id: Some(7),
        job: Some(WorkflowJob { id: job_id, run_id: 9, status, labels: labels("small"), runner_name: None }),
    })
}

fn jit(id: u64) -> JitConfig {
    JitConfig { encoded_jit_config: format!("jit-{id}"), runner_id: id }
}

#[test]
fn cold_start_one_queued_job() {
    let cfg = small_config();
    let mut jobs = JobManager::new();
    let mut machines = MachineManager::new(cfg.host.ram.bytes());
    let body = b"{\"action\":\"queued\"}".to_vec();
    let signature = sign("s3cr3t", &body);
    let out = handle_webhook(&cfg, &mut jobs, &mut machines, Some(signature.as_str()), &body, job_event(100, JobStatus::Queued));
    assert_eq!(out.status, 204);
    assert!(out.schedule_update);
    assert_eq!(out.installation, Some(("acme".to_string(), 7)));
    assert_eq!(machines.len(), 0);

    // The debounce window has passed.
    jobs.update_demand(&mut machines, &cfg);
    assert_eq!(machines.len(), 1);
    let small = Triplet::new("acme", "web", "small");
    assert!(machines.machine(0).triplet().same(&small));
    assert_eq!(machines.machine(0).status(), Status::Requested);
    assert!(machines.machine(0).runner_name().starts_with("forrest-small-"));
    assert_eq!(machines.machine(0).runner_name().len(), "forrest-small-".len() + 16);
    assert_eq!(machines.machine(0).run_token().len(), 16);

    assert_eq!(machines.reschedule_step(0), Reschedule::Register);
    assert_eq!(machines.machine(0).status(), Status::Registering);
    machines.registration_finished(0, Some(jit(1)));
    assert_eq!(machines.machine(0).status(), Status::Registered);
    assert_eq!(machines.reschedule_step(0), Reschedule::Prepare);
    assert!(machines.start_machine(0, "/srv/forrest/runs/acme/web/small/x".to_string(), 0));
    assert_eq!(machines.machine(0).status(), Status::Starting);
    assert_eq!(machines.ram_available(), 24 * GIB);
}

#[test]
fn cancel_before_start() {
    let cfg = small_config();
    let mut jobs = JobManager::new();
    let mut machines = MachineManager::new(cfg.host.ram.bytes());
    let small = Triplet::new("acme", "web", "small");
    assert!(jobs.status_feedback(&mut machines, &small, 100, 9, JobStatus::Queued, None));
    assert!(!jobs.status_feedback(&mut machines, &small, 101, 9, JobStatus::Queued, None));
    jobs.update_demand(&mut machines, &cfg);
    assert_eq!(machines.len(), 2);
    // The first machine begins registering; the second is still only requested.
    assert_eq!(machines.reschedule_step(0), Reschedule::Register);

    assert!(jobs.status_feedback(&mut machines, &small, 100, 9, JobStatus::Completed, None));
    let killed = jobs.update_demand(&mut machines, &cfg);
    assert_eq!(killed.len(), 1);
    assert_eq!(machines.len(), 2);
    assert_eq!(machines.machine(0).status(), Status::Registering);
    assert_eq!(machines.machine(1).status(), Status::Stopped);
    assert_eq!(killed[0].runner_name, machines.machine(1).runner_name());
    machines.registration_finished(0, Some(jit(5)));
    assert_eq!(machines.machine(0).status(), Status::Registered);
}

#[test]
fn boot_timeout() {
    let cfg = small_config();
    let mut machines = MachineManager::new(32 * GIB);
    let small = Triplet::new("acme", "web", "small");
    let mut jobs = JobManager::new();
    jobs.status_feedback(&mut machines, &small, 100, 9, JobStatus::Queued, None);
    jobs.update_demand(&mut machines, &cfg);
    machines.reschedule_step(0);
    machines.registration_finished(0, Some(jit(3)));
    assert!(machines.start_machine(0, "/run".to_string(), 0));
    // Fifteen minutes are not yet too long.
    assert_eq!(machines.expire_starting(900, 900).len(), 0);
    let killed = machines.expire_starting(901, 900);
    assert_eq!(killed.len(), 1);
    assert_eq!(killed[0].runner_id, Some(3));
    assert_eq!(machines.machine(0).status(), Status::Stopped);
    let image = killed[0].triplet.machine_image_path(&cfg.host.base_dir);
    let broken = killed[0].triplet.broken_image_path(&cfg.host.base_dir);
    assert_eq!(image, "/srv/forrest/machines/acme/web/small.img");
    assert_eq!(broken, "/srv/forrest/machines/acme/web/small.img.broken");
    // With the machine image moved away, the base image is used.
    assert_eq!(
        choose_image(SeedBasePolicy::IfNewer, "/srv/seed.img", &image, Some(10), None),
        Some("/srv/seed.img".to_string())
    );
}

#[test]
fn base_lineage_gating() {
    let a = Triplet::new("acme", "web", "a");
    let b = Triplet::new("acme", "web", "b");
    let cfg = config(
        vec![
            ("a".to_string(), machine_config(8 * GIB, Some(b.duplicate()), vec![])),
            ("b".to_string(), machine_config(8 * GIB, None, vec![])),
        ],
        None,
    );
    let mut machines = MachineManager::new(32 * GIB);
    machines.update_demand(&vec![b.duplicate(), a.duplicate()], &cfg);
    assert_eq!(machines.len(), 2);
    assert!(machines.machine(0).triplet().same(&b));
    machines.reschedule_step(0);
    machines.registration_finished(0, Some(jit(1)));
    assert!(machines.start_machine(0, "/run/b".to_string(), 0));
    machines.reschedule_step(1);
    machines.registration_finished(1, Some(jit(2)));
    let mc_a = cfg.machine_config(&a).unwrap();
    assert!(matches!(image_plan(&machines, &a, mc_a, "/srv/forrest"), ImagePlan::NotReady));
    assert_eq!(machines.machine(1).status(), Status::Registered);

    machines.kill_machine(0);
    machines.prune();
    assert_eq!(machines.len(), 1);
    match image_plan(&machines, &a, mc_a, "/srv/forrest") {
        ImagePlan::Candidates { base, machine, policy } => {
            assert_eq!(base, "/srv/forrest/machines/acme/web/b.img");
            assert_eq!(machine, "/srv/forrest/machines/acme/web/a.img");
            assert_eq!(policy, SeedBasePolicy::IfNewer);
            assert_eq!(choose_image(policy, &base, &machine, Some(5), None), Some(base.clone()));
        }
        ImagePlan::NotReady => panic!("the base machine has stopped"),
    }
}

#[test]
fn persist_handshake() {
    let small = Triplet::new("acme", "web", "small");
    let run_dir = RunDir::new(&small, "forrest-small-abc", "/srv/forrest", Some("t0p-s3cret".to_string()));
    assert_eq!(run_dir.path(), "/srv/forrest/runs/acme/web/small/forrest-small-abc");
    assert_eq!(run_dir.disk(), "/srv/forrest/runs/acme/web/small/forrest-small-abc/disk.img");
    assert_eq!(run_dir.machine_image(), "/srv/forrest/machines/acme/web/small.img");
    assert_eq!(run_dir.maybe_persist(Some(&b"t0p-s3cret".to_vec())), PersistDecision::Persist);
    assert_eq!(run_dir.maybe_persist(Some(&b"t0p-s3cre".to_vec())), PersistDecision::Mismatch);
    assert_eq!(run_dir.maybe_persist(Some(&b"wrong".to_vec())), PersistDecision::Mismatch);
    assert_eq!(run_dir.maybe_persist(None), PersistDecision::NoFile);
    let untokened = RunDir::new(&small, "r", "/srv/forrest", None);
    assert_eq!(untokened.maybe_persist(Some(&b"t0p-s3cret".to_vec())), PersistDecision::NoToken);
}

#[test]
fn artifact_quota() {
    let logs = ArtifactConfig {
        name: "logs".to_string(),
        path: "/srv/artifacts/<RUNNER_NAME>".to_string(),
        url: "https://example.com/<RUNNER_NAME>".to_string(),
        quota: SizeInBytes::parse("1M").unwrap(),
        token: None,
    };
    let cfg = config(vec![("small".to_string(), machine_config(8 * GIB, None, vec![logs]))], None);
    let small = Triplet::new("acme", "web", "small");
    let mut machines = MachineManager::new(32 * GIB);
    machines.update_demand(&vec![small], &cfg);
    let token = machines.machine(0).run_token().to_string();
    let handler = forrest::artifacts::ArtifactsHandler::new();
    let auth = format!("Bearer {token}");
    let plan = handler.plan(&machines, true, &auth, "/artifact/logs/build/out.txt").ok().unwrap();
    assert_eq!(plan.machine, 0);
    let runner = machines.machine(0).runner_name().to_string();
    assert_eq!(plan.file_path(), format!("/srv/artifacts/{runner}/build/out.txt"));
    assert_eq!(plan.content_location(), format!("https://example.com/{runner}/build/out.txt"));

    assert!(machines.consume_quota(0, &plan.artifact, 700 * 1024));
    assert!(!machines.consume_quota(0, &plan.artifact, 400 * 1024));
    // What was left (324 KiB) is used up.
    assert!(!machines.consume_quota(0, &plan.artifact, 1));
    assert!(machines.consume_quota(0, &plan.artifact, 0));
}
