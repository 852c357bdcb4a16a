use forrest::auth::Auth;
use forrest::config::{ConfigFile, GitHubConfig, HostConfig, MachineConfig, Repository, SeedBasePolicy, SetupTemplate};
use forrest::config_fs::substitute;
use forrest::jobs::{JobStatus, Manager as JobManager};
use forrest::machine::{JitConfig, Status};
use forrest::manager::Manager as MachineManager;
use forrest::size_in_bytes::SizeInBytes;
use forrest::triplet::Triplet;
use forrest::webhook::{check_signature, handle_webhook, WebhookEvent, WorkflowJob, WorkflowJobEvent};
use hmac::Mac;

const GIB: u64 = 1024 * 1024 * 1024;

fn machine_config(ram: u64) -> MachineConfig {
    MachineConfig {
        base_machine: None,
        base_image: None,
        setup_template: SetupTemplate { path: "/t".to_string(), parameters: vec![] },
        use_base: SeedBasePolicy::Never,
        cpus: 2,
        disk: SizeInBytes::from_bytes(GIB),
        ram: SizeInBytes::from_bytes(ram),
        shared: vec![],
        artifacts: vec![],
    }
}

fn config() -> ConfigFile {
    ConfigFile {
        github: GitHubConfig {
            app_id: 1,
            jwt_key_file: "k".to_string(),
            webhook_secret: "hush".to_string(),
            polling_interval: 60,
        },
        host: HostConfig { base_dir: "/b".to_string(), ram: SizeInBytes::from_bytes(20 * GIB) },
        repositories: vec![(
            "acme".to_string(),
            vec![(
                "web".to_string(),
                Repository {
                    persistence_token: None,
                    machines: vec![
                        ("big".to_string(), machine_config(16 * GIB)),
                        ("small".to_string(), machine_config(8 * GIB)),
                    ],
                },
            )],
        )],
    }
}

fn jit(id: u64) -> JitConfig {
    JitConfig { encoded_jit_config: "blob".to_string(), runner_id: id }
}

/// Registers every machine and starts all that fit.
fn schedule(machines: &mut MachineManager) {
    let order = machines.reschedule_order();
    for &i in order.iter() {
        machines.reschedule_step(i);
        machines.registration_finished(i, Some(jit(i as u64)));
    }
    for &i in order.iter() {
        let _ = machines.start_machine(i, "/run".to_string(), 0);
    }
}

#[test]
fn ram_budget_is_never_exceeded() {
    let cfg = config();
    let mut machines = MachineManager::new(20 * GIB);
    let big = Triplet::new("acme", "web", "big");
    let small = Triplet::new("acme", "web", "small");
    machines.update_demand(&vec![small.duplicate(), big.duplicate(), small.duplicate()], &cfg);
    assert_eq!(machines.len(), 3);
    let order = machines.reschedule_order();
    // The machine needing the most RAM comes first.
    assert!(machines.machine(order[0]).triplet().same(&big));
    schedule(&mut machines);
    let starting = (0..machines.len()).filter(|&i| machines.machine(i).status() == Status::Starting).count();
    assert_eq!(starting, 1);
    assert_eq!(machines.ram_available(), 4 * GIB);
    let consumed: u64 = (0..machines.len()).map(|i| machines.machine(i).ram_consumed()).sum();
    assert!(consumed <= 20 * GIB);
}

#[test]
fn registered_machines_hold_their_jit_config() {
    let cfg = config();
    let mut machines = MachineManager::new(20 * GIB);
    machines.update_demand(&vec![Triplet::new("acme", "web", "small")], &cfg);
    machines.reschedule_step(0);
    assert_eq!(machines.machine(0).runner_id(), None);
    machines.registration_finished(0, Some(jit(42)));
    assert_eq!(machines.machine(0).status(), Status::Registered);
    assert_eq!(machines.machine(0).runner_id(), Some(42));
    assert_eq!(machines.machine(0).encoded_jit_config(), Some("blob".to_string()));
}

#[test]
fn stopped_machines_stay_stopped() {
    let cfg = config();
    let mut machines = MachineManager::new(20 * GIB);
    let small = Triplet::new("acme", "web", "small");
    machines.update_demand(&vec![small.duplicate()], &cfg);
    machines.reschedule_step(0);
    let killed = machines.kill_machine(0).unwrap();
    assert_eq!(killed.runner_id, None);
    machines.registration_finished(0, Some(jit(1)));
    assert_eq!(machines.machine(0).status(), Status::Stopped);
    let runner = machines.machine(0).runner_name().to_string();
    assert!(!machines.status_feedback(&small, &runner, Some(true), true));
    assert_eq!(machines.machine(0).status(), Status::Stopped);
    assert!(machines.kill_machine(0).is_none());
    assert!(!machines.start_machine(0, "/run".to_string(), 0));
    assert_eq!(machines.machine(0).status(), Status::Stopped);
}

fn sign(secret: &str, body: &[u8]) -> String {
    let mut mac = <hmac::Hmac<sha2::Sha256> as Mac>::new_from_slice(secret.as_bytes()).unwrap();
    mac.update(body);
    format!("sha256={}", hex::encode(mac.finalize().into_bytes()))
}

fn queued_event() -> WebhookEvent {
    WebhookEvent::WorkflowJob(WorkflowJobEvent {
        owner: Some("acme".to_string()),
        repository: Some("web".to_string()),
        installation_id: Some(3),
        job: Some(WorkflowJob {
            id: 1,
            run_id: 2,
            status: JobStatus::Queued,
            labels: vec!["self-hosted".to_string(), "forrest".to_string(), "small".to_string()],
            runner_name: None,
        }),
    })
}

#[test]
fn webhook_signature_is_checked() {
    let body = b"payload".to_vec();
    let good = sign("hush", &body);
    assert!(check_signature(&good, "hush", &body));
    assert!(check_signature(&good.to_uppercase().replace("SHA256=", "sha256="), "hush", &body));
    assert!(!check_signature(&good, "other", &body));
    assert!(!check_signature(&good, "hush", &b"payload!".to_vec()));
    assert!(!check_signature(&good[7..], "hush", &body));
    assert!(!check_signature("sha256=zz", "hush", &body));
    assert!(!check_signature(&good[..good.len() - 2], "hush", &body));

    let cfg = config();
    let mut jobs = JobManager::new();
    let mut machines = MachineManager::new(20 * GIB);
    let bad = sign("wrong", &body);
    let out = handle_webhook(&cfg, &mut jobs, &mut machines, Some(bad.as_str()), &body, queued_event());
    assert_eq!(out.status, 400);
    assert!(!out.schedule_update);
    assert!(out.installation.is_none());
    assert!(jobs.demand().is_empty());
    let out = handle_webhook(&cfg, &mut jobs, &mut machines, None, &body, queued_event());
    assert_eq!(out.status, 400);
    assert!(jobs.demand().is_empty());
    let out = handle_webhook(&cfg, &mut jobs, &mut machines, Some(good.as_str()), &body, queued_event());
    assert_eq!(out.status, 204);
    assert_eq!(jobs.demand().len(), 1);
}

#[test]
fn no_demand_leaves_no_available_machine() {
    let cfg = config();
    let mut machines = MachineManager::new(20 * GIB);
    let small = Triplet::new("acme", "web", "small");
    let big = Triplet::new("acme", "web", "big");
    machines.update_demand(&vec![small.duplicate(), small.duplicate(), big.duplicate()], &cfg);
    schedule(&mut machines);
    machines.update_demand(&vec![big.duplicate()], &cfg);
    for i in 0..machines.len() {
        let m = machines.machine(i);
        if m.triplet().same(&small) {
            assert!(!m.status().is_available());
        }
    }
    assert_eq!(machines.available_of(&small), 0);
    assert_eq!(machines.available_of(&big), 1);
}

#[test]
fn run_tokens_are_unique() {
    let cfg = config();
    let mut machines = MachineManager::new(20 * GIB);
    let small = Triplet::new("acme", "web", "small");
    let requested: Vec<Triplet> = (0..50).map(|_| small.duplicate()).collect();
    machines.update_demand(&requested, &cfg);
    assert_eq!(machines.len(), 50);
    let mut tokens: Vec<String> = (0..50).map(|i| machines.machine(i).run_token().to_string()).collect();
    assert!(tokens.iter().all(|t| t.len() == 16 && t.chars().all(|c| c.is_ascii_alphanumeric())));
    tokens.sort();
    tokens.dedup();
    assert_eq!(tokens.len(), 50);
    assert_eq!(machines.machine_by_run_token(machines.machine(7).run_token()), Some(7));
    assert_eq!(machines.machine_by_run_token("nope"), None);
}

#[test]
fn job_feedback_twice_is_feedback_once() {
    let cfg = config();
    let mut machines = MachineManager::new(20 * GIB);
    let mut jobs = JobManager::new();
    let small = Triplet::new("acme", "web", "small");
    assert!(jobs.status_feedback(&mut machines, &small, 1, 10, JobStatus::Queued, None));
    assert!(!jobs.status_feedback(&mut machines, &small, 1, 10, JobStatus::Queued, None));
    jobs.update_demand(&mut machines, &cfg);
    schedule(&mut machines);
    let runner = machines.machine(0).runner_name().to_string();
    machines.status_feedback(&small, &runner, Some(true), false);
    assert_eq!(machines.machine(0).status(), Status::Waiting);

    jobs.status_feedback(&mut machines, &small, 1, 10, JobStatus::InProgress, Some(&runner));
    assert_eq!(machines.machine(0).status(), Status::Running);
    assert!(!jobs.status_feedback(&mut machines, &small, 1, 10, JobStatus::InProgress, Some(&runner)));
    assert_eq!(machines.machine(0).status(), Status::Running);
    assert_eq!(jobs.demand().len(), 0);
    assert_eq!(jobs.runs_of_interest().len(), 1);

    // The job was already reported in progress, so a pending update may exist;
    // once it ran, a completion schedules one again.
    jobs.update_demand(&mut machines, &cfg);
    assert!(jobs.status_feedback(&mut machines, &small, 1, 10, JobStatus::Completed, Some(&runner)));
    assert_eq!(machines.machine(0).status(), Status::Stopping);
    assert_eq!(machines.machine(0).runner_id(), None);
    assert!(!jobs.status_feedback(&mut machines, &small, 1, 10, JobStatus::Completed, Some(&runner)));
    assert_eq!(machines.machine(0).status(), Status::Stopping);
    assert_eq!(jobs.runs_of_interest().len(), 0);
}

#[test]
fn update_user_twice_fetches_once() {
    let mut auth: Auth<u32> = Auth::new();
    assert!(auth.needs_update("acme", 5));
    auth.update_user("acme", 5, 1);
    assert!(!auth.needs_update("acme", 5));
    assert!(auth.needs_update("acme", 6));
    assert!(auth.needs_update("other", 5));
    assert_eq!(auth.user("acme"), Some(&1));
    auth.update_user("acme", 6, 2);
    assert_eq!(auth.installation("acme"), Some(6));
    assert_eq!(auth.user("acme"), Some(&2));
    assert_eq!(auth.user("other"), None);
}

#[test]
fn config_fs_content_is_substituted() {
    let subs = vec![
        ("REPO_OWNER".to_string(), "acme".to_string()),
        ("JITCONFIG".to_string(), "abc<RUN_TOKEN>".to_string()),
        ("RUN_TOKEN".to_string(), "tok".to_string()),
    ];
    assert_eq!(
        substitute("owner=<REPO_OWNER> jit=<JITCONFIG> <UNKNOWN> <REPO_OWNER>", &subs),
        "owner=acme jit=abctok <UNKNOWN> acme"
    );
    assert_eq!(substitute("", &subs), "");
    assert_eq!(substitute("<<REPO_OWNER>>", &subs), "<acme>");
}
