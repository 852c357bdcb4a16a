use forrest::config::Artifact as ArtifactConfig;
use forrest::run_dir::{disk_target, RunDir};
use forrest::config::{
    ConfigFile, ExposedDirectory, GitHubConfig, HostConfig, MachineConfig, Repository, SeedBasePolicy,
    SetupTemplate,
};
use forrest::machine::{JitConfig, Status};
use forrest::manager::{Manager as MachineManager, RunnerVerdict};
use forrest::poll::{new_runs, runs_of};
use forrest::qemu::{decimal_string, qemu_args};
use forrest::size_in_bytes::SizeInBytes;
use forrest::triplet::{OwnerAndRepo, Triplet};

const GIB: u64 = 1024 * 1024 * 1024;

fn machine_config() -> MachineConfig {
    MachineConfig {
        base_machine: None,
        base_image: None,
        setup_template: SetupTemplate { path: "/t".to_string(), parameters: vec![] },
        use_base: SeedBasePolicy::IfNewer,
        cpus: 3,
        disk: SizeInBytes::from_bytes(GIB),
        ram: SizeInBytes::from_bytes(2 * GIB),
        shared: vec![
            ExposedDirectory { path: "/srv/cache".to_string(), tag: "cache".to_string(), writable: true },
            ExposedDirectory { path: "/srv/src".to_string(), tag: "src".to_string(), writable: false },
        ],
        artifacts: vec![],
    }
}

fn config() -> ConfigFile {
    ConfigFile {
        github: GitHubConfig {
            app_id: 1,
            jwt_key_file: "k".to_string(),
            webhook_secret: "s".to_string(),
            polling_interval: 60,
        },
        host: HostConfig { base_dir: "/b".to_string(), ram: SizeInBytes::from_bytes(8 * GIB) },
        repositories: vec![(
            "acme".to_string(),
            vec![(
                "web".to_string(),
                Repository { persistence_token: None, machines: vec![("small".to_string(), machine_config())] },
            )],
        )],
    }
}

fn labels() -> Vec<String> {
    vec!["self-hosted".to_string(), "forrest".to_string(), "small".to_string()]
}

#[test]
fn janitor_reconciles_runners() {
    let cfg = config();
    let mut machines = MachineManager::new(8 * GIB);
    let small = Triplet::new("acme", "web", "small");
    machines.update_demand(&vec![small.duplicate()], &cfg);
    machines.reschedule_step(0);
    machines.registration_finished(0, Some(JitConfig { encoded_jit_config: "j".to_string(), runner_id: 4 }));
    assert!(machines.start_machine(0, "/run".to_string(), 100));
    let runner = machines.machine(0).runner_name().to_string();
    let oar = OwnerAndRepo::new("acme", "web");

    assert_eq!(machines.reconcile_runner(&oar, "other-runner", &labels(), "offline", false), RunnerVerdict::Ignored);
    assert_eq!(machines.reconcile_runner(&oar, "forrest-x", &vec!["linux".to_string()], "offline", false), RunnerVerdict::Ignored);
    assert_eq!(machines.reconcile_runner(&oar, "forrest-x", &labels(), "rebooting", false), RunnerVerdict::Ignored);
    assert_eq!(machines.reconcile_runner(&oar, "forrest-x", &labels(), "offline", false), RunnerVerdict::Orphan);
    assert_eq!(machines.reconcile_runner(&oar, "forrest-x", &labels(), "online", false), RunnerVerdict::Unknown);
    assert_eq!(machines.reconcile_runner(&oar, "forrest-x", &labels(), "offline", true), RunnerVerdict::Unknown);

    assert_eq!(machines.reconcile_runner(&oar, &runner, &labels(), "online", false), RunnerVerdict::Known);
    assert_eq!(machines.machine(0).status(), Status::Waiting);
    assert_eq!(machines.reconcile_runner(&oar, &runner, &labels(), "online", true), RunnerVerdict::Known);
    assert_eq!(machines.machine(0).status(), Status::Running);
    assert_eq!(machines.reconcile_runner(&oar, &runner, &labels(), "offline", false), RunnerVerdict::Known);
    assert_eq!(machines.machine(0).status(), Status::Stopping);
    assert_eq!(machines.machine(0).runner_id(), None);
    // Still holding its RAM until the guest exits.
    assert_eq!(machines.ram_available(), 6 * GIB);
    let killed = machines.kill_machine(0).unwrap();
    assert_eq!(killed.runner_id, None);
    assert_eq!(machines.ram_available(), 8 * GIB);
    machines.prune();
    assert_eq!(machines.len(), 0);
    assert_eq!(machines.reconcile_runner(&oar, &runner, &labels(), "offline", false), RunnerVerdict::Orphan);
}

#[test]
fn starting_machines_report_their_duration() {
    let cfg = config();
    let mut machines = MachineManager::new(8 * GIB);
    machines.update_demand(&vec![Triplet::new("acme", "web", "small")], &cfg);
    assert_eq!(machines.machine(0).starting_duration(50), None);
    machines.reschedule_step(0);
    machines.registration_finished(0, Some(JitConfig { encoded_jit_config: "j".to_string(), runner_id: 4 }));
    assert!(machines.start_machine(0, "/run".to_string(), 100));
    assert_eq!(machines.machine(0).starting_duration(160), Some(60));
    assert_eq!(machines.machine(0).starting_duration(90), Some(0));
    assert_eq!(machines.machine(0).run_dir(), Some(&"/run".to_string()));
    let killed = machines.kill_machine(0).unwrap();
    assert_eq!(killed.runner_id, Some(4));
    machines.runner_deregistered(0);
    assert_eq!(machines.machine(0).runner_id(), None);
}

#[test]
fn poll_walk_stops_at_known_or_old_runs() {
    let runs = vec![(30, 1000), (29, 990), (28, 980), (27, 10)];
    assert_eq!(new_runs(&runs, None, 1000, 100), (vec![30, 29, 28], true));
    assert_eq!(new_runs(&runs, Some(29), 1000, 100), (vec![30], true));
    assert_eq!(new_runs(&runs, None, 1000, 10000), (vec![30, 29, 28, 27], false));
    assert_eq!(new_runs(&vec![], None, 1000, 100), (vec![], true));

    let interest = vec![
        (OwnerAndRepo::new("acme", "web"), 1),
        (OwnerAndRepo::new("acme", "api"), 2),
        (OwnerAndRepo::new("acme", "web"), 3),
    ];
    assert_eq!(runs_of(&interest, &OwnerAndRepo::new("acme", "web")), vec![1, 3]);
    assert_eq!(runs_of(&interest, &OwnerAndRepo::new("other", "web")), Vec::<u64>::new());
}

#[test]
fn emulator_command_line() {
    assert_eq!(decimal_string(0), "0");
    assert_eq!(decimal_string(2048), "2048");
    assert_eq!(decimal_string(u64::MAX), u64::MAX.to_string());
    let args = qemu_args(&machine_config());
    assert_eq!(&args[..4], &["-m", "2048", "-smp", "3"]);
    assert_eq!(args[4], "-enable-kvm");
    assert_eq!(args.len(), 4 + 31 + 4);
    assert_eq!(args[35], "-virtfs");
    assert_eq!(args[36], "local,security_model=none,mount_tag=cache,readonly=off,path=/srv/cache");
    assert_eq!(args[38], "local,security_model=none,mount_tag=src,readonly=on,path=/srv/src");
    assert!(args.contains(&"file,id=bootlog,path=log.txt".to_string()));
}

#[test]
fn machines_are_added_for_configured_types_with_free_tokens() {
    let cfg = config();
    let mut machines = MachineManager::new(8 * GIB);
    let small = Triplet::new("acme", "web", "small");
    let unknown = Triplet::new("acme", "web", "huge");
    let needed = vec![small.duplicate(), unknown.duplicate(), small.duplicate(), small.duplicate()];
    let drawn = vec![
        ("aaaaaaaaaaaaaaaa".to_string(), "tok1".to_string()),
        ("bbbbbbbbbbbbbbbb".to_string(), "tok2".to_string()),
        ("cccccccccccccccc".to_string(), "tok1".to_string()),
        ("dddddddddddddddd".to_string(), "tok3".to_string()),
    ];
    machines.add_machines(&needed, &cfg, &drawn);
    // The unconfigured type and the colliding token are refused.
    assert_eq!(machines.len(), 2);
    assert_eq!(machines.machine(0).run_token(), "tok1");
    assert_eq!(machines.machine(0).runner_name(), "forrest-small-aaaaaaaaaaaaaaaa");
    assert_eq!(machines.machine(1).run_token(), "tok3");
    assert_eq!(machines.machine(1).runner_name(), "forrest-small-dddddddddddddddd");
    assert_eq!(machines.machine(1).status(), Status::Requested);
    assert_eq!(machines.machine(1).ram_required(), 2 * GIB);
    // A token held by an existing machine is refused as well.
    machines.add_machines(&vec![small.duplicate()], &cfg, &vec![("e".repeat(16), "tok3".to_string())]);
    assert_eq!(machines.len(), 2);
}

#[test]
fn new_machines_get_generated_names() {
    let cfg = config();
    let mut machines = MachineManager::new(8 * GIB);
    let small = Triplet::new("acme", "web", "small");
    machines.update_demand(&vec![small.duplicate(), small.duplicate()], &cfg);
    assert_eq!(machines.len(), 2);
    for i in 0..2 {
        let m = machines.machine(i);
        let suffix = m.runner_name().strip_prefix("forrest-small-").unwrap();
        assert_eq!(suffix.len(), 16);
        assert!(suffix.chars().all(|c| c.is_ascii_alphanumeric()));
        assert_eq!(m.run_token().len(), 16);
        assert!(m.run_token().chars().all(|c| c.is_ascii_alphanumeric()));
    }
}

#[test]
fn run_dir_plan_picks_the_image() {
    let cfg = config();
    let machines = MachineManager::new(8 * GIB);
    let small = Triplet::new("acme", "web", "small");
    let mc = cfg.machine_config(&small).unwrap();
    let (rd, image) = RunDir::plan(&machines, &small, mc, "r1", "/b", None, None, Some(3)).unwrap();
    assert_eq!(image, "/b/machines/acme/web/small.img");
    assert_eq!(rd.path(), "/b/runs/acme/web/small/r1");
    assert!(RunDir::plan(&machines, &small, mc, "r1", "/b", None, None, None).is_none());
    assert_eq!(disk_target(10, 20), Some(20));
    assert_eq!(disk_target(20, 20), None);
    assert_eq!(disk_target(30, 20), None);
    assert_eq!(
        small.runner_labels(),
        vec!["self-hosted".to_string(), "forrest".to_string(), "small".to_string()]
    );
    assert_eq!(forrest::config_fs::volume_label("DATEN\u{e9}"), b"DATEN\xc3\xa9    ".to_vec());
}

#[test]
fn uploads_are_accepted_for_matching_artifacts() {
    let mut cfg = config();
    cfg.repositories[0].1[0].1.machines[0].1.artifacts = vec![ArtifactConfig {
        name: "logs".to_string(),
        path: "/a/<RUNNER_NAME>".to_string(),
        url: "u/".to_string(),
        quota: SizeInBytes::from_bytes(10),
        token: Some("secret".to_string()),
    }];
    let mut machines = MachineManager::new(8 * GIB);
    machines.update_demand(&vec![Triplet::new("acme", "web", "small")], &cfg);
    let token = machines.machine(0).run_token().to_string();
    let handler = forrest::artifacts::ArtifactsHandler::new();
    let ok = handler.plan(&machines, true, &format!("Bearer {token} secret"), "/artifact/logs/x");
    assert!(ok.is_ok());
    assert_eq!(ok.ok().unwrap().content_location(), "u/x");
    let wrong = handler.plan(&machines, true, &format!("Bearer {token} other"), "/artifact/logs/x");
    assert_eq!(wrong.err(), Some(404));
    let other = handler.plan(&machines, true, &format!("Bearer {token} secret"), "/artifact/bins/x");
    assert_eq!(other.err(), Some(404));
}
