use forrest::artifacts::{path_components, tokens};
use forrest::config::{default_artifact_name, default_timeout, parse_duration_secs, SeedBasePolicy};
use forrest::config_fs::{volume_label, ConfigFs};
use forrest::machine::Status;
use forrest::run_dir::{choose_image, pick_newer, substitutions, Pick};
use forrest::size_in_bytes::{parse_u64, SizeInBytes};
use forrest::text::{join_path, replace_all};
use forrest::triplet::{LabelError, OwnerAndRepo, Triplet};

fn strings(v: &[&str]) -> Vec<String> {
    v.iter().map(|s| s.to_string()).collect()
}

#[test]
fn sizes_are_powers_of_1024() {
    assert_eq!(SizeInBytes::parse("8G").unwrap().bytes(), 8 * 1024 * 1024 * 1024);
    assert_eq!(SizeInBytes::parse("1M").unwrap().bytes(), 1048576);
    assert_eq!(SizeInBytes::parse("3K").unwrap().bytes(), 3072);
    assert_eq!(SizeInBytes::parse("12B").unwrap().bytes(), 12);
    assert_eq!(SizeInBytes::parse("2T").unwrap().bytes(), 2 * 1024u64.pow(4));
    assert_eq!(SizeInBytes::parse("8"), None);
    assert_eq!(SizeInBytes::parse("G"), None);
    assert_eq!(SizeInBytes::parse(""), None);
    assert_eq!(SizeInBytes::parse("8g"), None);
    assert_eq!(SizeInBytes::parse("-8G"), None);
    assert_eq!(SizeInBytes::parse("16777216T"), None);
    assert_eq!(SizeInBytes::parse("16777215T").unwrap().bytes(), 16777215 * 1024u64.pow(4));
    let s = SizeInBytes::from_bytes(5 * 1024 * 1024 + 1023);
    assert_eq!(s.kilobyes(), 5 * 1024);
    assert_eq!(s.megabytes(), 5);
}

#[test]
fn decimal_numbers() {
    assert_eq!(parse_u64("0"), Some(0));
    assert_eq!(parse_u64("18446744073709551615"), Some(u64::MAX));
    assert_eq!(parse_u64("18446744073709551616"), None);
    assert_eq!(parse_u64("1a"), None);
    assert_eq!(parse_u64(""), None);
}

#[test]
fn durations_in_seconds() {
    assert_eq!(parse_duration_secs("30s"), Some(30));
    assert_eq!(parse_duration_secs("15m"), Some(900));
    assert_eq!(parse_duration_secs("2h"), Some(7200));
    assert_eq!(parse_duration_secs("1d"), Some(86400));
    assert_eq!(parse_duration_secs("1w"), None);
    assert_eq!(parse_duration_secs("m"), None);
    assert_eq!(default_timeout(), 900);
    assert_eq!(default_artifact_name(), "artifact");
    assert_eq!(SeedBasePolicy::default(), SeedBasePolicy::IfNewer);
}

#[test]
fn labels_select_machine_types() {
    let oar = OwnerAndRepo::new("acme", "web");
    let t = oar.duplicate().into_triplet_via_labels(&strings(&["self-hosted", "forrest", "small"])).unwrap();
    assert_eq!(t.to_string(), "acme/web/small");
    assert!(oar.duplicate().into_triplet_via_labels(&strings(&["forrest", "self-hosted", "small"])).is_none());
    assert!(oar.duplicate().into_triplet_via_labels(&strings(&["self-hosted", "forrest"])).is_none());
    assert!(oar.duplicate().into_triplet_via_labels(&strings(&["self-hosted", "linux", "small"])).is_none());

    let orl = oar.duplicate().into_orl(strings(&["self-hosted", "forrest", "big"]));
    assert_eq!(orl.owner(), "acme");
    assert_eq!(orl.repository(), "web");
    assert_eq!(orl.labels().len(), 3);
    assert_eq!(orl.machine_name(), Ok("big".to_string()));
    let orm = orl.into_owner_repo_machine().ok().unwrap();
    assert_eq!(orm.machine_name(), "big");
    let two = oar.duplicate().into_orl(strings(&["self-hosted", "forrest"]));
    assert_eq!(two.machine_name(), Err(LabelError::UnsupportedLabelCount(2)));
    let first = oar.duplicate().into_orl(strings(&["ubuntu", "forrest", "x"]));
    assert_eq!(first.machine_name(), Err(LabelError::NotSelfHosted));
    let second = oar.duplicate().into_orl(strings(&["self-hosted", "gpu", "x"]));
    assert_eq!(second.machine_name(), Err(LabelError::NotForrest));
    assert!(second.into_owner_repo_machine().is_err());
    let shown = oar.duplicate().into_orl(strings(&["self-hosted", "forrest", "big"]));
    assert_eq!(shown.to_string(), "acme web [self-hosted, forrest, big]");
    assert_eq!(oar.duplicate().into_orl(vec![]).to_string(), "acme web []");
    let back = oar.duplicate().into_orl(vec![]).into_owner_and_repo();
    assert_eq!(back.to_string(), "acme/web");
    assert_eq!(oar.into_triplet("m").to_string(), "acme/web/m");
}

#[test]
fn triplets_parse_and_name_paths() {
    let t = Triplet::parse("acme/web/small").unwrap();
    assert_eq!((t.owner(), t.repository(), t.machine_name()), ("acme", "web", "small"));
    assert!(Triplet::parse("acme/web").is_none());
    assert!(Triplet::parse("a/b/c/d").is_none());
    assert_eq!(t.run_dir_path("/srv/", "r1"), "/srv/runs/acme/web/small/r1");
    assert_eq!(t.machine_image_path("base"), "base/machines/acme/web/small.img");
    assert_eq!(join_path("", "x"), "x");
    assert!(t.same(&Triplet::new("acme", "web", "small")));
    assert!(!t.same(&Triplet::new("acme", "web", "big")));
}

#[test]
fn bearer_tokens_are_read() {
    assert_eq!(tokens("Bearer abc def"), ("abc".to_string(), "def".to_string()));
    assert_eq!(tokens("  Bearer\tabc  "), ("abc".to_string(), "".to_string()));
    assert_eq!(tokens("Bearer"), ("".to_string(), "".to_string()));
    assert_eq!(tokens("Basic abc def"), ("".to_string(), "".to_string()));
    assert_eq!(tokens(""), ("".to_string(), "".to_string()));
}

#[test]
fn upload_paths_are_checked() {
    let (name, segs) = path_components("/artifact/logs//a/b.txt").unwrap();
    assert_eq!(name, "logs");
    assert_eq!(segs, strings(&["a", "b.txt"]));
    assert!(path_components("/artifact/logs/../etc/passwd").is_none());
    assert!(path_components("/artifact/logs/./x").is_none());
    assert!(path_components("/artifact/logs/a/..").is_none());
    assert!(path_components("/artifact/logs/").is_none());
    assert!(path_components("/artifact").is_none());
    assert!(path_components("/artifact/logs/a..b").is_some());
}

#[test]
fn upload_requests_are_authorised() {
    let machines = forrest::manager::Manager::new(1024);
    let handler = forrest::artifacts::ArtifactsHandler::new();
    assert_eq!(handler.plan(&machines, false, "Bearer x", "/artifact/a/b").err(), Some(405));
    assert_eq!(handler.plan(&machines, true, "Bearer x", "/artifact/a/../b").err(), Some(400));
    assert_eq!(handler.plan(&machines, true, "Bearer x", "/artifact/a/b").err(), Some(404));
}

#[test]
fn newer_image_is_picked() {
    assert_eq!(pick_newer(Some(2), Some(1)), Pick::A);
    assert_eq!(pick_newer(Some(1), Some(1)), Pick::B);
    assert_eq!(pick_newer(None, Some(1)), Pick::B);
    assert_eq!(pick_newer(Some(1), None), Pick::A);
    assert_eq!(pick_newer(None, None), Pick::A);
    assert_eq!(choose_image(SeedBasePolicy::Always, "b", "m", None, Some(1)), None);
    assert_eq!(choose_image(SeedBasePolicy::Never, "b", "m", Some(9), Some(1)), Some("m".to_string()));
    assert_eq!(choose_image(SeedBasePolicy::IfNewer, "b", "m", Some(9), Some(1)), Some("b".to_string()));
    assert_eq!(choose_image(SeedBasePolicy::IfNewer, "b", "m", None, None), None);
}

#[test]
fn run_substitutions() {
    let t = Triplet::new("acme", "web", "small");
    let subs = substitutions(&t, "JIT", "TOKEN", &vec![("EXTRA".to_string(), "1".to_string())]);
    let keys: Vec<&str> = subs.iter().map(|p| p.0.as_str()).collect();
    assert_eq!(keys, vec!["REPO_OWNER", "REPO_NAME", "MACHINE_NAME", "JITCONFIG", "RUN_TOKEN", "EXTRA"]);
    assert_eq!(subs[3].1, "JIT");
    assert_eq!(subs[4].1, "TOKEN");
    assert_eq!(subs[5].1, "1");
}

#[test]
fn volume_labels_are_padded() {
    assert_eq!(volume_label("CIDATA"), b"CIDATA     ".to_vec());
    assert_eq!(volume_label("JOBDATA"), b"JOBDATA    ".to_vec());
    let fs = ConfigFs::new("/x/cloud-init.img".to_string(), 1_000_000, "CIDATA");
    assert_eq!(fs.volume_label, b"CIDATA     ".to_vec());
    assert_eq!(fs.size, 1_000_000);
}

#[test]
fn replacement_is_left_to_right() {
    assert_eq!(replace_all("aaa", "aa", "b"), "ba");
    assert_eq!(replace_all("<RUNNER_NAME>/x/<RUNNER_NAME>", "<RUNNER_NAME>", "r"), "r/x/r");
    assert_eq!(replace_all("", "x", "y"), "");
}

#[test]
fn status_names_and_availability() {
    assert_eq!(Status::Requested.name(), "requested");
    assert_eq!(Status::Stopped.name(), "stopped");
    assert!(Status::Waiting.is_available());
    assert!(!Status::Running.is_available());
    assert!(Status::Stopped.is_stopped());
}
