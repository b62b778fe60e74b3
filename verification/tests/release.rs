use rpi::npm_command::Platform;
use rpi::release::{
    assignment_value, command_failure, dry_run_args, dry_run_args_on, dry_run_notice, encode_url_component,
    http_response, index_lists, index_url, inline_table_string, is_release_crate,
    json_bool_field, json_string_field, manifest_declares_dependency, publish_failure,
    publish_step, published_version, release_crate, run, sparse_index_path, toml_assignment,
    toml_section, toml_string, validate, validate_internal_dependencies, validate_publish_field,
    version_url, wait_for_sparse_index, HttpResponse, PublishStep, PublishedVersion,
    ReleaseCommand, ReleaseInputs, WaitStep, CRATE_COUNT,
};
use rpi::release_sequence::{
    DryRun, DryRunAction, DryRunEvent, Release, ReleaseEvent, ReleaseTask,
};

fn strings(values: &[&str]) -> Vec<String> {
    values.iter().map(|value| (*value).to_string()).collect()
}

fn response(status: u16, body: &str) -> HttpResponse {
    HttpResponse { status, body: body.to_string() }
}

#[test]
fn computes_sparse_index_paths() {
    assert_eq!(sparse_index_path("a"), "1/a");
    assert_eq!(sparse_index_path("ab"), "2/ab");
    assert_eq!(sparse_index_path("abc"), "3/a/abc");
    assert_eq!(sparse_index_path("rpi-cli"), "rp/i-/rpi-cli");
    assert_eq!(sparse_index_path("RPI-cli"), "rp/i-/rpi-cli");
    assert_eq!(index_url("rpi-cli"), "https://index.crates.io/rp/i-/rpi-cli");
}

#[test]
fn parses_json_fields_with_or_without_spaces() {
    assert_eq!(
        json_string_field(r#"{"vers":"0.1.12"}"#, "vers").as_deref(),
        Some("0.1.12")
    );
    assert_eq!(
        json_bool_field(r#"{"yanked": false}"#, "yanked"),
        Some(false)
    );
    assert_eq!(json_bool_field(r#"{"yanked" : true}"#, "yanked"), Some(true));
    assert_eq!(json_bool_field(r#"{"yanked": 1}"#, "yanked"), None);
    assert_eq!(json_bool_field(r#"{"other": true}"#, "yanked"), None);
    assert_eq!(json_string_field(r#"{"vers": 1}"#, "vers"), None);
}

#[test]
fn parses_release_toml_shapes() {
    let toml = "[workspace.package]\nversion = \"0.1.12\"\n\n[workspace.dependencies]\nrpi-ai = { path = \"crates/pi-ai\", version = \"0.1.12\" }\n";
    let package = toml_section(toml, "workspace.package").unwrap();
    assert_eq!(toml_string(package, "version"), Some("0.1.12"));
    let dependencies = toml_section(toml, "workspace.dependencies").unwrap();
    let line = toml_assignment(dependencies, "rpi-ai").unwrap();
    assert_eq!(inline_table_string(line, "version"), Some("0.1.12"));
    assert_eq!(toml_section(toml, "package"), None);
    assert_eq!(assignment_value("a = 1"), Some("1"));
    assert_eq!(assignment_value("a"), None);
    assert_eq!(toml_assignment("# version = \"1\"\n", "version"), None);
}

#[test]
fn dry_run_uses_full_verification_with_only_declared_local_dependencies() {
    let manifest = r#"
[dependencies]
rpi-telemetry = { workspace = true }
rpi-plugin-sdk = { version = "0.1.12" }
serde = { version = "1" }
"#;
    let args = dry_run_args("rpi-ai", manifest, "workspace");
    assert!(!args.iter().any(|arg| arg == "--no-verify"));
    assert_eq!(args.iter().filter(|arg| *arg == "--config").count(), 2);
    assert_eq!(
        args,
        [
            "publish",
            "--dry-run",
            "--locked",
            "--registry",
            "crates-io",
            "-p",
            "rpi-ai",
            "--config",
            "patch.crates-io.rpi-telemetry.path=\"workspace/crates/pi-telemetry\"",
            "--config",
            "patch.crates-io.rpi-plugin-sdk.path=\"workspace/crates/rpi-plugin-sdk\"",
        ]
    );
}

#[test]
fn a_dry_run_says_what_it_patches() {
    let args = dry_run_args("rpi-agent", "rpi-ai = { workspace = true }\n", "w");
    assert_eq!(
        dry_run_notice("rpi-agent", &args),
        "Dry-running rpi-agent with full package verification and 1 local release dependency patch(es)."
    );
}

#[test]
fn patch_paths_are_quoted_for_their_platform() {
    let manifest = "rpi-ai = { workspace = true }\n";
    let unix = dry_run_args_on(Platform::Unix, "rpi-agent", manifest, "/a\\b\"c\t");
    assert_eq!(
        unix[8],
        "patch.crates-io.rpi-ai.path=\"/a\\\\b\\\"c\\t/crates/pi-ai\""
    );
    let windows = dry_run_args_on(Platform::Windows, "rpi-agent", manifest, "C:\\work");
    assert_eq!(windows[8], "patch.crates-io.rpi-ai.path=\"C:/work/crates/pi-ai\"");
    assert!(manifest_declares_dependency(manifest, "rpi-ai"));
    assert!(!manifest_declares_dependency("# rpi-ai = 1\n", "rpi-ai"));
}

#[test]
fn commands_are_told_apart() {
    assert!(matches!(
        run(&strings(&["validate", "1.0.0"])),
        Ok(ReleaseCommand::Validate { version, allow_dirty: false }) if version == "1.0.0"
    ));
    assert!(matches!(
        run(&strings(&["validate", "1.0.0", "--allow-dirty"])),
        Ok(ReleaseCommand::Validate { allow_dirty: true, .. })
    ));
    assert!(matches!(run(&strings(&["dry-run"])), Ok(ReleaseCommand::DryRun)));
    assert!(matches!(
        run(&strings(&["publish", "1.0.0"])),
        Ok(ReleaseCommand::Publish { version }) if version == "1.0.0"
    ));
    assert!(matches!(
        run(&strings(&["probe", "rpi-ai", "1.0.0"])),
        Ok(ReleaseCommand::Probe { crate_name, version })
            if crate_name == "rpi-ai" && version == "1.0.0"
    ));
    for args in [vec![], strings(&["validate"]), strings(&["validate", "1", "--dirty"])] {
        let usage = run(&args).err().unwrap();
        assert!(usage.starts_with("usage: release-helper "), "{usage}");
    }
}

fn workspace(version: &str) -> String {
    let mut root = format!("[workspace.package]\nversion = \"{version}\"\n\n[workspace.dependencies]\n");
    for i in 0..CRATE_COUNT {
        let (name, manifest, _) = release_crate(i);
        root.push_str(&format!(
            "{name} = {{ path = \"{manifest}\", version = \"{version}\" }}\n"
        ));
    }
    root
}

fn metadata(version: &str) -> Vec<u8> {
    let packages: Vec<String> = (0..CRATE_COUNT)
        .map(|i| format!("{{\"name\":\"{}\",\"version\":\"{version}\"}}", release_crate(i).0))
        .collect();
    format!("{{\"packages\":[{}],\"workspace_members\":[]}}", packages.join(",")).into_bytes()
}

fn inputs(version: &str) -> ReleaseInputs {
    ReleaseInputs {
        clean: Ok(true),
        metadata: Ok(metadata(version)),
        root: Ok(workspace(version)),
        manifests: (0..CRATE_COUNT)
            .map(|i| {
                Ok(format!(
                    "[package]\nname = \"{}\"\nversion.workspace = true\n",
                    release_crate(i).0
                ))
            })
            .collect(),
    }
}

#[test]
fn a_consistent_release_is_valid() {
    assert_eq!(validate("0.1.12", false, &inputs("0.1.12")), Ok(()));
    assert!(is_release_crate("rpi-cli"));
    assert!(!is_release_crate("serde"));
}

#[test]
fn an_inconsistent_release_is_refused_for_its_first_fault() {
    let refused = |change: &dyn Fn(&mut ReleaseInputs)| {
        let mut given = inputs("0.1.12");
        change(&mut given);
        validate("0.1.12", false, &given).err().unwrap()
    };
    assert_eq!(
        refused(&|given| given.clean = Ok(false)),
        "release requires a clean git worktree (including untracked files)"
    );
    assert_eq!(refused(&|given| given.clean = Err("git".to_string())), "git");
    assert_eq!(
        refused(&|given| given.metadata = Err("stale lock".to_string())),
        "cargo metadata --locked failed: stale lock"
    );
    assert_eq!(
        refused(&|given| given.metadata = Ok(vec![0xff])),
        "cargo metadata returned non-UTF-8 JSON"
    );
    assert_eq!(
        refused(&|given| given.metadata = Ok(b"{}".to_vec())),
        "cargo metadata returned an unexpected format"
    );
    assert_eq!(
        refused(&|given| given.root = Ok(workspace("0.1.11"))),
        "workspace release version 0.1.11 does not match requested RELEASE_VERSION 0.1.12"
    );
    assert_eq!(
        refused(&|given| {
            given.root = Ok(workspace("0.1.12").replace(
                "rpi-ai = { path = \"crates/pi-ai/Cargo.toml\", version = \"0.1.12\"",
                "rpi-ai = { path = \"crates/pi-ai/Cargo.toml\", version = \"0.1.1\"",
            ))
        }),
        "workspace dependency rpi-ai uses 0.1.1, expected 0.1.12"
    );
    assert_eq!(
        refused(&|given| given.metadata = Ok(metadata("0.1.11"))),
        "cargo metadata does not list rpi-telemetry 0.1.12 as a workspace package"
    );
    assert_eq!(
        refused(&|given| given.manifests[0] = Ok("[package]\n".to_string())),
        "crates/pi-telemetry/Cargo.toml has no package name"
    );
    assert_eq!(
        refused(&|given| given.manifests[0] = Ok("[package]\nname = \"other\"\n".to_string())),
        "crates/pi-telemetry/Cargo.toml declares package other, expected rpi-telemetry"
    );
    assert_eq!(
        refused(&|given| {
            given.manifests[0] = Ok("[package]\nname = \"rpi-telemetry\"\n".to_string())
        }),
        "rpi-telemetry must inherit the workspace version or explicitly use 0.1.12"
    );
    assert_eq!(refused(&|given| given.manifests[8] = Err("gone".to_string())), "gone");
}

#[test]
fn dependencies_and_publication_are_held_to_the_release() {
    assert!(validate_internal_dependencies("a", "rpi-ai = { workspace = true }", "1.0.0").is_ok());
    assert!(
        validate_internal_dependencies("a", "rpi-ai = { version = \"1.0.0\" }", "1.0.0").is_ok()
    );
    assert!(validate_internal_dependencies("a", "serde = \"1\"", "1.0.0").is_ok());
    assert_eq!(
        validate_internal_dependencies("a", "rpi-cli = { version = \"0.9.0\" }", "1.0.0"),
        Err("a dependency rpi-cli must inherit or use version 1.0.0".to_string())
    );
    assert!(validate_publish_field("a", "name = \"a\"").is_ok());
    assert!(validate_publish_field("a", "publish = [\"crates-io\"]").is_ok());
    assert_eq!(
        validate_publish_field("a", "publish = [ ]"),
        Err("a is marked publish = false".to_string())
    );
    assert_eq!(
        validate_publish_field("a", "publish = [\"other\"]"),
        Err("a cannot be published to crates-io".to_string())
    );
}

#[test]
fn the_registry_says_what_is_published() {
    let state = |status: u16, body: &str| {
        published_version("rpi-ai", "1.0.0", &response(status, body))
    };
    assert!(matches!(state(200, "{\"yanked\":false}"), Ok(PublishedVersion::Available)));
    assert!(matches!(state(200, "{\"yanked\":true}"), Ok(PublishedVersion::Yanked)));
    assert!(matches!(state(404, ""), Ok(PublishedVersion::Missing)));
    assert_eq!(
        state(200, "{}").err().unwrap(),
        "crates.io returned no yanked field for rpi-ai 1.0.0"
    );
    assert_eq!(
        state(503, "").err().unwrap(),
        "crates.io returned HTTP 503 while checking rpi-ai 1.0.0"
    );
    assert!(matches!(
        publish_step("rpi-ai", "1.0.0", PublishedVersion::Available),
        PublishStep::Skip(_)
    ));
    assert!(matches!(
        publish_step("rpi-ai", "1.0.0", PublishedVersion::Yanked),
        PublishStep::Refuse(_)
    ));
    assert!(matches!(
        publish_step("rpi-ai", "1.0.0", PublishedVersion::Missing),
        PublishStep::Publish(said, args)
            if said == "Publishing rpi-ai 1.0.0..."
                && args == strings(&["publish", "--locked", "--registry", "crates-io", "-p", "rpi-ai"])
    ));
    let failure = publish_failure("rpi-ai", "1.0.0", "exit status: 1");
    assert!(
        failure.starts_with("cargo publish failed for rpi-ai 1.0.0: exit status: 1. Re-run"),
        "{failure}"
    );
}

#[test]
fn the_index_is_waited_for() {
    let listed = "{\"vers\":\"0.9.0\",\"yanked\":false}\n{\"vers\":\"1.0.0\",\"yanked\":false}\n";
    assert!(index_lists(listed, "1.0.0"));
    assert!(!index_lists("{\"vers\":\"1.0.0\",\"yanked\":true}\n", "1.0.0"));
    assert!(matches!(
        wait_for_sparse_index("rpi-ai", "1.0.0", Ok(response(200, listed)), false),
        WaitStep::Resolvable
    ));
    assert!(matches!(
        wait_for_sparse_index("rpi-ai", "1.0.0", Ok(response(404, "")), false),
        WaitStep::Again(_)
    ));
    assert!(matches!(
        wait_for_sparse_index("rpi-ai", "1.0.0", Err("no network".to_string()), true),
        WaitStep::GiveUp(message) if message.contains("(last result: no network)")
    ));
}

#[test]
fn replies_and_failures_of_commands_are_read() {
    let read = |stdout: &[u8]| http_response("u", true, stdout.to_vec(), "");
    let ok = read(b"body\nmore\n200").ok().unwrap();
    assert_eq!((ok.status, ok.body.as_str()), (200, "body\nmore"));
    assert_eq!(read(b"x\n+204 ").ok().unwrap().status, 204);
    assert_eq!(read(b"200").err().unwrap(), "curl returned no HTTP status for u");
    assert_eq!(read(b"\n70000").err().unwrap(), "curl returned an invalid HTTP status for u");
    assert_eq!(read(b"\nabc").err().unwrap(), "curl returned an invalid HTTP status for u");
    assert_eq!(read(&[0xff]).err().unwrap(), "curl returned non-UTF-8 data for u");
    assert_eq!(
        http_response("u", false, Vec::new(), " timed out\n").err().unwrap(),
        "curl failed for u: timed out"
    );
    assert_eq!(
        command_failure("git", &strings(&["status", "-s"]), " bad\n"),
        "git status -s failed: bad"
    );
}

#[test]
fn url_components_are_escaped_by_bytes() {
    assert_eq!(encode_url_component("a-b_c.d~e"), "a-b_c.d~e");
    assert_eq!(encode_url_component("1.0.0+x y/é"), "1.0.0%2Bx%20y%2F%C3%A9");
    assert_eq!(
        version_url("rpi-ai", "1.0.0+1"),
        "https://crates.io/api/v1/crates/rpi-ai/1.0.0%2B1"
    );
}

/// Runs a release over `events`, and gives the kinds of its tasks.
fn tasks(events: Vec<ReleaseEvent>) -> Vec<String> {
    let mut release = Release::begin();
    events
        .into_iter()
        .map(|event| match release.step("1.2.3", event).task {
            ReleaseTask::FindCurl => "curl".to_string(),
            ReleaseTask::AskState { crate_name } => format!("ask {crate_name}"),
            ReleaseTask::Publish { crate_name, .. } => format!("publish {crate_name}"),
            ReleaseTask::LookAtIndex { crate_name, .. } => format!("look {crate_name}"),
            ReleaseTask::Done => "done".to_string(),
            ReleaseTask::Fail(message) => format!("fail {message}"),
            ReleaseTask::Nothing => "nothing".to_string(),
        })
        .collect()
}

fn started() -> Vec<ReleaseEvent> {
    vec![ReleaseEvent::Validated(Ok(())), ReleaseEvent::Curl(Ok(()))]
}

#[test]
fn a_release_goes_through_all_crates_in_order() {
    let mut events = started();
    let mut expected = vec!["curl".to_string(), format!("ask {}", release_crate(0).0)];
    for i in 0..CRATE_COUNT {
        let name = release_crate(i).0;
        if i % 2 == 0 {
            events.push(ReleaseEvent::State(Ok(PublishedVersion::Available)));
        } else {
            events.push(ReleaseEvent::State(Ok(PublishedVersion::Missing)));
            expected.push(format!("publish {name}"));
            events.push(ReleaseEvent::Published(Ok(())));
        }
        expected.push(format!("look {name}"));
        events.push(ReleaseEvent::Index(WaitStep::Again("not yet".to_string())));
        expected.push(format!("look {name}"));
        events.push(ReleaseEvent::Index(WaitStep::Resolvable));
        expected.push(match i + 1 < CRATE_COUNT {
            true => format!("ask {}", release_crate(i + 1).0),
            false => "done".to_string(),
        });
    }
    events.push(ReleaseEvent::Index(WaitStep::Resolvable));
    expected.push("nothing".to_string());
    assert_eq!(tasks(events), expected);
}

#[test]
fn a_release_ends_at_the_first_failure() {
    assert_eq!(
        tasks(vec![ReleaseEvent::Validated(Err("dirty".to_string()))]),
        vec!["fail dirty".to_string()]
    );
    assert_eq!(
        tasks(vec![
            ReleaseEvent::Validated(Ok(())),
            ReleaseEvent::Curl(Err("missing".to_string())),
        ])[1],
        "fail curl is required before publishing any crate: missing"
    );
    let mut events = started();
    events.push(ReleaseEvent::State(Ok(PublishedVersion::Yanked)));
    events.push(ReleaseEvent::State(Ok(PublishedVersion::Missing)));
    let done = tasks(events);
    assert!(done[2].starts_with("fail ") && done[2].contains("is yanked"));
    assert_eq!(done[3], "nothing");
    let mut events = started();
    events.push(ReleaseEvent::State(Err("HTTP 500".to_string())));
    assert_eq!(tasks(events)[2], "fail HTTP 500");
    let mut events = started();
    events.push(ReleaseEvent::State(Ok(PublishedVersion::Missing)));
    events.push(ReleaseEvent::Published(Err("no token".to_string())));
    let name = release_crate(0).0;
    assert_eq!(
        tasks(events)[3],
        format!(
            "fail cargo publish failed for {name} 1.2.3: no token. Re-run task publish after resolving the error; published versions will be skipped"
        )
    );
    let mut events = started();
    events.push(ReleaseEvent::State(Ok(PublishedVersion::Available)));
    events.push(ReleaseEvent::Index(WaitStep::GiveUp("too late".to_string())));
    assert_eq!(tasks(events)[3], "fail too late");
}

#[test]
fn a_release_says_what_it_waits_for() {
    let mut release = Release::begin();
    for event in started() {
        assert!(release.step("1.2.3", event).said.is_none());
    }
    let name = release_crate(0).0;
    let skipped = release.step("1.2.3", ReleaseEvent::State(Ok(PublishedVersion::Available)));
    assert_eq!(
        skipped.said,
        Some(format!("Skipping {name} 1.2.3: exact version already exists on crates.io."))
    );
    let again = release.step("1.2.3", ReleaseEvent::Index(WaitStep::Again(String::new())));
    assert_eq!(
        again.said,
        Some(format!(
            "Waiting for crates.io index propagation ({name} 1.2.3, attempt 1)..."
        ))
    );
    let there = release.step("1.2.3", ReleaseEvent::Index(WaitStep::Resolvable));
    assert_eq!(
        there.said,
        Some(format!("{name} 1.2.3 is resolvable from the crates.io sparse index."))
    );
}

#[test]
fn a_dry_run_goes_through_all_crates_and_stops_at_a_failure() {
    let (mut run, first) = DryRun::begin();
    assert!(matches!(first, DryRunAction::Read(path) if path == release_crate(0).1));
    for i in 0..CRATE_COUNT {
        let read = run.step("/w", Platform::Unix, DryRunEvent::Manifest(Ok(String::new())));
        assert!(
            matches!(read, DryRunAction::Run(_, args) if args.iter().any(|arg| arg == release_crate(i).0))
        );
        let next = run.step("/w", Platform::Unix, DryRunEvent::Ran(Ok(())));
        if i + 1 < CRATE_COUNT {
            assert!(matches!(next, DryRunAction::Read(path) if path == release_crate(i + 1).1));
        } else {
            assert!(matches!(next, DryRunAction::Done));
        }
    }
    let (mut run, _) = DryRun::begin();
    run.step("/w", Platform::Unix, DryRunEvent::Manifest(Ok(String::new())));
    let name = release_crate(0).0;
    let failed = run.step("/w", Platform::Unix, DryRunEvent::Ran(Err("no".to_string())));
    assert!(
        matches!(failed, DryRunAction::Fail(m) if m == format!("cargo publish --dry-run failed for {name}: no"))
    );
    let after = run.step("/w", Platform::Unix, DryRunEvent::Ran(Ok(())));
    assert!(matches!(after, DryRunAction::Nothing));
}
