use rpi::npm_command::{
    capture_output, describe_failure, parse_pnpm_global_package_path,
    parse_pnpm_global_package_paths, parse_single_absolute_line, run_startup_remediation,
    select_argv, truncate_output, CommandSettings, NpmCommand, NpmManagerKind, Platform, System,
};
use rpi::npm_process::{
    append_bounded, trusted_directory, BoundedProcess, NpmProcessCwd, NpmProcessError,
    NpmProcessLimits, ProcessAction, ProcessEvent,
};
use rpi::paths::{FileKind, FsEntry, FsPath, FsTree};

fn strings(values: &[&str]) -> Vec<String> {
    values.iter().map(|value| (*value).to_string()).collect()
}

fn path(text: &str) -> FsPath {
    FsPath::parse(text)
}

fn entry(at: &str, leads_to: &str, kind: FileKind, link: bool, text: Option<&str>) -> FsEntry {
    FsEntry {
        path: path(at),
        canonical: Some(path(leads_to)),
        kind,
        link,
        text: text.map(|t| t.to_string()),
        unreadable: None,
        children: Vec::new(),
    }
}

fn dir(at: &str) -> FsEntry {
    entry(at, at, FileKind::Directory, false, None)
}

fn file(at: &str, text: &str) -> FsEntry {
    entry(at, at, FileKind::File, false, Some(text))
}

fn shown(p: Option<FsPath>) -> Option<String> {
    p.map(|p| p.to_text())
}

#[test]
fn configured_argv_is_never_shell_parsed() {
    let argv = strings(&["mise", "exec", "node@20", "--", "npm"]);
    let command = NpmCommand::from_argv(Some(&argv)).unwrap();
    assert_eq!(command.program(), "mise");
    assert_eq!(
        command.combined_args(&strings(&["view", "demo", "version", "--json"])),
        strings(&["exec", "node@20", "--", "npm", "view", "demo", "version", "--json"])
    );
    assert_eq!(command.manager_kind(), NpmManagerKind::Npm);
    assert!(command.is_configured());
    assert_eq!(command.prefix_args().to_vec(), strings(&["exec", "node@20", "--", "npm"]));
}

#[test]
fn output_limit_error_reports_the_effective_budget() {
    assert_eq!(
        NpmProcessError::OutputLimitExceeded { limit: 1024 * 1024 }.message(),
        "npm process exceeded the 1048576 byte output limit"
    );
}

#[test]
fn view_args_accept_native_and_prefixed_specs() {
    let command = NpmCommand::from_argv(Some(&strings(&["pnpm"]))).unwrap();
    assert_eq!(
        command.view_args("npm:@scope/demo@^1").unwrap(),
        strings(&["view", "@scope/demo@^1", "version", "--json"])
    );
    assert!(command.view_args("npm:   ").is_err());
    assert!(command.view_args("npm:--help").is_err());
}

#[test]
fn root_install_args_match_native_pi_for_each_manager() {
    let specs = strings(&["one@latest", "@scope/two@^2"]);
    let root = path("install-root");

    let npm = NpmCommand::from_argv(Some(&strings(&["npm"]))).unwrap();
    assert_eq!(
        npm.install_args(&specs, &root),
        strings(&[
            "install",
            "one@latest",
            "@scope/two@^2",
            "--prefix",
            "install-root",
            "--legacy-peer-deps",
        ])
    );

    let pnpm = NpmCommand::from_argv(Some(&strings(&["pnpm"]))).unwrap();
    assert_eq!(
        pnpm.install_args(&specs, &root),
        strings(&[
            "install",
            "one@latest",
            "@scope/two@^2",
            "--prefix",
            "install-root",
            "--config.auto-install-peers=false",
            "--config.strict-peer-dependencies=false",
            "--config.strict-dep-builds=false",
        ])
    );

    let bun = NpmCommand::from_argv(Some(&strings(&["bun"]))).unwrap();
    assert_eq!(
        bun.install_args(&specs, &root),
        strings(&[
            "install",
            "one@latest",
            "@scope/two@^2",
            "--cwd",
            "install-root",
            "--omit=peer",
        ])
    );
}

#[test]
fn root_uninstall_args_match_native_pi_for_each_manager() {
    let root = path("install-root");

    let npm = NpmCommand::from_argv(Some(&strings(&["npm"]))).unwrap();
    assert_eq!(
        npm.uninstall_args("@scope/demo", &root),
        strings(&[
            "uninstall",
            "@scope/demo",
            "--prefix",
            "install-root",
            "--legacy-peer-deps",
        ])
    );

    let pnpm = NpmCommand::from_argv(Some(&strings(&["pnpm"]))).unwrap();
    assert_eq!(
        pnpm.uninstall_args("demo", &root),
        strings(&["uninstall", "demo", "--prefix", "install-root"])
    );

    let bun = NpmCommand::from_argv(Some(&strings(&["bun"]))).unwrap();
    assert_eq!(
        bun.uninstall_args("demo", &root),
        strings(&["uninstall", "demo", "--cwd", "install-root"])
    );
}

#[test]
fn blank_program_fails_closed_while_empty_array_selects_default() {
    assert!(NpmCommand::from_argv(Some(&strings(&["   ", "install"]))).is_err());
    let empty: Vec<String> = Vec::new();
    let default = NpmCommand::from_argv(Some(&empty)).unwrap();
    assert_eq!(default.manager_kind(), NpmManagerKind::Npm);
    assert!(!default.is_configured());
}

#[test]
fn windows_normalizes_bare_script_shims_but_not_wrappers() {
    let on = Platform::Windows;
    let npm = NpmCommand::from_argv_on(on, Some(&strings(&["npm"]))).unwrap();
    let pnpm = NpmCommand::from_argv_on(on, Some(&strings(&["pnpm"]))).unwrap();
    let wrapper = NpmCommand::from_argv_on(on, Some(&strings(&["mise", "--", "npm"]))).unwrap();
    assert_eq!(npm.program(), "npm.cmd");
    assert_eq!(pnpm.program(), "pnpm.cmd");
    assert_eq!(wrapper.program(), "mise");
}

#[test]
fn the_host_decides_about_script_shims() {
    let here = NpmCommand::from_argv(Some(&strings(&["npm"]))).unwrap();
    let expected = if std::path::MAIN_SEPARATOR == '\\' { "npm.cmd" } else { "npm" };
    assert_eq!(here.program(), expected);
}

#[test]
fn trusted_project_command_precedes_pi_and_global_settings() {
    let rpi = || CommandSettings { npm_command: Some(strings(&["bun"])) };
    let pi = || CommandSettings { npm_command: Some(strings(&["pnpm"])) };
    let unset = || CommandSettings { npm_command: None };
    let global = CommandSettings { npm_command: Some(strings(&["npm", "--global-prefix"])) };
    assert_eq!(
        select_argv(&[rpi(), pi()], &global, true),
        rpi().npm_command.as_deref()
    );
    assert_eq!(
        select_argv(&[unset(), pi()], &global, true),
        pi().npm_command.as_deref()
    );
    assert_eq!(
        select_argv(&[rpi(), pi()], &global, false),
        global.npm_command.as_deref()
    );
}

#[test]
fn settings_choose_the_command() {
    let project = [CommandSettings { npm_command: Some(strings(&["bun"])) }];
    let global = CommandSettings { npm_command: None };
    let trusted = NpmCommand::resolve(&project, Ok(&global), true).unwrap();
    assert_eq!(trusted.manager_kind(), NpmManagerKind::Bun);
    let untrusted = NpmCommand::resolve(&project, Ok(&global), false).unwrap();
    assert_eq!(untrusted.manager_kind(), NpmManagerKind::Npm);
    assert!(NpmCommand::resolve(&project, Err("broken".to_string()), true).is_err());
}

#[test]
fn global_root_output_is_single_absolute_line() {
    assert_eq!(
        shown(parse_single_absolute_line("/tmp/node_modules\n")),
        Some("/tmp/node_modules".to_string())
    );
    assert!(parse_single_absolute_line("node_modules").is_none());
    assert!(parse_single_absolute_line("/tmp/node_modules\n/tmp/other").is_none());
    assert!(parse_single_absolute_line("/tmp/node_modules\tother").is_none());
}

#[test]
fn global_package_path_requires_direct_manifest_child() {
    let fs = FsTree {
        entries: vec![
            dir("/t/global/node_modules"),
            dir("/t/global/node_modules/demo"),
            file("/t/global/node_modules/demo/package.json", "{\"name\":\"demo\"}"),
            dir("/t/global/node_modules/@scope"),
            dir("/t/global/node_modules/@scope/pkg"),
            file("/t/global/node_modules/@scope/pkg/package.json", "{\"name\":\"@scope/pkg\"}"),
        ],
    };
    let root = path("/t/global/node_modules");
    let found = |name: &str| shown(NpmCommand::validate_global_package_path(&fs, &root, name));
    assert_eq!(found("demo"), Some("/t/global/node_modules/demo".to_string()));
    assert_eq!(found("@scope/pkg"), Some("/t/global/node_modules/@scope/pkg".to_string()));
    assert!(found("../outside").is_none());
    assert!(found("demo/nested").is_none());
    assert!(found("missing").is_none());
}

#[test]
fn global_package_path_rejects_package_symlink_escape() {
    let fs = FsTree {
        entries: vec![
            dir("/t/global/node_modules"),
            dir("/t/outside/demo"),
            file("/t/outside/demo/package.json", "{\"name\":\"demo\"}"),
            entry(
                "/t/global/node_modules/demo",
                "/t/outside/demo",
                FileKind::Directory,
                true,
                None,
            ),
            entry(
                "/t/global/node_modules/demo/package.json",
                "/t/outside/demo/package.json",
                FileKind::File,
                false,
                Some("{\"name\":\"demo\"}"),
            ),
        ],
    };
    let root = path("/t/global/node_modules");
    assert!(NpmCommand::validate_global_package_path(&fs, &root, "demo").is_none());
}

fn pnpm_tree() -> FsTree {
    FsTree {
        entries: vec![
            dir("/t/pnpm/global/v11"),
            dir("/t/pnpm/global/v11/20-hash/node_modules"),
            dir("/t/pnpm/global/v11/20-hash/node_modules/demo"),
            file("/t/pnpm/global/v11/20-hash/node_modules/demo/package.json", "{}"),
            dir("/t/pnpm/global/v11/21-hash/node_modules"),
            dir("/t/pnpm/global/v11/21-hash/node_modules/@scope"),
            dir("/t/pnpm/global/v11/21-hash/node_modules/@scope/pkg"),
            file("/t/pnpm/global/v11/21-hash/node_modules/@scope/pkg/package.json", "{}"),
            dir("/t/outside/node_modules"),
            dir("/t/outside/node_modules/demo"),
            file("/t/outside/node_modules/demo/package.json", "{}"),
            dir("/t/outside/node_modules/escaped"),
            file("/t/outside/node_modules/escaped/package.json", "{}"),
        ],
    }
}

#[test]
fn pnpm_global_json_requires_root_containment_and_node_modules_shape() {
    let fs = pnpm_tree();
    let package = "/t/pnpm/global/v11/20-hash/node_modules/demo";
    let output = format!(
        "[{{\"path\":\"/t/pnpm/global/v11\",\"dependencies\":{{\"demo\":{{\"path\":\"{package}\"}}}}}}]"
    );
    assert_eq!(
        shown(parse_pnpm_global_package_path(&fs, &output, "demo")),
        Some(package.to_string())
    );
    let escaped = "[{\"path\":\"/t/pnpm/global/v11\",\"dependencies\":{\"demo\":{\"path\":\"/t/outside/node_modules/demo\"}}}]";
    assert!(parse_pnpm_global_package_path(&fs, escaped, "demo").is_none());
    let missing_root = format!("[{{\"dependencies\":{{\"demo\":{{\"path\":\"{package}\"}}}}}}]");
    assert!(parse_pnpm_global_package_path(&fs, &missing_root, "demo").is_none());
    assert!(parse_pnpm_global_package_path(&fs, "not json", "demo").is_none());
}

const PNPM_OUTPUT: &str = "[{\"path\":\"/t/pnpm/global/v11\",\"dependencies\":{\"demo\":{\"path\":\"/t/pnpm/global/v11/20-hash/node_modules/demo\"},\"@scope/pkg\":{\"path\":\"/t/pnpm/global/v11/21-hash/node_modules/@scope/pkg\"},\"escaped\":{\"path\":\"/t/outside/node_modules/escaped\"}}}]";

#[test]
fn pnpm_global_batch_parses_one_document_and_preserves_path_validation() {
    let fs = pnpm_tree();
    let names = strings(&["demo", "@scope/pkg", "escaped", "missing"]);
    let packages = parse_pnpm_global_package_paths(&fs, PNPM_OUTPUT, &names);
    let found: Vec<Option<String>> = packages.into_iter().map(shown).collect();
    assert_eq!(
        found,
        vec![
            Some("/t/pnpm/global/v11/20-hash/node_modules/demo".to_string()),
            Some("/t/pnpm/global/v11/21-hash/node_modules/@scope/pkg".to_string()),
            None,
            None,
        ]
    );
}

#[test]
fn nothing_is_asked_for_invalid_names() {
    let argv = strings(&["mise", "exec", "node@20", "--", "npm"]);
    let command = NpmCommand::from_argv(Some(&argv)).unwrap();
    let error = command.global_lookup(&strings(&["demo", "../escaped"])).err().unwrap();
    assert_eq!(error, "invalid npm package name for global lookup: ../escaped");
    assert_eq!(command.global_lookup(&[]), Ok(None));
    assert_eq!(
        command.global_lookup(&strings(&["demo"])),
        Ok(Some(strings(&["exec", "node@20", "--", "npm", "root", "-g"])))
    );
}

#[test]
fn pnpm_global_batch_rejects_invalid_names() {
    let fs = pnpm_tree();
    let command = NpmCommand::from_argv(Some(&strings(&["pnpm"]))).unwrap();
    let packages = command
        .global_package_paths(
            System::host(),
            &fs,
            &strings(&["demo", "@scope/pkg", "missing"]),
            Ok(PNPM_OUTPUT.to_string()),
        )
        .ok()
        .unwrap();
    assert_eq!(packages.iter().filter(|p| p.is_some()).count(), 2);
    let error = command
        .global_package_paths(System::host(), &fs, &strings(&["demo", "../escaped"]), Ok(PNPM_OUTPUT.to_string()))
        .err()
        .unwrap();
    assert!(error.contains("invalid npm package name"));
    assert_eq!(
        shown(command.global_package_path(System::host(), &fs, "demo", Ok(PNPM_OUTPUT.to_string())).ok().unwrap()),
        Some("/t/pnpm/global/v11/20-hash/node_modules/demo".to_string())
    );
}

#[test]
fn npm_global_roots_come_from_one_line() {
    let fs = FsTree { entries: vec![dir("/g/node_modules")] };
    let command = NpmCommand::from_argv(Some(&strings(&["npm"]))).unwrap();
    let roots = command
        .global_package_roots(System::host(), &fs, Ok("/g/node_modules\n".to_string()))
        .ok()
        .unwrap();
    assert_eq!(roots.len(), 1);
    assert_eq!(roots[0].to_text(), "/g/node_modules");
    assert!(command.global_package_roots(System::host(), &fs, Err("no npm".to_string())).is_err());
}

#[test]
fn long_output_is_cut() {
    assert_eq!(truncate_output("short"), "short");
    let long = "x".repeat(600);
    let cut = truncate_output(&long);
    assert!(cut.ends_with("..."));
    assert_eq!(cut.len(), 515);
    assert_eq!(describe_failure("exit status: 1", " \n"), "exited with exit status: 1");
    assert_eq!(
        describe_failure("exit status: 1", " boom \n"),
        "exited with exit status: 1: boom"
    );
}

#[test]
fn package_manager_outcomes_are_described() {
    let ended = |ok: bool| Ok((ok, "exit status: 3".to_string()));
    assert_eq!(
        capture_output("npm", ended(true), Ok("out".to_string()), "").unwrap(),
        "out"
    );
    assert_eq!(
        capture_output("npm", ended(false), Ok("out".to_string()), "bad").unwrap_err(),
        "npm exited with exit status: 3: bad"
    );
    assert_eq!(
        capture_output("npm", Err("gone".to_string()), Ok("out".to_string()), "").unwrap_err(),
        "could not execute npm for global package lookup: gone"
    );
    assert_eq!(
        capture_output("npm", ended(true), Err("bytes".to_string()), "").unwrap_err(),
        "npm global package lookup returned non-UTF-8 output: bytes"
    );
    assert!(run_startup_remediation("npm", ended(true), "").is_ok());
    assert_eq!(
        run_startup_remediation("npm", ended(false), "").unwrap_err(),
        "npm exited with exit status: 3"
    );
    assert_eq!(
        run_startup_remediation("npm", Err("late".to_string()), "").unwrap_err(),
        "npm startup package operation failed: late"
    );
}

#[test]
fn every_process_error_has_a_message() {
    let text = |e: NpmProcessError| e.message();
    assert!(text(NpmProcessError::Setup("a".to_string())).contains("a"));
    assert!(text(NpmProcessError::Spawn("b".to_string())).contains("b"));
    assert!(text(NpmProcessError::Read("c".to_string())).contains("c"));
    assert!(text(NpmProcessError::Wait("d".to_string())).contains("d"));
    assert!(!text(NpmProcessError::Cancelled).is_empty());
    assert!(!text(NpmProcessError::TimedOut).is_empty());
}

#[test]
fn both_streams_share_one_budget() {
    let limits = NpmProcessLimits { timeout_ms: 1000, max_output_bytes: 4 };
    let mut process = BoundedProcess::start(limits);
    assert!(matches!(
        process.step(ProcessEvent::Stdout(vec![1, 2])),
        ProcessAction::Continue
    ));
    assert!(matches!(
        process.step(ProcessEvent::Stderr(vec![3, 4])),
        ProcessAction::Continue
    ));
    match process.step(ProcessEvent::Stdout(vec![5])) {
        ProcessAction::Terminate(NpmProcessError::OutputLimitExceeded { limit }) => {
            assert_eq!(limit, 4)
        }
        _ => panic!("the budget is used up"),
    }
}

#[test]
fn a_process_finishes_with_its_exit_and_both_streams() {
    let mut process = BoundedProcess::start(NpmProcessLimits::default());
    assert!(matches!(process.step(ProcessEvent::Exited), ProcessAction::Continue));
    assert!(matches!(process.step(ProcessEvent::Stdout(Vec::new())), ProcessAction::Continue));
    assert!(matches!(process.step(ProcessEvent::Stderr(Vec::new())), ProcessAction::Finish));
    let mut late = BoundedProcess::start(NpmProcessLimits::startup_remediation());
    assert!(matches!(
        late.step(ProcessEvent::DeadlinePassed),
        ProcessAction::Terminate(NpmProcessError::TimedOut)
    ));
    let mut cancelled = BoundedProcess::start(NpmProcessLimits::default());
    assert!(matches!(
        cancelled.step(ProcessEvent::Cancelled),
        ProcessAction::Terminate(NpmProcessError::Cancelled)
    ));
    let mut broken = BoundedProcess::start(NpmProcessLimits::default());
    assert!(matches!(
        broken.step(ProcessEvent::ReadFailed("io".to_string())),
        ProcessAction::Terminate(NpmProcessError::Read(_))
    ));
    let mut lost = BoundedProcess::start(NpmProcessLimits::default());
    assert!(matches!(
        lost.step(ProcessEvent::WaitFailed("io".to_string())),
        ProcessAction::Terminate(NpmProcessError::Wait(_))
    ));
}

#[test]
fn bounded_bytes_stop_at_the_limit() {
    let mut out = vec![1u8, 2];
    assert!(append_bounded(&mut out, &[3u8, 4], 1, 5));
    assert_eq!(out, vec![1, 2, 3, 4]);
    assert!(!append_bounded(&mut out, &[5u8], 1, 5));
    assert_eq!(out, vec![1, 2, 3, 4]);
}

#[test]
fn a_process_starts_in_a_trusted_directory_or_elsewhere() {
    assert!(matches!(NpmProcessCwd::startup(None), NpmProcessCwd::Isolated));
    assert!(matches!(NpmProcessCwd::startup(Some(path("/p"))), NpmProcessCwd::Trusted(_)));
    assert!(trusted_directory(&path("/p"), Ok(true)).is_ok());
    assert!(trusted_directory(&path("/p"), Ok(false)).is_err());
    assert!(trusted_directory(&path("/p"), Err("denied".to_string())).is_err());
}
