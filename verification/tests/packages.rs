use rpi::discovery::{
    discover_with_scope_and_command, legacy_names, missing_package_for_update,
    update_recovery_targets, Lookup, PackageSetting, RecoveryFailure, Settings,
};
use rpi::listing::{list_json, list_report};
use rpi::npm_command::{NpmCommand, Platform};
use rpi::package_cli::{
    discover_from_settings_for_update, update_command, NativePackage, UpdateSettings,
};
use rpi::packages::{
    load_package_with_legacy_root, package_identity, package_store_key,
    resolve_spec_with_legacy_lookup, LegacyPackage, PackageResources, PackageRoot,
};
use rpi::paths::{FileKind, FsEntry, FsPath, FsTree};
use rpi::recovery::{is_backup, plan_recovery, Recovery};
use rpi::resources::PackageFilter;
use rpi::runtime_plan::{
    collect_failures, discover, discover_from_global_settings, discover_from_settings,
    npm_store_root_for_update, refuse_plan, resolve_after_install, resolve_from_global_settings,
    resolve_offline_from_global_settings, runtime_npm_needs_install, RuntimeOutcomes, RuntimeStep,
    Workspace,
};
use rpi::stores::{
    is_managed_package_path, npm_install_root_for_path, npm_source_marker, PackageSource, Places,
    ResolveScope, PACKAGE_SOURCE_MARKER,
};
use rpi::theme::{load_theme, load_theme_with_resources};
use rpi::update::{
    finish_update, report_job, update_packages_with_scope, updateable_git_source,
    updateable_npm_source, UpdateJob, UpdateStep,
};
use std::collections::BTreeMap;

/// What stands at a path: the text of a file, nothing for a directory, or
/// where a link leads.
enum Node {
    File(String),
    Directory,
    Link(String),
}

/// A file system in memory.
struct Disk {
    nodes: BTreeMap<String, Node>,
}

impl Disk {
    fn new() -> Disk {
        let mut disk = Disk { nodes: BTreeMap::new() };
        disk.nodes.insert("/".to_string(), Node::Directory);
        disk
    }

    fn dir(&mut self, at: &str) {
        let mut path = String::new();
        for part in at.split('/').filter(|part| !part.is_empty()) {
            path.push('/');
            path.push_str(part);
            self.nodes.entry(path.clone()).or_insert(Node::Directory);
        }
    }

    fn file(&mut self, at: &str, text: &str) {
        if let Some((parent, _)) = at.rsplit_once('/') {
            self.dir(parent);
        }
        self.nodes.insert(at.to_string(), Node::File(text.to_string()));
    }

    fn link(&mut self, at: &str, leads_to: &str) {
        if let Some((parent, _)) = at.rsplit_once('/') {
            self.dir(parent);
        }
        self.nodes.insert(at.to_string(), Node::Link(leads_to.to_string()));
    }

    fn marker(&mut self, root: &str, spec: &str) {
        let text = npm_source_marker(spec).unwrap();
        self.file(&format!("{root}/{PACKAGE_SOURCE_MARKER}"), &text);
    }

    /// Moves a directory with all that is in it.
    fn rename(&mut self, from: &str, to: &str) {
        let below = format!("{from}/");
        let moved: Vec<String> = self
            .nodes
            .keys()
            .filter(|key| key.as_str() == from || key.starts_with(&below))
            .cloned()
            .collect();
        for key in moved {
            if let Some(node) = self.nodes.remove(&key) {
                self.nodes.insert(format!("{to}{}", &key[from.len()..]), node);
            }
        }
    }

    fn has(&self, at: &str) -> bool {
        self.nodes.contains_key(at)
    }

    /// Puts the directory `target` right as the library plans it.
    fn recover(&mut self, target: &str) -> Result<(), String> {
        let (parent, name) = target.rsplit_once('/').unwrap();
        match plan_recovery(name, self.has(target), &self.children(parent)) {
            Recovery::Nothing => Ok(()),
            Recovery::Restore(backup) => {
                self.rename(&format!("{parent}/{backup}"), target);
                Ok(())
            }
            Recovery::Clean(backups) => {
                for backup in backups {
                    let at = format!("{parent}/{backup}");
                    let below = format!("{at}/");
                    self.nodes.retain(|key, _| *key != at && !key.starts_with(&below));
                }
                Ok(())
            }
            Recovery::Refuse(message) => Err(message),
        }
    }

    /// Puts right what the updates of `spec` may have left behind.
    fn recover_spec(
        &mut self,
        places: &Places,
        spec: &str,
        scope: ResolveScope,
        failures: &mut Vec<RecoveryFailure>,
    ) {
        for target in update_recovery_targets(places, spec, scope) {
            if let Err(message) = self.recover(&target.to_text()) {
                failures.push(RecoveryFailure { target, message });
                return;
            }
            if self.has(&target.to_text()) {
                return;
            }
        }
    }

    fn children(&self, at: &str) -> Vec<String> {
        let prefix = if at == "/" { "/".to_string() } else { format!("{at}/") };
        self.nodes
            .keys()
            .filter_map(|key| key.strip_prefix(&prefix))
            .filter(|rest| !rest.is_empty() && !rest.contains('/'))
            .map(|rest| rest.to_string())
            .collect()
    }

    fn tree(&self) -> FsTree {
        let mut entries = Vec::new();
        for (at, node) in &self.nodes {
            let target = match node {
                Node::Link(leads_to) => leads_to.as_str(),
                _ => at.as_str(),
            };
            let (kind, text, children) = match self.nodes.get(target) {
                Some(Node::File(text)) => (FileKind::File, Some(text.clone()), Vec::new()),
                Some(Node::Directory) => (FileKind::Directory, None, self.children(target)),
                _ => (FileKind::Other, None, Vec::new()),
            };
            entries.push(FsEntry {
                path: path(at),
                canonical: Some(path(target)),
                kind,
                link: matches!(node, Node::Link(_)),
                text,
                unreadable: None,
                children,
            });
        }
        FsTree { entries }
    }
}

fn path(text: &str) -> FsPath {
    FsPath::parse(text)
}

fn texts(paths: &[FsPath]) -> Vec<String> {
    paths.iter().map(|p| p.to_text()).collect()
}

fn under(root: &str, rest: &[&str]) -> Vec<String> {
    rest.iter().map(|part| format!("{root}/{part}")).collect()
}

fn places(cwd: &str, agent: &str) -> Places {
    Places { cwd: path(cwd), agent: Ok(path(agent)), home: None }
}

fn no_settings() -> Settings {
    Settings { packages: None, npm_command: None }
}

fn settings(specs: &[&str]) -> Settings {
    Settings {
        packages: Some(specs.iter().map(|s| PackageSetting::Source(s.to_string())).collect()),
        npm_command: None,
    }
}

fn filter(source: &str) -> PackageFilter {
    PackageFilter {
        source: source.to_string(),
        autoload: None,
        extensions: None,
        skills: None,
        prompts: None,
        themes: None,
    }
}

/// The settings of a project and of the user around a file system.
struct World {
    fs: FsTree,
    places: Places,
    project: Vec<Settings>,
    user: Result<Settings, String>,
    legacy: Vec<LegacyPackage>,
}

impl World {
    fn new(disk: &Disk, cwd: &str, agent: &str) -> World {
        World {
            fs: disk.tree(),
            places: places(cwd, agent),
            project: Vec::new(),
            user: Ok(no_settings()),
            legacy: Vec::new(),
        }
    }

    fn workspace(&self) -> Workspace<'_> {
        Workspace {
            fs: &self.fs,
            places: &self.places,
            project_settings: &self.project,
            user_settings: &self.user,
            recovery_failures: &[],
            legacy: &self.legacy,
        }
    }

    fn for_update(&self, trusted: bool, failures: &[RecoveryFailure]) -> PackageResources {
        let s = UpdateSettings {
            project: Ok(self.project.first()),
            user: Ok(self.user.as_ref().ok().unwrap()),
        };
        discover_from_settings_for_update(
            &s,
            trusted,
            &self.fs,
            &self.places,
            failures,
            &self.legacy,
        )
    }
}

fn load_at(
    disk: &Disk,
    cwd: &str,
    root: &str,
    spec: &str,
    scope: ResolveScope,
    filter: Option<&PackageFilter>,
) -> Result<PackageRoot, String> {
    let places = places(cwd, "/t/no-agent");
    load_package_with_legacy_root(&disk.tree(), &places, path(root), spec, scope, filter, None)
}

fn load(disk: &Disk, root: &str, spec: &str) -> Result<PackageRoot, String> {
    load_at(disk, "/t", root, spec, ResolveScope::Any, None)
}

fn discovered(disk: &Disk, specs: &[&str]) -> (PackageResources, FsTree) {
    let world = World::new(disk, "/t", "/t/no-agent");
    let specs: Vec<String> = specs.iter().map(|s| s.to_string()).collect();
    let found = discover(&world.workspace(), &specs);
    (found, world.fs)
}

fn is_npm_source(p: &PackageRoot, name: &str, spec: &str) -> bool {
    updateable_npm_source(p) == Some((name, spec))
}

#[test]
fn discovers_conventional_and_manifest_resources() {
    let mut disk = Disk::new();
    disk.file("/t/pkg/custom-skills/a.md", "---\nname: a\n---\nbody");
    disk.file("/t/pkg/rpi-skills/rpi.md", "---\nname: rpi\n---\nbody");
    disk.file("/t/pkg/prompts/explain.md", "explain");
    disk.file("/t/pkg/legacy-prompts/legacy.md", "legacy");
    disk.file("/t/pkg/themes/ocean.json", "{}");
    disk.file(
        "/t/pkg/package.json",
        r#"{"name":"demo","version":"1.0.0","pi":{"skills":["custom-skills"],"prompts":["legacy-prompts"]},"rpi":{"skills":["rpi-skills"]}}"#,
    );
    let (resources, fs) = discovered(&disk, &["/t/pkg"]);
    assert_eq!(resources.packages.len(), 1);
    assert_eq!(resources.packages[0].name, "demo");
    assert_eq!(texts(&resources.skill_dirs()), under("/t/pkg", &["rpi-skills/rpi.md"]));
    assert_eq!(texts(&resources.prompt_dirs()), under("/t/pkg", &["legacy-prompts/legacy.md"]));
    assert_eq!(texts(&resources.theme_files(&fs)), under("/t/pkg", &["themes/ocean.json"]));
}

#[test]
fn manifest_globs_and_overrides_follow_native_precedence() {
    let mut disk = Disk::new();
    for at in ["extensions/a.ts", "extensions/z.ts"] {
        disk.file(&format!("/t/pkg/{at}"), "export default () => {};");
    }
    for at in ["plugins/one/skills/alpha/SKILL.md", "plugins/two/skills/beta/SKILL.md"] {
        disk.file(&format!("/t/pkg/{at}"), "---\nname: demo\n---\n");
    }
    disk.file(
        "/t/pkg/package.json",
        r#"{
            "name":"glob-demo",
            "pi":{
                "extensions":[
                    "extensions/*.ts",
                    "!**/*.ts",
                    "+extensions/a.ts",
                    "-extensions/z.ts",
                    "+extensions/z.ts"
                ],
                "skills":["plugins/*/skills"]
            }
        }"#,
    );
    let (resources, _) = discovered(&disk, &["/t/pkg"]);
    assert_eq!(texts(&resources.extension_paths()), under("/t/pkg", &["extensions/a.ts"]));
    assert_eq!(
        texts(&resources.skill_dirs()),
        under(
            "/t/pkg",
            &["plugins/one/skills/alpha/SKILL.md", "plugins/two/skills/beta/SKILL.md"]
        )
    );
}

#[test]
fn extension_directories_use_smart_entry_discovery() {
    let mut disk = Disk::new();
    for (at, body) in [
        ("extensions/standalone.ts", "export default () => {};"),
        ("extensions/group/index.ts", "export default () => {};"),
        ("extensions/group/helper.ts", "export const helper = 1;"),
        ("extensions/custom/main.js", "export default () => {};"),
        ("extensions/custom/utils.js", "export const util = 1;"),
        ("extensions/broken/helper.ts", "export const helper = 1;"),
        ("extensions/custom/package.json", r#"{"pi":{"extensions":["main.js"]}}"#),
        ("package.json", r#"{"name":"smart-demo","pi":{"extensions":["extensions"]}}"#),
    ] {
        disk.file(&format!("/t/pkg/{at}"), body);
    }
    let package = load(&disk, "/t/pkg", "/t/pkg").ok().unwrap();
    assert_eq!(
        texts(&package.extensions),
        under(
            "/t/pkg",
            &["extensions/custom/main.js", "extensions/group/index.ts", "extensions/standalone.ts"]
        )
    );

    disk.file("/t/pkg/extensions/index.js", "export default () => {};");
    let package = load(&disk, "/t/pkg", "/t/pkg").ok().unwrap();
    assert_eq!(texts(&package.extensions), under("/t/pkg", &["extensions/index.js"]));
}

#[test]
fn skill_directory_discovery_ignores_nested_markdown_helpers() {
    let mut disk = Disk::new();
    for at in [
        "skills/root.md",
        "skills/group/SKILL.md",
        "skills/group/README.md",
        "skills/group/nested/SKILL.md",
        "skills/docs/README.md",
        "skills/deep/alpha/SKILL.md",
    ] {
        disk.file(&format!("/t/pkg/{at}"), "---\nname: demo\n---\n");
    }
    disk.file("/t/pkg/package.json", r#"{"name":"skill-demo"}"#);
    let package = load(&disk, "/t/pkg", "/t/pkg").ok().unwrap();
    assert_eq!(
        texts(&package.skills),
        under(
            "/t/pkg",
            &["skills/deep/alpha/SKILL.md", "skills/group/SKILL.md", "skills/root.md"]
        )
    );
}

#[test]
fn manifest_prompt_and_theme_directories_are_recursive() {
    let mut disk = Disk::new();
    for (at, body) in [
        ("prompt-pack/root.md", "root"),
        ("prompt-pack/nested/deep.md", "deep"),
        ("theme-pack/root.json", "{}"),
        ("theme-pack/nested/deep.json", "{}"),
        ("theme-pack/nested/not-theme.md", "ignored"),
        (
            "package.json",
            r#"{
                "name":"recursive-demo",
                "pi":{"prompts":["prompt-pack"],"themes":["theme-pack"]}
            }"#,
        ),
    ] {
        disk.file(&format!("/t/pkg/{at}"), body);
    }
    let (resources, fs) = discovered(&disk, &["/t/pkg"]);
    assert_eq!(
        texts(&resources.prompt_dirs()),
        under("/t/pkg", &["prompt-pack/nested/deep.md", "prompt-pack/root.md"])
    );
    assert_eq!(
        texts(&resources.theme_files(&fs)),
        under("/t/pkg", &["theme-pack/nested/deep.json", "theme-pack/root.json"])
    );
}

#[test]
fn searches_reach_the_deepest_directory_and_pass_each_once() {
    let mut disk = Disk::new();
    let deep = (0..40).map(|n| format!("d{n}")).collect::<Vec<_>>().join("/");
    disk.file(&format!("/t/pkg/prompts/{deep}/end.md"), "end");
    disk.link(&format!("/t/pkg/prompts/{deep}/again"), "/t/pkg/prompts");
    disk.file("/t/pkg/package.json", r#"{"name":"deep-demo"}"#);
    let package = load(&disk, "/t/pkg", "/t/pkg").ok().unwrap();
    assert_eq!(
        texts(&package.prompts),
        under("/t/pkg", &[format!("prompts/{deep}/end.md").as_str()])
    );
}

#[test]
fn manifest_resource_paths_cannot_escape_the_package() {
    let mut disk = Disk::new();
    disk.file("/t/outside/outside.ts", "export default () => {};");
    disk.file(
        "/t/pkg/package.json",
        r#"{"name":"escape-demo","pi":{"extensions":["../outside/outside.ts","../outside/*.ts"]}}"#,
    );
    let package = load(&disk, "/t/pkg", "/t/pkg").ok().unwrap();
    assert!(package.extensions.is_empty());
}

#[test]
fn manifest_resource_symlink_escape_is_rejected() {
    let mut disk = Disk::new();
    disk.file("/t/outside.ts", "export default () => {};");
    disk.link("/t/pkg/linked.ts", "/t/outside.ts");
    disk.file(
        "/t/pkg/package.json",
        r#"{"name":"symlink-demo","pi":{"extensions":["linked.ts"]}}"#,
    );
    let package = load(&disk, "/t/pkg", "/t/pkg").ok().unwrap();
    assert!(package.extensions.is_empty());
}

#[test]
fn resolves_package_json_spec_and_deduplicates() {
    let mut disk = Disk::new();
    disk.file("/t/pkg/package.json", r#"{"name":"demo"}"#);
    let (resources, _) = discovered(&disk, &["/t/pkg/package.json", "/t/pkg"]);
    assert_eq!(resources.packages.len(), 1);
    assert!(resources.diagnostics.is_empty());
}

#[test]
fn bare_package_name_prefers_project_rpi_store_over_legacy_pi_store() {
    let mut disk = Disk::new();
    disk.dir("/t/.rpi/packages/demo/skills");
    disk.dir("/t/.pi/packages/demo/skills");
    disk.file("/t/.rpi/packages/demo/package.json", r#"{"name":"rpi-demo","version":"rpi"}"#);
    disk.file("/t/.pi/packages/demo/package.json", r#"{"name":"pi-demo","version":"pi"}"#);
    let (resources, _) = discovered(&disk, &["demo"]);
    assert_eq!(resources.packages.len(), 1);
    assert_eq!(resources.packages[0].root.to_text(), "/t/.rpi/packages/demo");
    assert_eq!(resources.packages[0].version.as_deref(), Some("rpi"));
}

#[test]
fn npm_scoped_spec_resolves_installed_safe_name() {
    let mut disk = Disk::new();
    let root = "/t/.rpi/packages/narumitw__pi-btw";
    disk.file(
        &format!("{root}/package.json"),
        r#"{"name":"@narumitw/pi-btw","version":"0.58.1"}"#,
    );
    disk.marker(root, "npm:@narumitw/pi-btw");
    let (resources, _) = discovered(&disk, &["npm:@narumitw/pi-btw"]);
    assert_eq!(resources.packages.len(), 1);
    assert!(resources.diagnostics.is_empty());
    assert_eq!(resources.packages[0].name, "@narumitw/pi-btw");
    assert_eq!(package_store_key("@narumitw/pi-btw"), "narumitw__pi-btw");
}

#[test]
fn npm_scoped_spec_resolves_project_store_and_versioned_spec() {
    let mut disk = Disk::new();
    let root = "/t/.pi/npm/node_modules/@scope/demo";
    disk.file(&format!("{root}/package.json"), r#"{"name":"@scope/demo","version":"1.2.3"}"#);
    for spec in ["npm:@scope/demo", "npm:@scope/demo@1.2.3"] {
        let (resources, _) = discovered(&disk, &[spec]);
        assert!(resources.diagnostics.is_empty(), "spec={spec}");
        assert_eq!(resources.packages[0].root.to_text(), root, "spec={spec}");
    }
}

#[test]
fn npm_store_detection_is_bounded_to_the_configured_agent_root() {
    let mut disk = Disk::new();
    let package = "/t/real-agent/npm/node_modules/@scope/demo";
    let impostor = "/t/workspace/agent/npm/node_modules/@scope/demo";
    let nested = "/t/real-agent/npm/node_modules/@scope/demo/node_modules/dependency";
    disk.dir(package);
    disk.dir(impostor);
    disk.dir(nested);
    let fs = disk.tree();
    let places = places("/t", "/t/real-agent");
    let root_of =
        |at: &str| npm_install_root_for_path(&fs, &places, &path(at), ResolveScope::Any);
    assert_eq!(root_of(package).map(|p| p.to_text()).as_deref(), Some("/t/real-agent/npm"));
    assert!(root_of(impostor).is_none());
    assert!(root_of("/t/real-agent/npm/node_modules").is_none());
    assert!(root_of(nested).is_none());
}

#[test]
fn legacy_global_npm_is_discovered_but_updates_only_in_managed_store() {
    let mut disk = Disk::new();
    let global = "/t/legacy-global/node_modules/demo";
    disk.dir("/t/agent");
    disk.dir("/t/project");
    disk.file(&format!("{global}/package.json"), r#"{"name":"demo","version":"1.0.0"}"#);
    disk.file(&format!("{global}/extensions/index.js"), "export default () => {};");
    let fs = disk.tree();
    let places = places("/t/project", "/t/agent");
    let legacy = [LegacyPackage { name: "demo".to_string(), path: path(global) }];
    let resolved =
        resolve_spec_with_legacy_lookup(&fs, &places, "npm:demo", ResolveScope::User, &legacy)
            .unwrap();
    assert_eq!(resolved.root.to_text(), global);
    assert_eq!(
        resolved.legacy_npm_root.as_ref().map(|p| p.to_text()).as_deref(),
        Some("/t/legacy-global/node_modules")
    );
    let package = load_package_with_legacy_root(
        &fs,
        &places,
        resolved.root,
        "npm:demo",
        ResolveScope::User,
        None,
        resolved.legacy_npm_root,
    )
    .ok()
    .unwrap();
    assert_eq!(updateable_npm_source(&package).map(|(name, _)| name), Some("demo"));
    assert!(package.npm_install_root.is_none());
    let update_root = npm_store_root_for_update(&package, &places, false).unwrap().unwrap();
    assert_eq!(update_root.to_text(), "/t/agent/npm");
    assert_ne!(update_root.to_text(), "/t/legacy-global/node_modules");
    assert!(!is_managed_package_path(&fs, &places, &path(global), ResolveScope::User));
}

#[test]
fn static_managed_npm_precedes_legacy_lookup() {
    let mut disk = Disk::new();
    let package = "/t/agent/npm/node_modules/demo";
    disk.file(&format!("{package}/package.json"), r#"{"name":"demo"}"#);
    disk.file("/t/legacy/node_modules/demo/package.json", r#"{"name":"demo"}"#);
    let legacy =
        [LegacyPackage { name: "demo".to_string(), path: path("/t/legacy/node_modules/demo") }];
    let resolved = resolve_spec_with_legacy_lookup(
        &disk.tree(),
        &places("/t", "/t/agent"),
        "npm:demo",
        ResolveScope::User,
        &legacy,
    )
    .unwrap();
    assert_eq!(resolved.root.to_text(), package);
    assert!(resolved.legacy_npm_root.is_none());
}

#[test]
fn legacy_global_lookup_is_never_used_for_project_scope() {
    let mut disk = Disk::new();
    disk.file("/t/legacy/node_modules/demo/package.json", r#"{"name":"demo"}"#);
    let legacy =
        [LegacyPackage { name: "demo".to_string(), path: path("/t/legacy/node_modules/demo") }];
    let resolved = resolve_spec_with_legacy_lookup(
        &disk.tree(),
        &places("/t/project", "/t/no-agent"),
        "npm:demo",
        ResolveScope::Project,
        &legacy,
    );
    assert!(resolved.is_none());
}

fn load_legacy(manifest: &str) -> String {
    let mut disk = Disk::new();
    disk.file("/t/legacy/node_modules/demo/package.json", manifest);
    load_package_with_legacy_root(
        &disk.tree(),
        &places("/t", "/t/no-agent"),
        path("/t/legacy/node_modules/demo"),
        "npm:demo",
        ResolveScope::User,
        None,
        Some(path("/t/legacy/node_modules")),
    )
    .err()
    .unwrap()
}

#[test]
fn legacy_manifest_name_mismatch_blocks_package_loading() {
    let error = load_legacy(r#"{"name":"other","version":"1.0.0"}"#);
    assert!(error.contains("manifest name `other`"), "{error}");
    assert!(error.contains("configured package `demo`"), "{error}");
}

#[test]
fn legacy_npm_without_manifest_identity_blocks_package_loading() {
    let error = load_legacy(r#"{"version":"1.0.0"}"#);
    assert!(error.contains("has no string package name"), "{error}");
    assert!(error.contains("expected `demo`"), "{error}");
}

#[test]
fn filtered_package_entries_apply_only_the_requested_resources() {
    let mut disk = Disk::new();
    let root = "/t/agent/packages/demo";
    disk.file(&format!("{root}/extensions/index.js"), "export default () => {};");
    disk.file(&format!("{root}/skills/review.md"), "review");
    disk.file(&format!("{root}/package.json"), r#"{"name":"demo","version":"1.0.0"}"#);
    disk.marker(root, "npm:demo@beta");
    let mut entry = filter("npm:demo@beta");
    entry.autoload = Some(false);
    entry.extensions = Some(vec!["+extensions/index.js".to_string()]);
    let mut world = World::new(&disk, "/t", "/t/agent");
    world.user =
        Ok(Settings { packages: Some(vec![PackageSetting::Filtered(entry)]), npm_command: None });

    let resources = discover_from_global_settings(&world.workspace());
    assert_eq!(resources.packages.len(), 1);
    assert!(is_npm_source(&resources.packages[0], "demo", "npm:demo@beta"));
    assert_eq!(texts(&resources.extension_paths()), under(root, &["extensions/index.js"]));
    assert!(resources.skill_dirs().is_empty());
    assert!(resources.diagnostics.is_empty());
}

#[test]
fn filtered_package_entries_do_not_disable_other_resource_kinds() {
    let mut disk = Disk::new();
    let root = "/t/package";
    for (at, body) in [
        ("extensions/a.js", "export default () => {};"),
        ("skills/keep.md", "keep"),
        ("skills/drop.md", "drop"),
        ("prompts/one.md", "one"),
        ("themes/one.json", "{}"),
        ("package.json", r#"{"name":"demo"}"#),
    ] {
        disk.file(&format!("{root}/{at}"), body);
    }
    let mut wanted = filter(root);
    wanted.extensions = Some(Vec::new());
    wanted.skills = Some(vec!["skills/keep.md".to_string()]);
    let package =
        load_at(&disk, "/t", root, root, ResolveScope::Any, Some(&wanted)).ok().unwrap();
    assert!(package.extensions.is_empty());
    assert_eq!(texts(&package.skills), under(root, &["skills/keep.md"]));
    assert_eq!(texts(&package.prompts), under(root, &["prompts/one.md"]));
    assert_eq!(texts(&package.themes), under(root, &["themes/one.json"]));
}

#[test]
fn project_autoload_delta_keeps_matching_global_package_resources() {
    let mut disk = Disk::new();
    let root = "/t/shared-package";
    disk.file(&format!("{root}/extensions/a.js"), "export default () => {}; ");
    disk.file(&format!("{root}/extensions/b.js"), "export default () => {}; ");
    disk.file(&format!("{root}/package.json"), r#"{"name":"shared"}"#);
    disk.dir("/t/agent");
    disk.dir("/t/project/.rpi");
    let spec = format!("file:{root}");
    let mut delta = filter(&spec);
    delta.autoload = Some(false);
    delta.extensions = Some(vec!["+extensions/a.js".to_string()]);
    let mut world = World::new(&disk, "/t/project", "/t/agent");
    world.user = Ok(settings(&[&spec]));
    world.project =
        vec![Settings { packages: Some(vec![PackageSetting::Filtered(delta)]), npm_command: None }];

    let resources = discover_from_settings(&world.workspace());
    assert_eq!(resources.packages.len(), 1);
    assert!(!resources.packages[0].autoload_delta);
    assert_eq!(resources.extension_paths().len(), 2);
}

#[test]
fn configured_packages_with_same_manifest_name_keep_distinct_local_roots() {
    let mut disk = Disk::new();
    for root in ["/t/first", "/t/second"] {
        disk.file(&format!("{root}/skills/item.md"), "item");
        disk.file(&format!("{root}/package.json"), r#"{"name":"same"}"#);
    }
    disk.dir("/t/agent");
    disk.dir("/t/project/.rpi");
    let mut world = World::new(&disk, "/t/project", "/t/agent");
    world.user = Ok(settings(&["file:/t/second"]));
    world.project = vec![settings(&["file:/t/first"])];
    let resources = discover_from_settings(&world.workspace());
    assert_eq!(resources.packages.len(), 2);
    assert_eq!(resources.packages[0].root.to_text(), "/t/first");
    assert_eq!(resources.packages[1].root.to_text(), "/t/second");
}

#[test]
fn project_relative_package_paths_resolve_from_pi_config_directory() {
    let mut disk = Disk::new();
    let root = "/t/project/.pi/packages/demo";
    disk.dir("/t/agent");
    disk.file(&format!("{root}/skills/item.md"), "item");
    disk.file(&format!("{root}/package.json"), r#"{"name":"demo"}"#);
    let mut world = World::new(&disk, "/t/project", "/t/agent");
    world.project = vec![settings(&["./packages/demo"])];
    let resources = discover_from_settings(&world.workspace());
    assert_eq!(resources.packages.len(), 1);
    assert!(resources.packages[0].root.same(&path(root)));
    assert_eq!(resources.packages[0].root.to_text(), "/t/project/.pi/./packages/demo");
    assert_eq!(texts(&resources.skill_dirs()), under(root, &["skills/item.md"]));
}

#[test]
fn native_git_sources_resolve_only_inside_pi_git_store() {
    let mut disk = Disk::new();
    let root = "/t/project/.pi/git/github.com/example/repo";
    disk.dir("/t/agent");
    disk.dir(&format!("{root}/.git"));
    disk.file(&format!("{root}/skills/item.md"), "item");
    disk.file(&format!("{root}/package.json"), r#"{"name":"repo"}"#);
    let mut world = World::new(&disk, "/t/project", "/t/agent");
    world.project = vec![settings(&["git:https://github.com/example/repo.git@main"])];
    let resources = discover_from_settings(&world.workspace());
    assert_eq!(resources.packages.len(), 1);
    assert!(matches!(resources.packages[0].source, PackageSource::Git));
    assert_eq!(resources.packages[0].git_revision.as_deref(), Some("main"));
}

#[test]
fn pinned_git_packages_are_selected_for_manual_updates() {
    let mut disk = Disk::new();
    let root = "/t/.pi/git/github.com/example/repo";
    disk.dir(&format!("{root}/.git"));
    disk.file(&format!("{root}/package.json"), r#"{"name":"repo"}"#);
    let package =
        load(&disk, root, "git:github.com/example/repo@feature/branch").ok().unwrap();
    assert!(matches!(package.source, PackageSource::Git));
    assert_eq!(package.git_revision.as_deref(), Some("feature/branch"));
    assert!(updateable_git_source(&package));
}

#[test]
fn missing_npm_update_targets_use_native_managed_roots_and_keep_pins() {
    let places = places("/t/project", "/t/agent");
    let project =
        missing_package_for_update(&places, "npm:@scope/demo@beta", ResolveScope::Project, None)
            .ok()
            .unwrap()
            .unwrap();
    assert!(project.missing_install);
    assert_eq!(project.name, "@scope/demo");
    assert_eq!(project.root.to_text(), "/t/project/.pi/npm/node_modules/@scope/demo");
    assert_eq!(
        project.npm_install_root.as_ref().map(|p| p.to_text()).as_deref(),
        Some("/t/project/.pi/npm")
    );
    assert!(is_npm_source(&project, "@scope/demo", "npm:@scope/demo@beta"));

    let user = missing_package_for_update(&places, "npm:demo@1.2.3", ResolveScope::User, None)
        .ok()
        .unwrap()
        .unwrap();
    assert_eq!(user.root.to_text(), "/t/agent/npm/node_modules/demo");
    assert_eq!(
        user.npm_install_root.as_ref().map(|p| p.to_text()).as_deref(),
        Some("/t/agent/npm")
    );
    assert!(is_npm_source(&user, "demo", "npm:demo@1.2.3"));
}

#[test]
fn missing_git_update_target_preserves_ref_and_scope() {
    let mut places = places("/t/project", "/t/agent");
    places.home = Some(path("/home/user"));
    let spec = "git:github.com/example/repo@feature/branch";
    let project = missing_package_for_update(&places, spec, ResolveScope::Project, None)
        .ok()
        .unwrap()
        .unwrap();
    assert!(project.missing_install);
    assert!(updateable_git_source(&project));
    assert_eq!(project.name, "repo");
    assert_eq!(project.root.to_text(), "/t/project/.pi/git/github.com/example/repo");
    assert_eq!(
        project.git_store_root.as_ref().map(|p| p.to_text()).as_deref(),
        Some("/t/project/.pi/git")
    );
    assert_eq!(project.git_revision.as_deref(), Some("feature/branch"));
    assert_eq!(
        texts(&update_recovery_targets(&places, spec, ResolveScope::Project)),
        under(
            "/t/project",
            &[".rpi/git/github.com/example/repo", ".pi/git/github.com/example/repo"]
        )
    );

    let other = "https://github.com/example/other.git@release/v2";
    let user = missing_package_for_update(&places, other, ResolveScope::User, None)
        .ok()
        .unwrap()
        .unwrap();
    assert_eq!(user.root.to_text(), "/t/agent/git/github.com/example/other");
    assert_eq!(
        user.git_store_root.as_ref().map(|p| p.to_text()).as_deref(),
        Some("/t/agent/git")
    );
    assert_eq!(user.git_revision.as_deref(), Some("release/v2"));
    assert_eq!(
        texts(&update_recovery_targets(&places, other, ResolveScope::User)),
        vec![
            "/t/agent/git/github.com/example/other".to_string(),
            "/home/user/.pi/agent/git/github.com/example/other".to_string(),
        ]
    );
}

fn look<'a>(world: &'a World, scope: ResolveScope, recover: bool) -> Lookup<'a> {
    Lookup {
        fs: &world.fs,
        places: &world.places,
        scope,
        recover,
        recovery_failures: &[],
        legacy: &world.legacy,
    }
}

#[test]
fn update_discovery_represents_missing_registry_and_git_sources_only() {
    let mut disk = Disk::new();
    disk.dir("/t/project");
    let world = World::new(&disk, "/t/project", "/t/no-agent");
    let entries: Vec<PackageSetting> = [
        "npm:demo@latest",
        "npm:fixed@1.2.3",
        "git:github.com/example/repo@main",
        "file:missing-local",
    ]
    .iter()
    .map(|source| PackageSetting::Source(source.to_string()))
    .collect();
    let resources =
        discover_with_scope_and_command(&look(&world, ResolveScope::Project, true), &entries);
    assert_eq!(resources.packages.len(), 3);
    assert!(resources.packages.iter().all(|package| package.missing_install));
    assert!(resources.diagnostics.is_empty());

    let ordinary =
        discover_with_scope_and_command(&look(&world, ResolveScope::Project, false), &entries);
    assert!(ordinary.packages.is_empty());
    assert_eq!(ordinary.diagnostics.len(), entries.len());
}

#[test]
fn git_metadata_requires_a_real_directory() {
    let mut disk = Disk::new();
    disk.file("/t/.git", "gitdir: ../outside/.git\n");
    assert!(!disk.tree().is_real_dir(&path("/t/.git")));
    disk.nodes.remove("/t/.git");
    disk.dir("/t/.git");
    assert!(disk.tree().is_real_dir(&path("/t/.git")));
    disk.link("/t/linked", "/t/.git");
    assert!(!disk.tree().is_real_dir(&path("/t/linked")));
}

#[test]
fn marker_source_updates_ranges_and_tags_but_skips_exact_versions() {
    let root = "/t/.rpi/packages/demo";
    for (source_spec, updateable) in [
        ("npm:demo@1.0.0", false),
        ("npm:demo@1.0.0-beta.1", false),
        ("npm:demo@^1", true),
        ("npm:demo@latest", true),
        ("npm:demo@beta", true),
        ("npm:demo", true),
    ] {
        let mut disk = Disk::new();
        disk.file(&format!("{root}/package.json"), r#"{"name":"demo","version":"1.0.0"}"#);
        disk.marker(root, source_spec);
        let package = load(&disk, root, &format!("file:{root}")).ok().unwrap();
        assert_eq!(
            updateable_npm_source(&package).is_some(),
            updateable,
            "source_spec={source_spec}"
        );
    }
}

#[test]
fn explicit_npm_in_ordinary_node_modules_is_never_updateable() {
    let mut disk = Disk::new();
    let root = "/t/node_modules/demo";
    disk.file(&format!("{root}/package.json"), r#"{"name":"demo","version":"1.0.0"}"#);
    disk.marker(root, "npm:demo");
    let package = load(&disk, root, "npm:demo").ok().unwrap();
    assert!(matches!(package.source, PackageSource::Unknown));
    assert!(updateable_npm_source(&package).is_none());
}

#[test]
fn managed_npm_marker_must_match_manifest_name() {
    let mut disk = Disk::new();
    let root = "/t/.rpi/packages/demo";
    disk.file(&format!("{root}/package.json"), r#"{"name":"demo"}"#);
    disk.marker(root, "npm:other");
    let package = load(&disk, root, &format!("file:{root}")).ok().unwrap();
    assert!(matches!(package.source, PackageSource::Local));
}

#[test]
fn explicit_npm_source_must_match_marker_and_manifest() {
    let mut disk = Disk::new();
    let root = "/t/.rpi/packages/demo";
    disk.file(&format!("{root}/package.json"), r#"{"name":"demo"}"#);
    disk.marker(root, "npm:demo@beta");
    let matching = load(&disk, root, "npm:demo@beta").ok().unwrap();
    assert!(is_npm_source(&matching, "demo", "npm:demo@beta"));
    let wrong_name = load(&disk, root, "npm:other@beta").err().unwrap();
    assert!(wrong_name.contains("manifest name `demo`"), "{wrong_name}");
    let wrong_selector = load(&disk, root, "npm:demo@^1").err().unwrap();
    assert!(wrong_selector.contains("provenance"), "{wrong_selector}");
}

#[test]
fn managed_npm_alias_marker_target_mismatch_blocks_loading() {
    let mut disk = Disk::new();
    let root = "/t/.rpi/packages/alias";
    disk.file(&format!("{root}/package.json"), r#"{"name":"real","version":"1.2.3"}"#);
    disk.marker(root, "npm:alias@npm:other@^1");
    let error = load(&disk, root, "npm:alias@npm:real@^1").err().unwrap();
    assert!(error.contains("provenance"), "{error}");
}

#[test]
fn explicit_native_npm_without_manifest_identity_is_not_loadable() {
    let root = "/t/project/.pi/npm/node_modules/demo";
    let entries = vec![PackageSetting::Source("npm:demo".to_string())];
    for manifest in [None, Some(r#"{"version":"1.0.0"}"#)] {
        let mut disk = Disk::new();
        disk.file(&format!("{root}/extensions/index.js"), "export default () => {};");
        if let Some(manifest) = manifest {
            disk.file(&format!("{root}/package.json"), manifest);
        }
        let world = World::new(&disk, "/t/project", "/t/no-agent");
        let resources =
            discover_with_scope_and_command(&look(&world, ResolveScope::Project, false), &entries);
        assert!(resources.packages.is_empty(), "manifest={manifest:?}");
        assert!(resources.extension_paths().is_empty(), "manifest={manifest:?}");
        assert_eq!(resources.diagnostics.len(), 1, "manifest={manifest:?}");
        assert!(
            resources.diagnostics[0].message.contains("has no string package name"),
            "{}",
            resources.diagnostics[0].message
        );
    }
}

#[test]
fn managed_file_entry_remains_updateable_after_changing_cwd() {
    let mut disk = Disk::new();
    let root = "/t/project-a/.rpi/packages/demo";
    disk.dir("/t/project-b");
    disk.file(&format!("{root}/package.json"), r#"{"name":"demo","version":"1.0.0"}"#);
    disk.marker(root, "npm:demo@beta");
    let spec = format!("file:{root}");
    let package =
        load_at(&disk, "/t/project-b", root, &spec, ResolveScope::User, None).ok().unwrap();
    assert!(is_npm_source(&package, "demo", "npm:demo@beta"));
}

#[test]
fn legacy_file_entry_for_managed_git_clone_keeps_git_provenance() {
    let mut disk = Disk::new();
    let root = "/t/.rpi/packages/demo";
    disk.dir(&format!("{root}/.git"));
    disk.file(&format!("{root}/package.json"), r#"{"name":"demo"}"#);
    let package = load(&disk, root, &format!("file:{root}")).ok().unwrap();
    assert!(matches!(package.source, PackageSource::Git));
}

#[test]
fn native_scoped_npm_root_has_registry_provenance() {
    let mut disk = Disk::new();
    let root = "/t/.pi/agent/npm/node_modules/@scope/demo";
    disk.file(&format!("{root}/package.json"), r#"{"name":"@scope/demo","version":"1.0.0"}"#);
    let package = load_package_with_legacy_root(
        &disk.tree(),
        &places("/t", "/t/.pi/agent"),
        path(root),
        "@scope/demo",
        ResolveScope::Any,
        None,
        None,
    )
    .ok()
    .unwrap();
    assert_eq!(updateable_npm_source(&package).map(|(name, _)| name), Some("@scope/demo"));
}

#[test]
fn managed_npm_alias_keeps_provenance_and_rejects_manifest_mismatch() {
    let mut disk = Disk::new();
    let root = "/t/.pi/npm/node_modules/@scope/alias";
    disk.file(&format!("{root}/package.json"), r#"{"name":"@target/real","version":"1.2.3"}"#);
    let spec = "npm:@scope/alias@npm:@target/real@^1";
    let package = load_at(&disk, "/t", root, spec, ResolveScope::Project, None).ok().unwrap();
    assert_eq!(package.name, "@target/real");
    assert_eq!(package_identity(&disk.tree(), &package), "npm:@scope/alias");
    assert!(is_npm_source(&package, "@scope/alias", spec));

    disk.file(&format!("{root}/package.json"), r#"{"name":"@target/wrong","version":"1.2.3"}"#);
    let mismatched = load_at(&disk, "/t", root, spec, ResolveScope::Project, None).err().unwrap();
    assert!(mismatched.contains("manifest name `@target/wrong`"), "{mismatched}");
}

#[test]
fn runtime_npm_alias_matches_target_selector_and_pinning() {
    for (slot, target, version, selector, needs_install, pinned) in [
        ("exact-match", "real-exact-match", "1.2.3", "1.2.3", false, true),
        ("exact-stale", "real-exact-stale", "1.2.4", "1.2.3", true, true),
        ("range-match", "real-range-match", "1.9.0", "^1.2.3", false, false),
        ("range-stale", "real-range-stale", "2.0.0", "^1.2.3", true, false),
        ("tag", "real-tag", "1.0.0", "beta", false, false),
    ] {
        let mut disk = Disk::new();
        let root = format!("/t/.pi/npm/node_modules/{slot}");
        disk.file(
            &format!("{root}/package.json"),
            &format!("{{\"name\":\"{target}\",\"version\":\"{version}\"}}"),
        );
        let spec = format!("npm:{slot}@npm:{target}@{selector}");
        let package =
            load_at(&disk, "/t", &root, &spec, ResolveScope::Project, None).ok().unwrap();
        assert_eq!(runtime_npm_needs_install(&package), needs_install, "spec={spec}");
        assert_eq!(
            matches!(package.source, PackageSource::Npm { pinned: true, .. }),
            pinned,
            "spec={spec}"
        );
        assert_eq!(updateable_npm_source(&package).is_some(), !pinned, "spec={spec}");
    }
}

#[test]
fn runtime_missing_exact_npm_fails_closed_for_invalid_command() {
    let mut disk = Disk::new();
    disk.dir("/t/agent");
    disk.dir("/t/project");
    let mut world = World::new(&disk, "/t/project", "/t/agent");
    let mut user = settings(&["npm:demo@1.2.3"]);
    user.npm_command = Some(vec![String::new()]);
    world.user = Ok(user);
    let plan = match resolve_from_global_settings(&world.workspace()) {
        RuntimeStep::Install(plan) => plan,
        RuntimeStep::Ready(_) => panic!("the package is missing"),
    };
    assert_eq!(plan.npm_roots.len(), 1);
    assert_eq!(plan.npm_roots[0].root.to_text(), "/t/agent/npm");
    let error = NpmCommand::from_argv(Some(&[String::new()])).err().unwrap();
    let failures = refuse_plan(plan, &error);
    let resources = resolve_after_install(&world.workspace(), false, failures);
    assert!(resources.packages.is_empty());
    assert_eq!(resources.diagnostics.len(), 1);
    assert!(resources.diagnostics[0].message.contains("invalid npmCommand"));
}

fn stale_and_matching() -> World {
    let mut disk = Disk::new();
    for (name, version) in [("stale", "1.0.0"), ("matching", "1.5.0")] {
        let root = format!("/t/agent/npm/node_modules/{name}");
        disk.file(
            &format!("{root}/package.json"),
            &format!("{{\"name\":\"{name}\",\"version\":\"{version}\"}}"),
        );
        disk.file(&format!("{root}/extensions/index.js"), "export default () => {};");
    }
    disk.dir("/t/project");
    let mut world = World::new(&disk, "/t/project", "/t/agent");
    let mut user = settings(&["npm:stale@2.0.0", "npm:matching@^1.0.0"]);
    user.npm_command = Some(vec![String::new()]);
    world.user = Ok(user);
    world
}

#[test]
fn offline_runtime_quarantines_mismatched_npm_but_keeps_matching_range() {
    let world = stale_and_matching();
    let resources = resolve_offline_from_global_settings(&world.workspace());
    assert_eq!(resources.packages.len(), 1);
    assert_eq!(resources.packages[0].name, "matching");
    assert_eq!(resources.diagnostics.len(), 1);
    assert_eq!(resources.diagnostics[0].spec, "npm:stale@2.0.0");
    assert!(resources.diagnostics[0].message.contains("offline"));
}

#[test]
fn offline_runtime_never_invokes_configured_npm_for_legacy_lookup() {
    let mut disk = Disk::new();
    disk.dir("/t/agent");
    disk.dir("/t/project");
    disk.file(
        "/t/legacy/node_modules/missing-legacy-package/package.json",
        r#"{"name":"missing-legacy-package"}"#,
    );
    let mut world = World::new(&disk, "/t/project", "/t/agent");
    world.user = Ok(settings(&["npm:missing-legacy-package"]));
    world.legacy = vec![LegacyPackage {
        name: "missing-legacy-package".to_string(),
        path: path("/t/legacy/node_modules/missing-legacy-package"),
    }];
    let resources = resolve_offline_from_global_settings(&world.workspace());
    assert!(resources.packages.is_empty());
    assert_eq!(resources.diagnostics.len(), 1);
    assert_eq!(discover_from_global_settings(&world.workspace()).packages.len(), 1);
}

#[test]
fn runtime_rechecks_version_after_a_noop_package_manager_success() {
    let mut disk = Disk::new();
    disk.file(
        "/t/agent/npm/node_modules/demo/package.json",
        r#"{"name":"demo","version":"1.0.0"}"#,
    );
    disk.dir("/t/project");
    let mut world = World::new(&disk, "/t/project", "/t/agent");
    world.user = Ok(settings(&["npm:demo@2.0.0"]));
    let plan = match resolve_from_global_settings(&world.workspace()) {
        RuntimeStep::Install(plan) => plan,
        RuntimeStep::Ready(_) => panic!("the package is stale"),
    };
    let outcomes =
        RuntimeOutcomes { standalone: Vec::new(), npm_roots: vec![None], missing_git: Vec::new() };
    let failures = collect_failures(plan, &outcomes);
    assert!(failures.is_empty());
    let resources = resolve_after_install(&world.workspace(), false, failures);
    assert!(resources.packages.is_empty());
    assert_eq!(resources.diagnostics.len(), 1);
    assert!(resources.diagnostics[0].message.contains("still does not satisfy"));
}

#[test]
fn a_failed_installation_withholds_its_package() {
    let world = stale_and_matching();
    let plan = match resolve_from_global_settings(&world.workspace()) {
        RuntimeStep::Install(plan) => plan,
        RuntimeStep::Ready(_) => panic!("one package is stale"),
    };
    let outcomes = RuntimeOutcomes {
        standalone: Vec::new(),
        npm_roots: vec![Some("exit status: 1".to_string())],
        missing_git: Vec::new(),
    };
    let failures = collect_failures(plan, &outcomes);
    assert_eq!(failures.len(), 1);
    assert_eq!(failures[0].identity, "npm:stale");
    assert_eq!(failures[0].message, "could not restore npm package: exit status: 1");
    let resources = resolve_after_install(&world.workspace(), false, failures);
    assert_eq!(resources.packages.len(), 1);
    assert_eq!(resources.packages[0].name, "matching");
}

#[test]
fn global_npm_spec_cannot_be_shadowed_by_project_store_or_node_modules() {
    let mut disk = Disk::new();
    for root in [
        "/t/user-agent/npm/node_modules/demo",
        "/t/workspace/project/.rpi/packages/demo",
        "/t/workspace/node_modules/demo",
    ] {
        disk.file(&format!("{root}/package.json"), r#"{"name":"demo"}"#);
    }
    let mut world = World::new(&disk, "/t/workspace/project", "/t/user-agent");
    world.user = Ok(settings(&["npm:demo"]));
    let resources = discover_from_global_settings(&world.workspace());
    assert_eq!(resources.packages.len(), 1);
    assert_eq!(resources.packages[0].root.to_text(), "/t/user-agent/npm/node_modules/demo");
}

#[test]
fn files_below_the_working_directory_leave_global_resolution_alone() {
    let mut bare = Disk::new();
    bare.file("/t/agent/npm/node_modules/held/package.json", r#"{"name":"held","version":"1.2.0"}"#);
    bare.file("/t/agent/npm/node_modules/held/prompts/one.md", "one");
    bare.dir("/t/project");
    let mut full = Disk::new();
    full.file("/t/agent/npm/node_modules/held/package.json", r#"{"name":"held","version":"1.2.0"}"#);
    full.file("/t/agent/npm/node_modules/held/prompts/one.md", "one");
    for root in [
        "/t/project/.rpi/packages/held",
        "/t/project/.pi/npm/node_modules/held",
        "/t/project/node_modules/absent",
    ] {
        full.file(&format!("{root}/package.json"), r#"{"name":"held","version":"9.9.9"}"#);
        full.file(&format!("{root}/prompts/two.md"), "two");
    }
    let mut seen = Vec::new();
    for disk in [&bare, &full] {
        let mut world = World::new(disk, "/t/project", "/t/agent");
        world.user = Ok(settings(&["npm:held@^1.0.0", "npm:absent@2.0.0"]));
        let found = discover_from_global_settings(&world.workspace());
        assert_eq!(found.packages.len(), 1);
        assert_eq!(found.packages[0].root.to_text(), "/t/agent/npm/node_modules/held");
        let prompts = texts(&found.packages[0].prompts);
        let plan = match resolve_from_global_settings(&world.workspace()) {
            RuntimeStep::Install(plan) => plan,
            RuntimeStep::Ready(_) => panic!("one package is missing"),
        };
        assert_eq!(plan.npm_roots.len(), 1);
        seen.push((prompts, plan.npm_roots[0].root.to_text()));
    }
    assert_eq!(seen[0], seen[1]);
    assert_eq!(seen[0].1, "/t/agent/npm");
}

#[test]
fn what_is_loaded_is_installed_and_lies_within_its_package() {
    let mut disk = Disk::new();
    disk.file("/t/agent/npm/node_modules/held/package.json", r#"{"name":"held","version":"1.2.0"}"#);
    for name in ["b.md", "a.md", "c.md"] {
        disk.file(&format!("/t/agent/npm/node_modules/held/prompts/{name}"), name);
    }
    disk.file("/t/elsewhere/out.md", "out");
    disk.link("/t/agent/npm/node_modules/held/prompts/out.md", "/t/elsewhere/out.md");
    disk.dir("/t/project");
    let mut world = World::new(&disk, "/t/project", "/t/agent");
    let mut f = filter("npm:held@^1.0.0");
    f.prompts = Some(vec!["*.md".to_string(), "!c.md".to_string()]);
    world.user =
        Ok(Settings { packages: Some(vec![PackageSetting::Filtered(f)]), npm_command: None });
    let found = match resolve_from_global_settings(&world.workspace()) {
        RuntimeStep::Ready(found) => found,
        RuntimeStep::Install(_) => panic!("nothing is missing"),
    };
    assert_eq!(found.packages.len(), 1);
    assert!(!found.packages[0].missing_install);
    assert!(!runtime_npm_needs_install(&found.packages[0]));
    assert_eq!(
        texts(&found.packages[0].prompts),
        under("/t/agent/npm/node_modules/held/prompts", &["a.md", "b.md"])
    );
    world.user = Ok(settings(&["npm:held@2.0.0", "npm:absent"]));
    let loaded = resolve_after_install(&world.workspace(), false, Vec::new());
    assert!(loaded.packages.is_empty());
    assert_eq!(loaded.diagnostics.len(), 2);
}

#[test]
fn configured_project_and_user_packages_resolve_in_separate_scopes() {
    let mut disk = Disk::new();
    let project_root = "/t/project/.rpi/packages/demo";
    let user_root = "/t/user-agent/packages/demo";
    for root in [project_root, user_root] {
        disk.file(&format!("{root}/package.json"), r#"{"name":"demo","version":"1.0.0"}"#);
        disk.marker(root, "npm:demo");
    }
    let mut world = World::new(&disk, "/t/project", "/t/user-agent");
    world.user = Ok(settings(&["npm:demo"]));
    let user_only = discover_from_settings(&world.workspace());
    assert_eq!(user_only.packages.len(), 1);
    assert_eq!(user_only.packages[0].root.to_text(), user_root);

    world.project = vec![settings(&["npm:demo"])];
    let combined = discover_from_settings(&world.workspace());
    assert_eq!(combined.packages.len(), 1);
    assert_eq!(combined.packages[0].root.to_text(), project_root);
}

#[test]
fn update_discovery_keeps_same_identity_in_both_scopes() {
    let mut disk = Disk::new();
    let project_root = "/t/project/.pi/npm/node_modules/demo";
    let user_root = "/t/agent/npm/node_modules/demo";
    for root in [project_root, user_root] {
        disk.file(&format!("{root}/package.json"), r#"{"name":"demo","version":"1.0.0"}"#);
    }
    let mut world = World::new(&disk, "/t/project", "/t/agent");
    world.project = vec![settings(&["npm:demo@latest"])];
    world.user = Ok(settings(&["npm:demo@latest"]));
    let resources = world.for_update(true, &[]);
    assert_eq!(resources.packages.len(), 2);
    assert!(resources.packages.iter().any(|p| p.root.to_text() == project_root));
    assert!(resources.packages.iter().any(|p| p.root.to_text() == user_root));
}

#[test]
fn update_discovery_ignores_untrusted_project_settings_but_keeps_user_packages() {
    let mut disk = Disk::new();
    for (root, name) in [
        ("/t/agent/packages/user-demo", "user-demo"),
        ("/t/project/.rpi/packages/project-demo", "project-demo"),
    ] {
        disk.file(
            &format!("{root}/package.json"),
            &format!("{{\"name\":\"{name}\",\"version\":\"1.0.0\"}}"),
        );
        disk.marker(root, &format!("npm:{name}"));
    }
    let mut world = World::new(&disk, "/t/project", "/t/agent");
    world.user = Ok(settings(&["npm:user-demo"]));
    world.project = vec![settings(&["npm:project-demo"])];
    let untrusted = world.for_update(false, &[]);
    let trusted = world.for_update(true, &[]);
    assert_eq!(untrusted.packages.len(), 1);
    assert_eq!(untrusted.packages[0].name, "user-demo");
    assert_eq!(trusted.packages.len(), 2);
    assert_eq!(trusted.packages[0].name, "project-demo");
    assert_eq!(trusted.packages[1].name, "user-demo");
}

#[test]
fn update_discovery_recovers_missing_configured_target_and_cleans_stale_backup() {
    let mut disk = Disk::new();
    let target = "/t/project/.rpi/packages/demo";
    let backup_at = |mark: &str| {
        format!("/t/project/.rpi/packages/.demo.rpi-backup-000000000000000000000000000000{mark}")
    };
    disk.dir("/t/user-agent");
    disk.file(
        &format!("{}/package.json", backup_at("01")),
        r#"{"name":"demo","version":"1.0.0"}"#,
    );
    disk.marker(&backup_at("01"), "npm:demo@beta");
    let spec = format!("file:{target}");
    let world_of = |disk: &Disk| {
        let mut world = World::new(disk, "/t/project", "/t/user-agent");
        world.project = vec![settings(&[&spec])];
        world
    };

    let ordinary = discover_from_settings(&world_of(&disk).workspace());
    assert!(ordinary.packages.is_empty());
    assert!(disk.has(&backup_at("01")));
    assert!(!disk.has(target));

    let places = places("/t/project", "/t/user-agent");
    let mut failures = Vec::new();
    disk.recover_spec(&places, &spec, ResolveScope::Project, &mut failures);
    let recovered = world_of(&disk).for_update(true, &failures);
    assert_eq!(recovered.packages.len(), 1);
    assert_eq!(recovered.packages[0].root.to_text(), target);
    assert!(!disk.has(&backup_at("01")));

    disk.dir(&backup_at("02"));
    disk.recover_spec(&places, &spec, ResolveScope::Project, &mut failures);
    let visible = world_of(&disk).for_update(true, &failures);
    assert_eq!(visible.packages.len(), 1);
    assert!(!disk.has(&backup_at("02")));

    disk.rename(target, &backup_at("03"));
    disk.recover_spec(&places, &spec, ResolveScope::Project, &mut failures);
    let recovered_again = world_of(&disk).for_update(true, &failures);
    assert_eq!(recovered_again.packages.len(), 1);
    assert!(disk.has(target));
    assert!(!disk.has(&backup_at("03")));
    assert!(failures.is_empty());
}

#[test]
fn update_discovery_recovers_native_project_and_user_npm_targets() {
    let mut disk = Disk::new();
    let project_target = "/t/project/.pi/npm/node_modules/demo";
    let project_backup =
        "/t/project/.pi/npm/node_modules/.demo.rpi-backup-00000000000000000000000000000011";
    let user_target = "/t/user-agent/npm/node_modules/@scope/demo";
    let user_backup =
        "/t/user-agent/npm/node_modules/@scope/.demo.rpi-backup-00000000000000000000000000000012";
    for (backup, name) in [(project_backup, "demo"), (user_backup, "@scope/demo")] {
        disk.file(
            &format!("{backup}/package.json"),
            &format!("{{\"name\":\"{name}\",\"version\":\"1.0.0\"}}"),
        );
    }
    let world_of = |disk: &Disk| {
        let mut world = World::new(disk, "/t/project", "/t/user-agent");
        world.project = vec![settings(&["npm:demo"])];
        world.user = Ok(settings(&["npm:@scope/demo"]));
        world
    };
    let ordinary = discover_from_settings(&world_of(&disk).workspace());
    assert!(ordinary.packages.is_empty());
    assert!(disk.has(project_backup));
    assert!(disk.has(user_backup));

    let places = places("/t/project", "/t/user-agent");
    let mut failures = Vec::new();
    disk.recover_spec(&places, "npm:demo", ResolveScope::Project, &mut failures);
    disk.recover_spec(&places, "npm:@scope/demo", ResolveScope::User, &mut failures);
    let recovered = world_of(&disk).for_update(true, &failures);
    assert_eq!(recovered.packages.len(), 2);
    assert!(recovered.packages.iter().any(|p| p.root.to_text() == project_target));
    assert!(recovered.packages.iter().any(|p| p.root.to_text() == user_target));
    assert!(!disk.has(project_backup));
    assert!(!disk.has(user_backup));
}

#[test]
fn only_marked_names_are_backups() {
    let mark = "0123456789abcdef0123456789abcdef";
    assert!(is_backup("demo", &format!(".demo.rpi-backup-{mark}")));
    assert!(!is_backup("demo", &format!(".other.rpi-backup-{mark}")));
    assert!(!is_backup("demo", ".demo.rpi-backup-01"));
    assert!(!is_backup("demo", &format!(".demo.rpi-backup-{}", mark.to_uppercase())));
    assert!(matches!(
        plan_recovery("demo", false, &["demo2".to_string()]),
        Recovery::Nothing
    ));
}

#[test]
fn update_returns_failure_when_recovery_is_ambiguous() {
    let mut disk = Disk::new();
    let target = "/t/project/.rpi/packages/demo";
    for suffix in [1_u8, 2] {
        disk.file(
            &format!("/t/project/.rpi/packages/.demo.rpi-backup-{suffix:032x}/package.json"),
            r#"{"name":"demo"}"#,
        );
    }
    disk.dir("/t/user-agent");
    let spec = format!("file:{target}");
    let mut failures = Vec::new();
    let places = places("/t/project", "/t/user-agent");
    disk.recover_spec(&places, &spec, ResolveScope::Project, &mut failures);
    assert_eq!(failures.len(), 1);
    assert_eq!(
        failures[0].message,
        "found 2 interrupted updates of demo; keep one backup and remove the others"
    );
    assert!(!disk.has(target));
    let mut world = World::new(&disk, "/t/project", "/t/user-agent");
    world.project = vec![settings(&[&spec])];
    let resources = world.for_update(true, &failures);
    assert!(resources.packages.is_empty());
    assert!(resources.diagnostics.iter().any(|d| d.blocks_update));
    let plan = update_packages_with_scope(
        &world.fs,
        &world.places,
        true,
        false,
        Ok(Vec::new()),
        Ok((resources, true)),
    );
    assert_eq!(plan.code, Some(1));
    assert!(plan.steps.iter().all(|step| matches!(step, UpdateStep::Say(_))));
}

fn refused_settings(s: &UpdateSettings) -> (String, Option<i32>) {
    let error = update_command(s, true, Platform::Unix).err().unwrap();
    let disk = Disk::new();
    let plan = update_packages_with_scope(
        &disk.tree(),
        &places("/t/project", "/t/agent"),
        true,
        false,
        Ok(Vec::new()),
        Err(error.clone()),
    );
    assert!(plan.steps.iter().all(|step| matches!(step, UpdateStep::Say(_))));
    (error, plan.code)
}

#[test]
fn update_with_malformed_project_settings_performs_no_recovery() {
    let user = no_settings();
    let s = UpdateSettings { project: Err("expected value".to_string()), user: Ok(&user) };
    let (error, code) = refused_settings(&s);
    assert_eq!(error, "could not load project package settings: expected value");
    assert_eq!(code, Some(1));
    assert!(matches!(update_command(&s, false, Platform::Unix), Ok(None)));
}

#[test]
fn update_with_corrupt_native_registry_performs_no_ts_recovery() {
    let disk = Disk::new();
    let empty = PackageResources { packages: Vec::new(), diagnostics: Vec::new() };
    let plan = update_packages_with_scope(
        &disk.tree(),
        &places("/t/project", "/t/agent"),
        true,
        false,
        Err("key must be a string".to_string()),
        Ok((empty, false)),
    );
    assert_eq!(plan.code, Some(1));
    assert_eq!(plan.steps.len(), 1);
    assert!(matches!(
        &plan.steps[0],
        UpdateStep::Say(line) if line.error && line.text
            == "error: refusing native package update while metadata is invalid: key must be a string"
    ));
}

#[test]
fn update_with_malformed_global_settings_performs_no_project_recovery() {
    let project = settings(&["file:/t/project/.rpi/packages/demo"]);
    let s = UpdateSettings { project: Ok(Some(&project)), user: Err("expected value".to_string()) };
    let (error, code) = refused_settings(&s);
    assert_eq!(error, "could not load global package settings: expected value");
    assert_eq!(code, Some(1));
}

#[test]
fn update_with_invalid_npm_command_performs_no_recovery() {
    let mut project = settings(&["file:/t/project/.rpi/packages/demo"]);
    project.npm_command = Some(vec![String::new()]);
    let user = no_settings();
    let s = UpdateSettings { project: Ok(Some(&project)), user: Ok(&user) };
    let (error, code) = refused_settings(&s);
    assert!(error.starts_with("invalid npmCommand in active package settings: "), "{error}");
    assert_eq!(code, Some(1));
}

#[test]
fn native_and_pi_update_scopes_validate_only_their_own_metadata() {
    let disk = Disk::new();
    let run = |native: Result<Vec<NativePackage>, String>, pi: Result<bool, String>| {
        let empty = PackageResources { packages: Vec::new(), diagnostics: Vec::new() };
        update_packages_with_scope(
            &disk.tree(),
            &places("/t", "/t/agent"),
            false,
            false,
            native,
            pi.map(|found| (empty, found)),
        )
        .code
    };
    assert_eq!(run(Err("broken".to_string()), Ok(false)), Some(1));
    assert_eq!(run(Ok(Vec::new()), Ok(false)), Some(0));
    assert_eq!(run(Ok(Vec::new()), Err("malformed".to_string())), Some(1));
}

#[test]
fn package_update_accepts_offline_flag_and_skips_all_preflight() {
    let disk = Disk::new();
    let run = |offline: bool| {
        update_packages_with_scope(
            &disk.tree(),
            &places("/t", "/t/agent"),
            false,
            offline,
            Err("broken".to_string()),
            Err("malformed".to_string()),
        )
        .code
    };
    assert_eq!(run(true), Some(0));
    assert_eq!(run(false), Some(1));
}

#[test]
fn an_update_runs_what_it_planned() {
    let mut disk = Disk::new();
    disk.file(
        "/t/project/.pi/npm/node_modules/demo/package.json",
        r#"{"name":"demo","version":"1.0.0"}"#,
    );
    disk.file(
        "/t/project/.pi/npm/node_modules/fixed/package.json",
        r#"{"name":"fixed","version":"1.2.3"}"#,
    );
    let mut world = World::new(&disk, "/t/project", "/t/agent");
    world.project =
        vec![settings(&["npm:demo@latest", "npm:fixed@1.2.3", "git:github.com/example/repo@main"])];
    let resources = world.for_update(true, &[]);
    assert_eq!(resources.packages.len(), 3);
    let native = vec![
        NativePackage { name: "tool".to_string(), version: "1.0.0".to_string(), source: None },
        NativePackage {
            name: "local-tool".to_string(),
            version: "1.0.0".to_string(),
            source: Some("/src/local-tool".to_string()),
        },
    ];
    let plan = update_packages_with_scope(
        &world.fs,
        &world.places,
        true,
        false,
        Ok(native),
        Ok((resources, true)),
    );
    assert_eq!(plan.code, None);
    assert_eq!(plan.failed, 0);
    assert_eq!(plan.skipped, 2);
    let jobs: Vec<&UpdateJob> = plan
        .steps
        .iter()
        .filter_map(|step| match step {
            UpdateStep::Run(job) => Some(job),
            UpdateStep::Say(_) => None,
        })
        .collect();
    assert_eq!(jobs.len(), 3);
    assert!(matches!(jobs[0], UpdateJob::Native { name } if name == "tool"));
    assert!(matches!(
        jobs[1],
        UpdateJob::NpmRoot { root, installs }
            if root.to_text() == "/t/project/.pi/npm" && installs.len() == 1
                && installs[0].spec == "npm:demo@latest"
    ));
    assert!(matches!(jobs[2], UpdateJob::MissingGit { user_scope: false, .. }));
    let report = report_job(jobs[1], &None);
    assert_eq!((report.updated, report.failed), (1, 0));
    let report = report_job(jobs[1], &Some("exit status: 1".to_string()));
    assert_eq!((report.updated, report.failed), (0, 1));
    assert_eq!(finish_update(rpi::package_cli::UpdateScope::Pi, 2, 1, 0).1, 0);
    assert_eq!(finish_update(rpi::package_cli::UpdateScope::Pi, 1, 1, 1).1, 1);
}

#[test]
fn themes_are_found_by_name_in_enabled_packages() {
    let mut disk = Disk::new();
    disk.file("/t/pkg/package.json", r#"{"name":"demo"}"#);
    disk.file(
        "/t/pkg/themes/ocean.json",
        r##"{ // a comment
            "colors": {"accent": "#0a0b0c"}, "borderStyle": "double", "cornerStyle": "sharp"
        }"##,
    );
    disk.file("/t/pkg/themes/broken.json", "{");
    let (resources, fs) = discovered(&disk, &["/t/pkg"]);
    assert!(load_theme_with_resources(&fs, "ocean", &resources).is_ok());
    assert!(load_theme_with_resources(&fs, "/t/pkg/themes/ocean.json", &resources).is_ok());
    assert!(load_theme(&fs, "/t/pkg/themes/ocean.json").is_ok());
    assert_eq!(
        load_theme(&fs, "ocean").err().as_deref(),
        Some("theme `ocean` was not found in enabled packages")
    );
    let missing = load_theme_with_resources(&fs, "forest", &resources).err().unwrap();
    assert_eq!(missing, "theme `forest` was not found in enabled packages");
    let broken = load_theme_with_resources(&fs, "broken", &resources).err().unwrap();
    assert!(broken.starts_with("invalid theme /t/pkg/themes/broken.json: "), "{broken}");
}

#[test]
fn the_package_manager_is_asked_only_about_what_is_not_found() {
    let mut disk = Disk::new();
    disk.file("/t/agent/npm/node_modules/here/package.json", r#"{"name":"here"}"#);
    let world = World::new(&disk, "/t/project", "/t/agent");
    let entries = |specs: &[&str]| -> Vec<PackageSetting> {
        specs.iter().map(|s| PackageSetting::Source(s.to_string())).collect()
    };
    let user = look(&world, ResolveScope::User, false);
    assert!(legacy_names(&user, &entries(&["npm:here", "  ", "./gone"])).is_empty());
    assert_eq!(
        legacy_names(&user, &entries(&["npm:here", "npm:@s/gone@^1", "npm:here@2"])),
        vec!["here".to_string(), "@s/gone".to_string()]
    );
    let project = look(&world, ResolveScope::Project, false);
    assert!(legacy_names(&project, &entries(&["npm:gone"])).is_empty());
}

#[test]
fn packages_are_listed_as_a_document() {
    let mut disk = Disk::new();
    disk.file("/t/pkg/package.json", r#"{"name":"demo \"x\"","version":"1.0.0"}"#);
    disk.file("/t/pkg/skills/a.md", "a");
    let (resources, fs) = discovered(&disk, &["/t/pkg", "gone"]);
    let native = [NativePackage {
        name: "tool".to_string(),
        version: "2.0.0".to_string(),
        source: None,
    }];
    let shown = list_json(&fs, &resources, &native);
    let read: serde_json::Value = serde_json::from_str(&shown).unwrap();
    assert_eq!(read[0]["name"], "demo \"x\"");
    assert_eq!(read[0]["version"], "1.0.0");
    assert_eq!(read[0]["type"], "ts");
    assert_eq!(read[0]["root"], "/t/pkg");
    assert_eq!(read[0]["manifest"], "/t/pkg/package.json");
    assert_eq!(read[0]["skills"][0], "/t/pkg/skills/a.md");
    assert_eq!(read[0]["themes"], serde_json::Value::Array(Vec::new()));
    assert_eq!(read[1]["type"], "rust");
    assert_eq!(read[1]["source"], serde_json::Value::Null);
    assert_eq!(serde_json::to_string_pretty(&read).unwrap(), shown);

    let lines = list_report(&fs, &resources, &native, true);
    assert_eq!(lines.len(), 2);
    assert_eq!(lines[0].text, shown);
    assert!(lines[1].error);
    assert_eq!(
        lines[1].text,
        "warning: package gone: package path/name could not be resolved"
    );
    let plain = list_report(&fs, &resources, &native, false);
    assert_eq!(plain[0].text, "demo \"x\"@1.0.0 /t/pkg");
    assert_eq!(plain[1].text, "tool@2.0.0 [rust] crates.io");
}

#[test]
fn system_prompts_come_from_their_files_or_from_the_manifest() {
    let mut disk = Disk::new();
    disk.file("/t/a/package.json", r#"{"name":"a"}"#);
    disk.file("/t/a/SYSTEM.md", "system");
    disk.file("/t/a/APPEND_SYSTEM.md", "more");
    disk.file("/t/b/package.json", r#"{"name":"b","pi":{"systemPrompt":"s.md"}}"#);
    disk.file("/t/b/s.md", "system");
    let (resources, _) = discovered(&disk, &["/t/a", "/t/b"]);
    assert_eq!(texts(&resources.system_prompt_files()), vec!["/t/a/SYSTEM.md", "/t/b/s.md"]);
    assert_eq!(texts(&resources.append_system_prompt_files()), vec!["/t/a/APPEND_SYSTEM.md"]);
}
