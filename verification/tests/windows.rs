use rpi::discovery::{update_recovery_targets, PackageSetting, Settings};
use rpi::npm_command::{parse_single_absolute_line_on, validate_global_root, NpmCommand, System};
use rpi::packages::{load_package_with_legacy_root, spec_candidates};
use rpi::paths::{FileKind, FsEntry, FsPath, FsTree};
use rpi::resources::{
    matches_resource_pattern, resolve_links, safe_resource_path_from, validated_resource_path,
    FilterResourceKind,
};
use rpi::runtime_plan::{discover_from_global_settings, Workspace};
use rpi::stores::{leads_to_itself, npm_install_root_for_path, Places, ResolveScope};
use rpi::theme::load_theme;

fn win(text: &str) -> FsPath {
    FsPath::parse_on(System::Windows, text)
}

fn shown(path: Option<FsPath>) -> Option<String> {
    path.map(|p| p.to_text())
}

fn parts(path: &FsPath) -> Vec<&str> {
    path.parts.iter().map(|part| part.as_str()).collect()
}

/// A tree of files and directories, each as it is written and as the system
/// spells it, which is behind `\\?\`. Each leads to itself.
fn tree(files: &[(&str, &str)]) -> FsTree {
    let mut entries: Vec<FsEntry> = Vec::new();
    for (at, text) in files {
        let spelled = format!(r"\\?\{at}");
        for whole in [win(at), win(&spelled)] {
            for n in 0..=whole.parts.len() {
                let here = whole.head(n);
                if let Some(parent) = here.parent() {
                    let name = here.parts[n - 1].clone();
                    for entry in entries.iter_mut() {
                        if entry.path.same(&parent) && !entry.children.contains(&name) {
                            entry.children.push(name.clone());
                        }
                    }
                }
                if entries.iter().any(|entry| entry.path.same(&here)) {
                    continue;
                }
                let last = n == whole.parts.len();
                entries.push(FsEntry {
                    path: here,
                    canonical: Some(win(&spelled).head(n)),
                    kind: if last { FileKind::File } else { FileKind::Directory },
                    link: false,
                    text: if last { Some(text.to_string()) } else { None },
                    unreadable: None,
                    children: Vec::new(),
                });
            }
        }
    }
    FsTree { entries }
}

fn lead(fs: &mut FsTree, at: &str, to: &str) {
    for entry in fs.entries.iter_mut() {
        if entry.path.same(&win(at)) {
            entry.canonical = Some(win(to));
        }
    }
}

#[test]
fn windows_paths_start_with_a_drive_a_share_or_a_device() {
    let disk = win(r"c:/a\.\b//c/");
    assert_eq!(disk.prefix, "C:");
    assert!(disk.rooted && disk.is_absolute());
    assert_eq!(parts(&disk), ["a", "b", "c"]);
    assert_eq!(disk.to_text(), r"c:/a\.\b//c/");
    assert!(disk.same(&win(r"C:\a\b\c")));

    let share = win(r"\\server\share\x\y");
    assert_eq!(share.prefix, r"\\server\share");
    assert!(share.is_absolute());
    assert_eq!(parts(&share), ["x", "y"]);
    assert_eq!(share.to_text(), r"\\server\share\x\y");
    assert_eq!(win("//server/share/x").prefix, r"\\server\share");

    let device = win(r"\\.\COM1\x");
    assert_eq!(device.prefix, r"\\.\COM1");
    assert!(device.is_absolute());

    let verbatim = win(r"\\?\c:\a\.\b");
    assert_eq!(verbatim.prefix, r"\\?\C:");
    assert_eq!(parts(&verbatim), ["a", ".", "b"]);
    assert_eq!(win(r"\\?\UNC\server\share\x").prefix, r"\\?\UNC\server\share");
    assert_eq!(win(r"\\?\Volume\x").prefix, r"\\?\Volume");
}

#[test]
fn windows_paths_without_a_drive_or_a_root_are_not_absolute() {
    let rooted = win(r"\a\b");
    assert!(rooted.rooted && !rooted.is_absolute());
    assert_eq!(rooted.to_text(), r"\a\b");
    let on_drive = win("C:a");
    assert!(!on_drive.rooted && !on_drive.is_absolute());
    assert_eq!(on_drive.to_text(), "C:a");
    let relative = win(r".\a\b/c");
    assert!(!relative.is_absolute());
    assert_eq!(parts(&relative), [".", "a", "b", "c"]);
    let server = win(r"\\server");
    assert!(server.rooted && !server.is_absolute());
    assert_eq!(parts(&server), ["server"]);
}

#[test]
fn drives_and_backslashes_are_names_on_unix() {
    let path = FsPath::parse_on(System::host(), r"C:\a/b");
    assert!(!path.is_absolute());
    assert_eq!(parts(&path), [r"C:\a", "b"]);
    assert_eq!(path.to_text(), r"C:\a/b");
    assert!(FsPath::parse_on(System::host(), "/a").is_absolute());
}

#[test]
fn a_start_of_its_own_takes_the_place_of_the_other() {
    let base = win(r"C:\a");
    assert_eq!(base.below("b/c").to_text(), r"C:\a\b/c");
    assert!(base.below("b/c").same(&win(r"C:\a\b\c")));
    assert_eq!(base.below(r".\b").to_text(), r"C:\a\.\b");
    assert!(base.below(r".\b").same(&win(r"C:\a\b")));
    assert_eq!(win(r"C:\a\").below("b").to_text(), r"C:\a\b");
    assert_eq!(win("C:").below("b").to_text(), "C:b");
    assert_eq!(win(r"\\?\c:\a\\").below("b/./c/../d").to_text(), r"\\?\c:\a\b\d");
    assert_eq!(win(r"\\?\C:\a").below(r"\x").to_text(), r"\\?\C:\x");
    assert_eq!(base.below(r"\x").to_text(), r"C:\x");
    assert_eq!(base.below("D:x").to_text(), "D:x");
    assert_eq!(base.below(r"D:\x").to_text(), r"D:\x");
    assert_eq!(base.below(r"\\s\h\x").to_text(), r"\\s\h\x");
}

#[test]
fn the_plain_form_has_no_verbatim_prefix() {
    assert_eq!(win(r"\\?\C:\a\b").plain().to_text(), r"C:\a\b");
    assert_eq!(win(r"\\?\UNC\server\share\a").plain().to_text(), r"\\server\share\a");
    assert_eq!(win(r"\\?\Volume\a").plain().to_text(), r"Volume\a");
    assert_eq!(win(r"C:\a").plain().to_text(), r"C:\a");
    let unix = FsPath::parse_on(System::host(), r"\\?\C:\a");
    assert!(unix.plain().same(&unix));
}

#[test]
fn containment_ignores_case_on_windows_alone() {
    assert!(win(r"c:\Users\ÄNNE\pkg\x").is_in(&win(r"C:\users\änne\PKG")));
    assert!(!win(r"C:\users\b").is_in(&win(r"C:\users\a")));
    assert!(!win(r"D:\users\a").is_in(&win(r"C:\users")));
    assert!(!win(r"C:\users\a").starts_with(&win(r"C:\Users")));
    let unix = |text: &str| FsPath::parse_on(System::host(), text);
    assert!(unix("/a/b").is_in(&unix("/a")));
    assert!(!unix("/A/b").is_in(&unix("/a")));
}

#[test]
fn manifest_entries_stay_within_the_package_on_windows() {
    let mut fs = tree(&[
        (r"C:\pkgs\demo\skills\a.md", "a"),
        (r"C:\pkgs\demo\skills\out.md", "out"),
        (r"C:\elsewhere\b.md", "b"),
    ]);
    let root = win(r"C:\pkgs\demo");
    let file = win(r"C:\pkgs\demo\skills\a.md");
    assert_eq!(
        shown(validated_resource_path(&fs, &root, &file)).as_deref(),
        Some(r"C:\pkgs\demo\skills\a.md")
    );
    lead(&mut fs, r"C:\pkgs\demo\skills\a.md", r"\\?\C:\PKGS\Demo\skills\a.md");
    assert_eq!(
        shown(validated_resource_path(&fs, &root, &file)).as_deref(),
        Some(r"C:\PKGS\Demo\skills\a.md")
    );
    lead(&mut fs, r"C:\pkgs\demo\skills\out.md", r"\\?\C:\elsewhere\b.md");
    let out = win(r"C:\pkgs\demo\skills\out.md");
    assert!(validated_resource_path(&fs, &root, &out).is_none());

    let entry = |value: &str| shown(safe_resource_path_from(&fs, &root, &root, value));
    assert_eq!(entry("skills/a.md").as_deref(), Some(r"C:\pkgs\demo\skills/a.md"));
    assert_eq!(entry(r"skills\a.md").as_deref(), Some(r"C:\pkgs\demo\skills\a.md"));
    assert_eq!(entry(r"\pkgs\demo\skills\a.md").as_deref(), Some(r"C:\pkgs\demo\skills\a.md"));
    assert!(entry(r"C:\pkgs\demo\skills\a.md").is_none());
    assert!(entry(r"\elsewhere\b.md").is_none());
    assert!(entry("C:skills").is_none());
    assert_eq!(resolve_links(&fs, &win(r"\\?\C:\absent")).to_text(), r"C:\absent");
    assert!(matches_resource_pattern(
        &fs,
        &file,
        &root,
        "skills/*.md",
        false,
        FilterResourceKind::Skills
    ));
}

#[test]
fn links_are_followed_to_their_plain_form_on_windows() {
    let mut fs = tree(&[(r"C:\agent\npm\node_modules\demo\package.json", "{}")]);
    let package = win(r"C:\agent\npm\node_modules\demo");
    assert!(leads_to_itself(&fs, &package));
    let places = Places { cwd: win(r"C:\work"), agent: Ok(win(r"C:\agent")), home: None };
    let root = |fs: &FsTree| {
        shown(npm_install_root_for_path(fs, &places, &package, ResolveScope::User))
    };
    assert_eq!(root(&fs).as_deref(), Some(r"\\?\C:\agent\npm"));
    lead(&mut fs, r"C:\agent\npm\node_modules\demo", r"\\?\C:\other\demo");
    assert!(!leads_to_itself(&fs, &package));
    assert!(root(&fs).is_none());
}

#[test]
fn packages_are_found_by_drive_on_windows() {
    let fs = tree(&[
        (r"C:\pkgs\demo\package.json", r#"{"name":"demo"}"#),
        (r"C:\pkgs\demo\prompts\one.md", "one"),
        (r"C:\work\x", ""),
    ]);
    let places = Places { cwd: win(r"C:\work"), agent: Ok(win(r"C:\agent")), home: None };
    let (found, _, _) = spec_candidates(&places, r"file:C:\pkgs\demo", ResolveScope::User).unwrap();
    assert_eq!(found.len(), 1);
    assert_eq!(found[0].to_text(), r"C:\pkgs\demo");
    assert_eq!(
        update_recovery_targets(&places, r"file:C:\pkgs\demo", ResolveScope::User)[0].to_text(),
        r"C:\pkgs\demo"
    );
    let package = load_package_with_legacy_root(
        &fs,
        &places,
        win(r"C:\pkgs\demo"),
        r"file:C:\pkgs\demo",
        ResolveScope::User,
        None,
        None,
    )
    .ok()
    .unwrap();
    assert_eq!(package.prompts.len(), 1);
    assert_eq!(package.prompts[0].to_text(), r"C:\pkgs\demo\prompts\one.md");
    let user = Ok(Settings {
        packages: Some(vec![PackageSetting::Source(r"C:\pkgs\demo".to_string())]),
        npm_command: None,
    });
    let all = discover_from_global_settings(&Workspace {
        fs: &fs,
        places: &places,
        project_settings: &[],
        user_settings: &user,
        recovery_failures: &[],
        legacy: &[],
    });
    assert_eq!(all.packages.len(), 1);
    assert_eq!(all.packages[0].name, "demo");
}

#[test]
fn global_roots_keep_the_form_of_the_system_on_windows() {
    let fs = tree(&[(r"C:\npm\node_modules\demo\package.json", "{}")]);
    assert_eq!(
        shown(parse_single_absolute_line_on(System::Windows, "C:\\npm\\node_modules\r\n"))
            .as_deref(),
        Some(r"C:\npm\node_modules")
    );
    assert!(parse_single_absolute_line_on(System::Windows, r"\npm\node_modules").is_none());
    assert!(parse_single_absolute_line_on(System::host(), r"C:\npm\node_modules").is_none());
}

#[test]
fn themes_are_read_by_drive_on_windows() {
    let fs = tree(&[(r"C:\themes\sea.json", "{}")]);
    assert!(load_theme(&fs, r"C:\themes\sea.json").is_ok());
    assert!(load_theme(&fs, "c:/themes/sea.json").is_ok());
    assert!(load_theme(&fs, "sea").is_err());
}

#[test]
fn windows_paths_come_in_the_order_of_their_parts() {
    let sorted = [
        r"\\?\Volume\a",
        r"\\?\UNC\server\share\a",
        r"\\?\C:\a",
        r"\\.\COM1\a",
        r"\\a\share\x",
        r"\\a-b\share\x",
        r"C:a",
        r"C:\a",
        r"C:\a\b",
        r"D:\a",
        r"\a",
        "a",
    ];
    for i in 0..sorted.len() {
        for j in 0..sorted.len() {
            let before = win(sorted[i]).comes_before(&win(sorted[j]));
            if sorted[i] == "C:a" && sorted[j].starts_with(r"C:\") {
                assert!(!before);
            } else if sorted[j] == "C:a" && sorted[i].starts_with(r"C:\") {
                assert!(before);
            } else {
                assert_eq!(before, i < j, "{} {}", sorted[i], sorted[j]);
            }
        }
    }
}

#[test]
fn a_name_with_a_backslash_is_matched_where_that_is_no_separator() {
    let unix = |text: &str| FsPath::parse_on(System::host(), text);
    let fs = FsTree { entries: Vec::new() };
    let root = unix("/pkg");
    let file = unix("/pkg/skills/a\\b.md");
    let hit = |pattern: &str| {
        matches_resource_pattern(&fs, &file, &root, pattern, false, FilterResourceKind::Skills)
    };
    if unix("a\\b").parts.len() == 1 {
        assert!(hit("a?b.md"));
        assert!(hit("a[!x]b.md"));
        assert!(!hit("a[a-z]b.md"));
        assert!(!hit("a??b.md"));
    }
    assert!(hit("b.md") != (unix("a\\b").parts.len() == 1));
}

#[test]
fn paths_are_shown_as_they_are_written() {
    let unix = |text: &str| FsPath::parse_on(System::host(), text);
    assert_eq!(unix("/a//b/./c/").to_text(), "/a//b/./c/");
    assert!(unix("/a//b/./c/").same(&unix("/a/b/c")));
    assert!(!unix("./a").same(&unix("a")));
    assert_eq!(unix("/a/").below("./b").to_text(), "/a/./b");
    assert_eq!(unix("/a").below("").to_text().len(), 3);
    assert_eq!(shown(unix("/a//b/./c/").parent()).as_deref(), Some("/a//b"));
    assert_eq!(shown(unix("//a").parent()).as_deref(), Some("/"));
    assert_eq!(shown(unix("a").parent()).as_deref(), Some(""));
    assert_eq!(shown(unix("/a/./b//c/").strip_prefix(&unix("/a"))).as_deref(), Some("b//c"));
    assert_eq!(shown(unix("/a/").strip_prefix(&unix("/a"))).as_deref(), Some(""));
    assert_eq!(shown(win(r"C:/a/.\b\").parent()).as_deref(), Some("C:/a"));
    assert_eq!(shown(win(r"C:\a").parent()).as_deref(), Some(r"C:\"));
    assert_eq!(shown(win(r"\\s\h\a").parent()).as_deref(), Some(r"\\s\h\"));
    assert_eq!(shown(win(r"C:\a\b/c").strip_prefix(&win("c:/a"))).as_deref(), Some("b/c"));
}
