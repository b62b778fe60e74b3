use rpi::git_source::{
    parse_git_source, percent_decode_for_validation, safe_git_install_part, safe_git_revision,
    split_git_ref, GitTransport,
};
use rpi::npm_spec::{
    package_name_without_version, parse_npm_package_spec, safe_npm_registry_selector,
    valid_npm_name,
};
use rpi::version::{is_exact_npm_version, npm_version_matches_requirement};

#[test]
fn git_sources_preserve_slash_refs_across_supported_transports() {
    let cases = [
        (
            "git:github.com/example/repo@feature/branch",
            "github.com",
            "example/repo",
            Some("feature/branch"),
        ),
        (
            "https://github.com/example/repo.git@feature/branch",
            "github.com",
            "example/repo",
            Some("feature/branch"),
        ),
        (
            "ssh://git@github.com/example/repo@release/v2",
            "github.com",
            "example/repo",
            Some("release/v2"),
        ),
        (
            "git://github.com/example/repo.git@refs/heads/main",
            "github.com",
            "example/repo",
            Some("refs/heads/main"),
        ),
        (
            "git:git@github.com:example/repo@hotfix/security",
            "github.com",
            "example/repo",
            Some("hotfix/security"),
        ),
    ];
    for (spec, host, path, revision) in cases {
        let parsed = parse_git_source(spec).unwrap_or_else(|| panic!("spec={spec}"));
        assert_eq!(parsed.host, host, "spec={spec}");
        assert_eq!(parsed.path, path, "spec={spec}");
        assert_eq!(parsed.revision.as_deref(), revision, "spec={spec}");
    }
}

#[test]
fn git_source_parser_rejects_encoded_traversal_and_unsafe_refs() {
    for spec in [
        "git:git@evil.example:../../victim/repo",
        "https://evil.example/..%2F..%2Fvictim/repo",
        "git:github.com/example/repo@../escape",
        "git:github.com/example/repo@-upload-pack=evil",
        "git:github.com/example/repo@feature\\branch",
        "git:github.com/example/repo@feature%2F..%2Fescape",
    ] {
        assert!(parse_git_source(spec).is_none(), "spec={spec}");
    }
}

#[test]
fn git_source_parser_preserves_remote_transport_authority() {
    let shorthand = parse_git_source("git:github.com/example/repo").unwrap();
    assert_eq!(shorthand.transport, GitTransport::Https);
    assert_eq!(shorthand.port, None);
    assert_eq!(shorthand.user_info, None);

    let https = parse_git_source("https://token@github.com:8443/example/repo.git").unwrap();
    assert_eq!(https.transport, GitTransport::Https);
    assert_eq!(https.port, Some(8443));
    assert_eq!(https.user_info.as_deref(), Some("token"));

    let scp = parse_git_source("git:git@github.com:example/repo").unwrap();
    assert_eq!(scp.transport, GitTransport::Ssh);
    assert_eq!(scp.port, None);
    assert_eq!(scp.user_info.as_deref(), Some("git"));

    assert_eq!(GitTransport::Https.default_port(), 443);
    assert_eq!(GitTransport::Ssh.default_port(), 22);

    for invalid in [
        "https://github.com:70000/example/repo",
        "https://user @github.com/example/repo",
    ] {
        assert!(parse_git_source(invalid).is_none(), "spec={invalid}");
    }
}

#[test]
fn git_hosts_are_lower_case_and_parts_stay_inside() {
    let parsed = parse_git_source("https://GitHub.COM/Example/Repo").unwrap();
    assert_eq!(parsed.host, "github.com");
    assert!(!safe_git_install_part("..", false));
    assert!(!safe_git_install_part("a/b", false));
    assert!(safe_git_install_part("a/b", true));
    assert!(safe_git_revision("feature/branch"));
    assert!(!safe_git_revision("-x"));
    assert_eq!(percent_decode_for_validation("a%2Fb").as_deref(), Some("a/b"));
    assert_eq!(percent_decode_for_validation("a%2"), None);
    assert_eq!(percent_decode_for_validation("%FF"), None);
    assert_eq!(split_git_ref("host/path@ref"), ("host/path", Some("ref")));
}

#[test]
fn exact_semver_and_npm_name_validation_are_conservative() {
    for version in ["1.2.3", "v1.2.3", "1.2.3-beta.1", "1.2.3+build"] {
        assert!(is_exact_npm_version(version), "version={version}");
    }
    for version in ["1", "1.2", "^1.2.3", "latest", "1.2.3-", "1.02.3"] {
        assert!(!is_exact_npm_version(version), "version={version}");
    }
    for name in [
        "-rf",
        "--workspace",
        "@scope/..",
        "@scope/a\\b",
        "@scope/a?b",
        "a b",
        "a#b",
    ] {
        assert!(!valid_npm_name(name), "name={name}");
    }
}

#[test]
fn npm_alias_parser_separates_install_slot_from_manifest_name() {
    for (spec, install_name, manifest_name, requested, target_selector) in [
        ("alias@npm:real", "alias", "real", "npm:real", None),
        (
            "npm:@scope/alias@npm:real@^1",
            "@scope/alias",
            "real",
            "npm:real@^1",
            Some("^1"),
        ),
        (
            "alias@npm:@target/real@beta",
            "alias",
            "@target/real",
            "npm:@target/real@beta",
            Some("beta"),
        ),
        (
            "@scope/alias@npm:@target/real@1.2.3",
            "@scope/alias",
            "@target/real",
            "npm:@target/real@1.2.3",
            Some("1.2.3"),
        ),
    ] {
        let parsed = parse_npm_package_spec(spec).unwrap_or_else(|| panic!("spec={spec}"));
        assert_eq!(parsed.install_name, install_name, "spec={spec}");
        assert_eq!(parsed.manifest_name, manifest_name, "spec={spec}");
        assert_eq!(parsed.requested.as_deref(), Some(requested), "spec={spec}");
        assert_eq!(
            parsed.target_selector.as_deref(),
            target_selector,
            "spec={spec}"
        );
        assert!(parsed.is_alias, "spec={spec}");
    }

    for spec in [
        "alias@npm:real@npm:other",
        "alias@file:../real",
        "alias@npm:real@file:../other",
        "alias@git:https://example.com/repo.git",
        "alias@npm:",
        "@scope/alias@npm:@target/real@npm:other",
        "alias@npm:real\nlatest",
    ] {
        assert!(parse_npm_package_spec(spec).is_none(), "spec={spec}");
    }
}

#[test]
fn space_round_a_spec_says_nothing() {
    let bare = parse_npm_package_spec("demo@^1").unwrap();
    for spec in [" demo@^1", "demo@^1 ", "npm: demo@^1 ", "npm:demo@^1"] {
        let parsed = parse_npm_package_spec(spec).unwrap_or_else(|| panic!("spec={spec}"));
        assert_eq!(parsed.install_name, bare.install_name, "spec={spec}");
        assert_eq!(parsed.requested, bare.requested, "spec={spec}");
    }
    assert_eq!(package_name_without_version("@scope/demo@1.2.3"), "@scope/demo");
    assert_eq!(package_name_without_version("demo@1.2.3"), "demo");
    assert!(safe_npm_registry_selector("^1", true));
    assert!(!safe_npm_registry_selector("file:x", true));
    assert!(safe_npm_registry_selector("npm:real", true));
    assert!(!safe_npm_registry_selector("npm:real", false));
}

#[test]
fn runtime_npm_version_matching_covers_native_common_ranges() {
    for (installed, requested, expected) in [
        (Some("1.2.3"), "1.2.3", Some(true)),
        (Some("1.2.4"), "1.2.3", Some(false)),
        (Some("1.9.0"), "^1.2.3", Some(true)),
        (Some("2.0.0"), "^1.2.3", Some(false)),
        (Some("1.2.9"), "~1.2.3", Some(true)),
        (Some("1.3.0"), "~1.2.3", Some(false)),
        (Some("1.2.9"), "1.2", Some(true)),
        (Some("1.3.0"), "1.2", Some(false)),
        (Some("1.5.0"), ">=1.2.0 <2.0.0", Some(true)),
        (Some("1.9.9"), ">= 2.0.0", Some(false)),
        (Some("2.0.0"), ">= 2.0.0", Some(true)),
        (Some("2.5.0"), ">= 2.0.0 < 3.0.0", Some(true)),
        (Some("3.0.0"), ">= 2.0.0 < 3.0.0", Some(false)),
        (Some("2.1.0"), "^1 || ^2", Some(true)),
        (Some("3.0.0"), "^1 || ^2", Some(false)),
        (Some("1.3.9"), "1.2 - 1.3", Some(true)),
        (Some("1.5.0"), "1.2.3 - 2.3.4", Some(true)),
        (Some("2.3.5"), "1.2.3 - 2.3.4", Some(false)),
        (Some("1.2.2"), "1.2.3 - 2.3.4", Some(false)),
        (Some("1.2.3-rc.1"), "1.2.3 - 2.3.4", Some(false)),
        (Some("1.4.0"), "1.2 - 1.3", Some(false)),
        (Some("2.9.0"), "1 - 2", Some(true)),
        (Some("3.0.0"), "1 - 2", Some(false)),
        (Some("1.0.0"), "latest", None),
        (None, "1.2.3", Some(false)),
    ] {
        assert_eq!(
            npm_version_matches_requirement(installed, requested),
            expected,
            "installed={installed:?}, requested={requested}"
        );
    }
}

#[test]
fn exact_versions_follow_the_version_library() {
    for text in [
        "1.2.3",
        "0.0.0",
        "1.2.3-alpha.1",
        "1.2.3-0.3.7",
        "1.2.3+build.5",
        "1.2.3-01",
        "1.2.3-",
        "1.2.3+",
        "01.2.3",
        "1.2",
        "1.2.3.4",
        "18446744073709551615.0.0",
    ] {
        let there = semver::Version::parse(text).is_ok();
        let installed = npm_version_matches_requirement(Some(text), "*");
        assert_eq!(is_exact_npm_version(text), there, "text={text}");
        if !there {
            assert_eq!(installed, Some(false), "text={text}");
        }
    }
}
