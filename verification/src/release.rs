//! Releasing the crates of the workspace: what a release needs to hold, the
//! dry run, and the questions to the registry.
//!
//! Files, commands and the network are the caller's: what came of them is
//! handed in.

use vstd::prelude::*;
use vstd::utf8::encode_utf8;

use crate::git_source;
use crate::npm_command::Platform;
use crate::text;

verus! {

/// How many crates are released.
pub const CRATE_COUNT: usize = 9;

/// How many of them others depend on: all but the last.
pub const INTERNAL_COUNT: usize = 8;

/// The `i`th crate in the order of the release: its name, its manifest and
/// its directory.
pub open spec fn crate_of(i: int) -> (Seq<char>, Seq<char>, Seq<char>) {
    if i == 0 {
        ("rpi-telemetry"@, "crates/pi-telemetry/Cargo.toml"@, "crates/pi-telemetry"@)
    } else if i == 1 {
        ("rpi-ai"@, "crates/pi-ai/Cargo.toml"@, "crates/pi-ai"@)
    } else if i == 2 {
        ("rpi-agent"@, "crates/pi-agent/Cargo.toml"@, "crates/pi-agent"@)
    } else if i == 3 {
        ("rpi-plugin-sdk"@, "crates/rpi-plugin-sdk/Cargo.toml"@, "crates/rpi-plugin-sdk"@)
    } else if i == 4 {
        ("rpi-extensions"@, "crates/rpi-extensions/Cargo.toml"@, "crates/rpi-extensions"@)
    } else if i == 5 {
        ("rpi-tools"@, "crates/pi-tools/Cargo.toml"@, "crates/pi-tools"@)
    } else if i == 6 {
        ("rpi-harness"@, "crates/pi-harness/Cargo.toml"@, "crates/pi-harness"@)
    } else if i == 7 {
        ("rpi-tui"@, "crates/pi-tui/Cargo.toml"@, "crates/pi-tui"@)
    } else {
        ("rpi-cli"@, "crates/pi-cli/Cargo.toml"@, "crates/pi-cli"@)
    }
}

/// The `i`th crate in the order of the release: its name, its manifest and
/// its directory.
pub fn release_crate(i: usize) -> (r: (&'static str, &'static str, &'static str))
    requires
        i < CRATE_COUNT,
    ensures
        (r.0@, r.1@, r.2@) == crate_of(i as int),
{
    if i == 0 {
        ("rpi-telemetry", "crates/pi-telemetry/Cargo.toml", "crates/pi-telemetry")
    } else if i == 1 {
        ("rpi-ai", "crates/pi-ai/Cargo.toml", "crates/pi-ai")
    } else if i == 2 {
        ("rpi-agent", "crates/pi-agent/Cargo.toml", "crates/pi-agent")
    } else if i == 3 {
        ("rpi-plugin-sdk", "crates/rpi-plugin-sdk/Cargo.toml", "crates/rpi-plugin-sdk")
    } else if i == 4 {
        ("rpi-extensions", "crates/rpi-extensions/Cargo.toml", "crates/rpi-extensions")
    } else if i == 5 {
        ("rpi-tools", "crates/pi-tools/Cargo.toml", "crates/pi-tools")
    } else if i == 6 {
        ("rpi-harness", "crates/pi-harness/Cargo.toml", "crates/pi-harness")
    } else if i == 7 {
        ("rpi-tui", "crates/pi-tui/Cargo.toml", "crates/pi-tui")
    } else {
        ("rpi-cli", "crates/pi-cli/Cargo.toml", "crates/pi-cli")
    }
}

/// Whether `name` is one of the crates, from the `i`th on.
pub open spec fn released_from(name: Seq<char>, i: int) -> bool
    decreases CRATE_COUNT - i,
{
    0 <= i < CRATE_COUNT && (crate_of(i).0 == name || released_from(name, i + 1))
}

/// Whether `name` is one of the crates.
pub fn is_release_crate(name: &str) -> (r: bool)
    ensures
        r == released_from(name@, 0),
{
    let mut i: usize = 0;
    while i < CRATE_COUNT
        invariant
            i <= CRATE_COUNT,
            released_from(name@, 0) == released_from(name@, i as int),
        decreases CRATE_COUNT - i,
    {
        if text::same(release_crate(i).0, name) {
            return true;
        }
        i += 1;
    }
    false
}

/// What the release helper is asked to do.
pub enum ReleaseCommand {
    Validate { version: String, allow_dirty: bool },
    DryRun,
    Publish { version: String },
    Probe { crate_name: String, version: String },
}

/// The model of `ReleaseCommand`.
pub enum ReleaseModel {
    Validate { version: Seq<char>, allow_dirty: bool },
    DryRun,
    Publish { version: Seq<char> },
    Probe { crate_name: Seq<char>, version: Seq<char> },
}

impl View for ReleaseCommand {
    type V = ReleaseModel;

    open spec fn view(&self) -> ReleaseModel {
        match self {
            ReleaseCommand::Validate { version, allow_dirty } => ReleaseModel::Validate {
                version: version@,
                allow_dirty: *allow_dirty,
            },
            ReleaseCommand::DryRun => ReleaseModel::DryRun,
            ReleaseCommand::Publish { version } => ReleaseModel::Publish { version: version@ },
            ReleaseCommand::Probe { crate_name, version } => ReleaseModel::Probe {
                crate_name: crate_name@,
                version: version@,
            },
        }
    }
}

/// What the arguments ask for.
pub open spec fn request_of(args: Seq<Seq<char>>) -> Option<ReleaseModel> {
    if args.len() == 2 && args[0] == "validate"@ {
        Some(ReleaseModel::Validate { version: args[1], allow_dirty: false })
    } else if args.len() == 3 && args[0] == "validate"@ && args[2] == "--allow-dirty"@ {
        Some(ReleaseModel::Validate { version: args[1], allow_dirty: true })
    } else if args.len() == 1 && args[0] == "dry-run"@ {
        Some(ReleaseModel::DryRun)
    } else if args.len() == 2 && args[0] == "publish"@ {
        Some(ReleaseModel::Publish { version: args[1] })
    } else if args.len() == 3 && args[0] == "probe"@ {
        Some(ReleaseModel::Probe { crate_name: args[1], version: args[2] })
    } else {
        None
    }
}

/// What the arguments ask for, or how to use the helper.
pub fn run(args: &[String]) -> (r: Result<ReleaseCommand, String>)
    ensures
        match r {
            Ok(command) => request_of(text::texts(args@)) == Some(command@),
            Err(m) => request_of(text::texts(args@)) is None && m@
                == "usage: release-helper <validate VERSION [--allow-dirty]|dry-run|publish VERSION|probe CRATE VERSION>"@,
        },
{
    let ghost all = text::texts(args@);
    assert(all.len() == args@.len());
    assert(args@.len() > 0 ==> all[0] == args@[0]@);
    assert(args@.len() > 1 ==> all[1] == args@[1]@);
    assert(args@.len() > 2 ==> all[2] == args@[2]@);
    if args.len() == 2 && text::same(args[0].as_str(), "validate") {
        return Ok(ReleaseCommand::Validate { version: args[1].clone(), allow_dirty: false });
    }
    if args.len() == 3 && text::same(args[0].as_str(), "validate") && text::same(
        args[2].as_str(),
        "--allow-dirty",
    ) {
        return Ok(ReleaseCommand::Validate { version: args[1].clone(), allow_dirty: true });
    }
    if args.len() == 1 && text::same(args[0].as_str(), "dry-run") {
        return Ok(ReleaseCommand::DryRun);
    }
    if args.len() == 2 && text::same(args[0].as_str(), "publish") {
        return Ok(ReleaseCommand::Publish { version: args[1].clone() });
    }
    if args.len() == 3 && text::same(args[0].as_str(), "probe") {
        return Ok(
            ReleaseCommand::Probe { crate_name: args[1].clone(), version: args[2].clone() },
        );
    }
    Err(
        "usage: release-helper <validate VERSION [--allow-dirty]|dry-run|publish VERSION|probe CRATE VERSION>".to_owned(),
    )
}

/// What follows the field `field` of a JSON text: from the colon behind its
/// first quoted mention on.
pub open spec fn value_start(json: Seq<char>, field: Seq<char>) -> Option<Seq<char>> {
    match text::cut(json, "\""@ + field + "\""@) {
        None => None,
        Some((_, rest)) => match text::after_prefix(text::trim_start_of(rest), ":"@) {
            None => None,
            Some(value) => Some(text::trim_start_of(value)),
        },
    }
}

/// What follows the field `field` of a JSON text.
pub fn json_value_start<'a>(json: &'a str, field: &str) -> (r: Option<&'a str>)
    ensures
        text::opt_str(r) == value_start(json@, field@),
{
    let marker = text::cat3("\"", field, "\"");
    match text::split_once(json, marker.as_str()) {
        None => None,
        Some((_, rest)) => match text::strip_prefix(text::trim_start(rest), ":") {
            None => None,
            Some(value) => Some(text::trim_start(value)),
        },
    }
}

/// The truth value of a field of a JSON text.
pub open spec fn bool_field(json: Seq<char>, field: Seq<char>) -> Option<bool> {
    match value_start(json, field) {
        None => None,
        Some(value) => if text::begins(value, "true"@) {
            Some(true)
        } else if text::begins(value, "false"@) {
            Some(false)
        } else {
            None
        },
    }
}

/// The truth value of a field of a JSON text.
pub fn json_bool_field(json: &str, field: &str) -> (r: Option<bool>)
    ensures
        r == bool_field(json@, field@),
{
    match json_value_start(json, field) {
        None => None,
        Some(value) => if text::starts_with(value, "true") {
            Some(true)
        } else if text::starts_with(value, "false") {
            Some(false)
        } else {
            None
        },
    }
}

/// What stands between the quotation mark that starts `s` and the next one.
pub open spec fn quoted_in(s: Seq<char>) -> Option<Seq<char>> {
    match text::after_prefix(s, "\""@) {
        None => None,
        Some(rest) => match text::index_of(rest, "\""@) {
            None => None,
            Some(end) => Some(rest.take(end)),
        },
    }
}

/// What stands between the quotation mark that starts `s` and the next one.
pub fn quoted_value<'a>(s: &'a str) -> (r: Option<&'a str>)
    ensures
        text::opt_str(r) == quoted_in(s@),
{
    match text::strip_prefix(s, "\"") {
        None => None,
        Some(rest) => match text::find(rest, "\"") {
            None => None,
            Some(end) => Some(text::take(rest, end)),
        },
    }
}

/// The string of a field of a JSON text.
pub open spec fn string_field(json: Seq<char>, field: Seq<char>) -> Option<Seq<char>> {
    match value_start(json, field) {
        None => None,
        Some(value) => quoted_in(value),
    }
}

/// The string of a field of a JSON text.
pub fn json_string_field(json: &str, field: &str) -> (r: Option<String>)
    ensures
        text::opt_text(r) == string_field(json@, field@),
{
    match json_value_start(json, field) {
        None => None,
        Some(value) => match quoted_value(value) {
            Some(s) => Some(s.to_owned()),
            None => None,
        },
    }
}

/// A section of a TOML text: from behind its header to the next header at
/// the margin.
pub open spec fn section_of(toml: Seq<char>, name: Seq<char>) -> Option<Seq<char>> {
    match text::cut(toml, "["@ + name + "]"@) {
        None => None,
        Some((_, rest)) => match text::index_of(rest, "\n["@) {
            Some(end) => Some(rest.take(end)),
            None => Some(rest),
        },
    }
}

/// A section of a TOML text.
pub fn toml_section<'a>(toml: &'a str, name: &str) -> (r: Option<&'a str>)
    ensures
        text::opt_str(r) == section_of(toml@, name@),
{
    let marker = text::cat3("[", name, "]");
    match text::split_once(toml, marker.as_str()) {
        None => None,
        Some((_, rest)) => match text::find(rest, "\n[") {
            Some(end) => Some(text::take(rest, end)),
            None => Some(rest),
        },
    }
}

/// Whether a line assigns to `key`; comments do not.
pub open spec fn assigns(line: Seq<char>, key: Seq<char>) -> bool {
    let s = text::trim_of(line);
    !text::first_is(s, '#') && (match text::cut(s, "="@) {
        Some((candidate, _)) => text::trim_of(candidate) == key,
        None => false,
    })
}

/// Whether a line assigns to `key`.
pub fn line_assigns(line: &str, key: &str) -> (r: bool)
    ensures
        r == assigns(line@, key@),
{
    let s = text::trim(line);
    if text::starts_with_char(s, '#') {
        return false;
    }
    match text::split_once(s, "=") {
        Some((candidate, _)) => text::same(text::trim(candidate), key),
        None => false,
    }
}

/// The first line, from the `i`th on, that assigns to `key`.
pub open spec fn assignment_from(lines: Seq<Seq<char>>, key: Seq<char>, i: int) -> Option<Seq<char>>
    decreases lines.len() - i,
{
    if i < 0 || i >= lines.len() {
        None
    } else if assigns(lines[i], key) {
        Some(lines[i])
    } else {
        assignment_from(lines, key, i + 1)
    }
}

/// The line of a section that assigns to `key`.
pub fn toml_assignment<'a>(section: &'a str, key: &str) -> (r: Option<&'a str>)
    ensures
        text::opt_str(r) == assignment_from(text::lines_of(section@), key@, 0),
{
    let lines = text::lines(section);
    let ghost all = text::lines_of(section@);
    let mut i: usize = 0;
    while i < lines.len()
        invariant
            i <= lines@.len(),
            all == text::strs(lines@),
            all == text::lines_of(section@),
            assignment_from(all, key@, 0) == assignment_from(all, key@, i as int),
        decreases lines.len() - i,
    {
        assert(all[i as int] == lines@[i as int]@);
        if line_assigns(lines[i], key) {
            return Some(lines[i]);
        }
        i += 1;
    }
    assert(all.len() == lines@.len());
    None
}

/// The value of an assignment.
pub open spec fn value_of(line: Seq<char>) -> Option<Seq<char>> {
    match text::cut(line, "="@) {
        Some((_, value)) => Some(text::trim_of(value)),
        None => None,
    }
}

/// The value of an assignment.
pub fn assignment_value<'a>(line: &'a str) -> (r: Option<&'a str>)
    ensures
        text::opt_str(r) == value_of(line@),
{
    match text::split_once(line, "=") {
        Some((_, value)) => Some(text::trim(value)),
        None => None,
    }
}

/// The string that a section assigns to `key`.
pub open spec fn string_of(section: Seq<char>, key: Seq<char>) -> Option<Seq<char>> {
    match assignment_from(text::lines_of(section), key, 0) {
        None => None,
        Some(line) => match value_of(line) {
            None => None,
            Some(value) => quoted_in(value),
        },
    }
}

/// The string that a section assigns to `key`.
pub fn toml_string<'a>(section: &'a str, key: &str) -> (r: Option<&'a str>)
    ensures
        text::opt_str(r) == string_of(section@, key@),
{
    match toml_assignment(section, key) {
        None => None,
        Some(line) => match assignment_value(line) {
            None => None,
            Some(value) => quoted_value(value),
        },
    }
}

/// The string behind `key` in the inline table that a line assigns.
pub open spec fn inline_string(line: Seq<char>, key: Seq<char>) -> Option<Seq<char>> {
    match value_of(line) {
        None => None,
        Some(table) => match text::cut(table, key + " ="@) {
            None => None,
            Some((_, rest)) => quoted_in(text::trim_start_of(rest)),
        },
    }
}

/// The string behind `key` in the inline table that a line assigns.
pub fn inline_table_string<'a>(line: &'a str, key: &str) -> (r: Option<&'a str>)
    ensures
        text::opt_str(r) == inline_string(line@, key@),
{
    match assignment_value(line) {
        None => None,
        Some(table) => {
            let marker = text::cat(key, " =");
            match text::split_once(table, marker.as_str()) {
                None => None,
                Some((_, rest)) => quoted_value(text::trim_start(rest)),
            }
        },
    }
}

/// What is wrong with one line of a manifest: it names a crate of the
/// release with another version.
pub open spec fn line_problem(crate_name: Seq<char>, line: Seq<char>, expected: Seq<char>) -> Option<
    Seq<char>,
> {
    match text::cut(text::trim_of(line), "="@) {
        None => None,
        Some((key, _)) => {
            let dependency = text::trim_of(key);
            if !released_from(dependency, 0) || text::holds(line, "workspace = true"@)
                || inline_string(line, "version"@) == Some(expected) {
                None
            } else {
                Some(
                    crate_name + " dependency "@ + dependency
                        + " must inherit or use version "@ + expected,
                )
            }
        },
    }
}

fn check_line(crate_name: &str, line: &str, expected: &str) -> (r: Option<String>)
    ensures
        text::opt_text(r) == line_problem(crate_name@, line@, expected@),
{
    match text::split_once(text::trim(line), "=") {
        None => None,
        Some((key, _)) => {
            let dependency = text::trim(key);
            if !is_release_crate(dependency) || text::contains(line, "workspace = true") {
                return None;
            }
            match inline_table_string(line, "version") {
                Some(version) => if text::same(version, expected) {
                    return None;
                },
                None => {},
            }
            let head = text::cat3(crate_name, " dependency ", dependency);
            Some(text::cat3(head.as_str(), " must inherit or use version ", expected))
        },
    }
}

/// What is wrong with the first bad line of a manifest, from the `i`th on.
pub open spec fn lines_problem(
    crate_name: Seq<char>,
    lines: Seq<Seq<char>>,
    expected: Seq<char>,
    i: int,
) -> Option<Seq<char>>
    decreases lines.len() - i,
{
    if i < 0 || i >= lines.len() {
        None
    } else {
        match line_problem(crate_name, lines[i], expected) {
            Some(problem) => Some(problem),
            None => lines_problem(crate_name, lines, expected, i + 1),
        }
    }
}

/// Whether a result is a success, or fails with this problem.
pub open spec fn reports(r: Result<(), String>, problem: Option<Seq<char>>) -> bool {
    match r {
        Ok(_) => problem is None,
        Err(m) => problem == Some(m@),
    }
}

/// Checks that a manifest names the crates of the release by inheritance or
/// with the version of the release.
pub fn validate_internal_dependencies(crate_name: &str, manifest: &str, expected: &str) -> (r:
    Result<(), String>)
    ensures
        reports(r, lines_problem(crate_name@, text::lines_of(manifest@), expected@, 0)),
{
    let lines = text::lines(manifest);
    let ghost all = text::lines_of(manifest@);
    let mut i: usize = 0;
    while i < lines.len()
        invariant
            i <= lines@.len(),
            all == text::strs(lines@),
            all == text::lines_of(manifest@),
            lines_problem(crate_name@, all, expected@, 0) == lines_problem(
                crate_name@,
                all,
                expected@,
                i as int,
            ),
        decreases lines.len() - i,
    {
        assert(all[i as int] == lines@[i as int]@);
        match check_line(crate_name, lines[i], expected) {
            Some(problem) => {
                return Err(problem);
            },
            None => {},
        }
        i += 1;
    }
    assert(all.len() == lines@.len());
    Ok(())
}

/// What is wrong with the `publish` field of a package.
pub open spec fn publish_problem(crate_name: Seq<char>, package: Seq<char>) -> Option<Seq<char>> {
    match assignment_from(text::lines_of(package), "publish"@, 0) {
        None => None,
        Some(line) => {
            let value = text::replaced(
                match value_of(line) {
                    Some(v) => v,
                    None => seq![],
                },
                " "@,
                ""@,
            );
            if value == "false"@ || value == "[]"@ {
                Some(crate_name + " is marked publish = false"@)
            } else if text::first_is(value, '[') && !text::holds(value, "\"crates-io\""@) {
                Some(crate_name + " cannot be published to crates-io"@)
            } else {
                None
            }
        },
    }
}

/// Checks that a package may be published to the registry.
pub fn validate_publish_field(crate_name: &str, package: &str) -> (r: Result<(), String>)
    ensures
        reports(r, publish_problem(crate_name@, package@)),
{
    let line = match toml_assignment(package, "publish") {
        None => {
            return Ok(());
        },
        Some(line) => line,
    };
    proof {
        reveal_strlit(" ");
        reveal_strlit("");
        assert(""@ =~= seq![]);
    }
    let raw = match assignment_value(line) {
        Some(v) => v,
        None => "",
    };
    let value = text::replace(raw, " ", "");
    if text::same(value.as_str(), "false") || text::same(value.as_str(), "[]") {
        return Err(text::cat(crate_name, " is marked publish = false"));
    }
    if text::starts_with_char(value.as_str(), '[') && !text::contains(
        value.as_str(),
        "\"crates-io\"",
    ) {
        return Err(text::cat(crate_name, " cannot be published to crates-io"));
    }
    Ok(())
}

/// What is wrong with the dependencies of the workspace, from the `i`th
/// crate on.
pub open spec fn dependencies_problem(section: Seq<char>, expected: Seq<char>, i: int) -> Option<
    Seq<char>,
>
    decreases INTERNAL_COUNT - i,
{
    if i < 0 || i >= INTERNAL_COUNT {
        None
    } else {
        let name = crate_of(i).0;
        match assignment_from(text::lines_of(section), name, 0) {
            None => Some("missing workspace dependency "@ + name),
            Some(line) => match inline_string(line, "version"@) {
                None => Some("workspace dependency "@ + name + " has no version"@),
                Some(version) => if version != expected {
                    Some(
                        "workspace dependency "@ + name + " uses "@ + version + ", expected "@
                            + expected,
                    )
                } else {
                    dependencies_problem(section, expected, i + 1)
                },
            },
        }
    }
}

fn check_dependencies(section: &str, expected: &str) -> (r: Result<(), String>)
    ensures
        reports(r, dependencies_problem(section@, expected@, 0)),
{
    let mut i: usize = 0;
    while i < INTERNAL_COUNT
        invariant
            i <= INTERNAL_COUNT,
            dependencies_problem(section@, expected@, 0) == dependencies_problem(
                section@,
                expected@,
                i as int,
            ),
        decreases INTERNAL_COUNT - i,
    {
        let name = release_crate(i).0;
        let line = match toml_assignment(section, name) {
            None => {
                return Err(text::cat("missing workspace dependency ", name));
            },
            Some(line) => line,
        };
        let version = match inline_table_string(line, "version") {
            None => {
                return Err(text::cat3("workspace dependency ", name, " has no version"));
            },
            Some(version) => version,
        };
        if !text::same(version, expected) {
            let head = text::cat4("workspace dependency ", name, " uses ", version);
            return Err(text::cat3(head.as_str(), ", expected ", expected));
        }
        i += 1;
    }
    Ok(())
}

/// What is wrong with the manifest of the workspace.
pub open spec fn workspace_problem(root: Seq<char>, expected: Seq<char>) -> Option<Seq<char>> {
    match section_of(root, "workspace.package"@) {
        None => Some("Cargo.toml has no [workspace.package] section"@),
        Some(package) => match string_of(package, "version"@) {
            None => Some("[workspace.package] has no string version"@),
            Some(version) => if version != expected {
                Some(
                    "workspace release version "@ + version
                        + " does not match requested RELEASE_VERSION "@ + expected,
                )
            } else {
                match section_of(root, "workspace.dependencies"@) {
                    None => Some("Cargo.toml has no [workspace.dependencies] section"@),
                    Some(section) => dependencies_problem(section, expected, 0),
                }
            },
        },
    }
}

/// Checks the manifest of the workspace.
pub fn validate_workspace(root: &str, expected: &str) -> (r: Result<(), String>)
    ensures
        reports(r, workspace_problem(root@, expected@)),
{
    let package = match toml_section(root, "workspace.package") {
        None => {
            return Err("Cargo.toml has no [workspace.package] section".to_owned());
        },
        Some(package) => package,
    };
    let version = match toml_string(package, "version") {
        None => {
            return Err("[workspace.package] has no string version".to_owned());
        },
        Some(version) => version,
    };
    if !text::same(version, expected) {
        return Err(
            text::cat4(
                "workspace release version ",
                version,
                " does not match requested RELEASE_VERSION ",
                expected,
            ),
        );
    }
    match toml_section(root, "workspace.dependencies") {
        None => Err("Cargo.toml has no [workspace.dependencies] section".to_owned()),
        Some(section) => check_dependencies(section, expected),
    }
}

/// How the metadata of the workspace lists a package.
pub open spec fn package_marker(name: Seq<char>, version: Seq<char>) -> Seq<char> {
    "{\"name\":\""@ + name + "\",\"version\":\""@ + version + "\""@
}

/// Whether a package inherits the version of the workspace.
pub open spec fn inherits_version(package: Seq<char>) -> bool {
    match assignment_from(text::lines_of(package), "version.workspace"@, 0) {
        Some(line) => value_of(line) == Some("true"@),
        None => false,
    }
}

/// What is wrong with the manifest of the `i`th crate.
pub open spec fn manifest_problem(i: int, manifest: Seq<char>, expected: Seq<char>) -> Option<
    Seq<char>,
> {
    let (crate_name, path, _) = crate_of(i);
    match section_of(manifest, "package"@) {
        None => Some(path + " has no [package] section"@),
        Some(package) => match string_of(package, "name"@) {
            None => Some(path + " has no package name"@),
            Some(name) => if name != crate_name {
                Some(path + " declares package "@ + name + ", expected "@ + crate_name)
            } else {
                match lines_problem(crate_name, text::lines_of(manifest), expected, 0) {
                    Some(problem) => Some(problem),
                    None => if !inherits_version(package) && string_of(package, "version"@) != Some(
                        expected,
                    ) {
                        Some(
                            crate_name
                                + " must inherit the workspace version or explicitly use "@
                                + expected,
                        )
                    } else {
                        publish_problem(crate_name, package)
                    },
                }
            },
        },
    }
}

/// Checks the manifest of the `i`th crate.
pub fn validate_manifest(i: usize, manifest: &str, expected: &str) -> (r: Result<(), String>)
    requires
        i < CRATE_COUNT,
    ensures
        reports(r, manifest_problem(i as int, manifest@, expected@)),
{
    let (crate_name, path, _) = release_crate(i);
    let package = match toml_section(manifest, "package") {
        None => {
            return Err(text::cat(path, " has no [package] section"));
        },
        Some(package) => package,
    };
    let name = match toml_string(package, "name") {
        None => {
            return Err(text::cat(path, " has no package name"));
        },
        Some(name) => name,
    };
    if !text::same(name, crate_name) {
        let head = text::cat3(path, " declares package ", name);
        return Err(text::cat3(head.as_str(), ", expected ", crate_name));
    }
    match validate_internal_dependencies(crate_name, manifest, expected) {
        Err(problem) => {
            return Err(problem);
        },
        Ok(_) => {},
    }
    let inherits = match toml_assignment(package, "version.workspace") {
        Some(line) => match assignment_value(line) {
            Some(value) => text::same(value, "true"),
            None => false,
        },
        None => false,
    };
    let explicit = match toml_string(package, "version") {
        Some(version) => text::same(version, expected),
        None => false,
    };
    if !inherits && !explicit {
        return Err(
            text::cat3(
                crate_name,
                " must inherit the workspace version or explicitly use ",
                expected,
            ),
        );
    }
    validate_publish_field(crate_name, package)
}

/// The view of what came of reading a file.
pub open spec fn read_view(r: Result<String, String>) -> Result<Seq<char>, Seq<char>> {
    match r {
        Ok(s) => Ok(s@),
        Err(m) => Err(m@),
    }
}

/// The views of what came of reading files.
pub open spec fn read_views(v: Seq<Result<String, String>>) -> Seq<Result<Seq<char>, Seq<char>>> {
    Seq::new(v.len(), |i: int| read_view(v[i]))
}

/// What is wrong with the crates, from the `i`th on.
pub open spec fn crates_problem(
    packages: Seq<char>,
    manifests: Seq<Result<Seq<char>, Seq<char>>>,
    expected: Seq<char>,
    i: int,
) -> Option<Seq<char>>
    decreases CRATE_COUNT - i,
{
    if i < 0 || i >= CRATE_COUNT {
        None
    } else {
        let name = crate_of(i).0;
        if !text::holds(packages, package_marker(name, expected)) {
            Some(
                "cargo metadata does not list "@ + name + " "@ + expected
                    + " as a workspace package"@,
            )
        } else {
            match manifests[i] {
                Err(error) => Some(error),
                Ok(manifest) => match manifest_problem(i, manifest, expected) {
                    Some(problem) => Some(problem),
                    None => crates_problem(packages, manifests, expected, i + 1),
                },
            }
        }
    }
}

fn check_crates(packages: &str, manifests: &Vec<Result<String, String>>, expected: &str) -> (r:
    Result<(), String>)
    requires
        manifests@.len() == CRATE_COUNT,
    ensures
        reports(r, crates_problem(packages@, read_views(manifests@), expected@, 0)),
{
    let ghost all = read_views(manifests@);
    let mut i: usize = 0;
    while i < CRATE_COUNT
        invariant
            i <= CRATE_COUNT,
            manifests@.len() == CRATE_COUNT,
            all == read_views(manifests@),
            crates_problem(packages@, all, expected@, 0) == crates_problem(
                packages@,
                all,
                expected@,
                i as int,
            ),
        decreases CRATE_COUNT - i,
    {
        assert(all[i as int] == read_view(manifests@[i as int]));
        let name = release_crate(i).0;
        let marker = text::cat5("{\"name\":\"", name, "\",\"version\":\"", expected, "\"");
        if !text::contains(packages, marker.as_str()) {
            return Err(
                text::cat5(
                    "cargo metadata does not list ",
                    name,
                    " ",
                    expected,
                    " as a workspace package",
                ),
            );
        }
        match &manifests[i] {
            Err(error) => {
                return Err(error.clone());
            },
            Ok(manifest) => match validate_manifest(i, manifest.as_str(), expected) {
                Err(problem) => {
                    return Err(problem);
                },
                Ok(_) => {},
            },
        }
        i += 1;
    }
    Ok(())
}

/// What a release is checked against: what came of asking for changes in the
/// worktree, of the metadata command, and of reading the manifests.
pub struct ReleaseInputs {
    /// Whether the worktree is clean.
    pub clean: Result<bool, String>,
    pub metadata: Result<Vec<u8>, String>,
    pub root: Result<String, String>,
    /// The manifests of the crates, in the order of the release.
    pub manifests: Vec<Result<String, String>>,
}

/// The packages that the metadata of the workspace lists.
pub open spec fn packages_in(metadata: Seq<char>) -> Option<Seq<char>> {
    match text::cut(metadata, "\"packages\":["@) {
        None => None,
        Some((_, rest)) => match text::cut(rest, "],\"workspace_members\""@) {
            None => None,
            Some((packages, _)) => Some(packages),
        },
    }
}

/// What is wrong with the metadata or what it and the manifests say.
pub open spec fn state_problem(
    metadata: Seq<char>,
    root: Result<Seq<char>, Seq<char>>,
    manifests: Seq<Result<Seq<char>, Seq<char>>>,
    expected: Seq<char>,
) -> Option<Seq<char>> {
    match packages_in(metadata) {
        None => Some("cargo metadata returned an unexpected format"@),
        Some(packages) => match root {
            Err(error) => Some(error),
            Ok(workspace) => match workspace_problem(workspace, expected) {
                Some(problem) => Some(problem),
                None => crates_problem(packages, manifests, expected, 0),
            },
        },
    }
}

/// What is wrong with a release.
pub open spec fn release_problem(expected: Seq<char>, allow_dirty: bool, inputs: ReleaseInputs) -> Option<
    Seq<char>,
> {
    let dirty = if allow_dirty {
        None
    } else {
        match inputs.clean {
            Ok(clean) => if clean {
                None
            } else {
                Some("release requires a clean git worktree (including untracked files)"@)
            },
            Err(error) => Some(error@),
        }
    };
    match dirty {
        Some(problem) => Some(problem),
        None => match inputs.metadata {
            Err(error) => Some("cargo metadata --locked failed: "@ + error@),
            Ok(bytes) => if !vstd::utf8::valid_utf8(bytes@) {
                Some("cargo metadata returned non-UTF-8 JSON"@)
            } else {
                state_problem(
                    vstd::utf8::decode_utf8(bytes@),
                    read_view(inputs.root),
                    read_views(inputs.manifests@),
                    expected,
                )
            },
        },
    }
}

/// Checks that a release is in order: the worktree, the workspace and every
/// crate say the version `expected`.
pub fn validate(expected: &str, allow_dirty: bool, inputs: &ReleaseInputs) -> (r: Result<
    (),
    String,
>)
    requires
        inputs.manifests@.len() == CRATE_COUNT,
    ensures
        reports(r, release_problem(expected@, allow_dirty, *inputs)),
{
    if !allow_dirty {
        match &inputs.clean {
            Ok(clean) => {
                if !*clean {
                    return Err(
                        "release requires a clean git worktree (including untracked files)".to_owned(),
                    );
                }
            },
            Err(error) => {
                return Err(error.clone());
            },
        }
    }
    let bytes = match &inputs.metadata {
        Err(error) => {
            return Err(text::cat("cargo metadata --locked failed: ", error.as_str()));
        },
        Ok(bytes) => copy_bytes(bytes),
    };
    let metadata = match text::string_from_utf8(bytes) {
        None => {
            return Err("cargo metadata returned non-UTF-8 JSON".to_owned());
        },
        Some(metadata) => metadata,
    };
    let packages = match text::split_once(metadata.as_str(), "\"packages\":[") {
        None => None,
        Some((_, rest)) => match text::split_once(rest, "],\"workspace_members\"") {
            None => None,
            Some((packages, _)) => Some(packages),
        },
    };
    match packages {
        None => Err("cargo metadata returned an unexpected format".to_owned()),
        Some(packages) => match &inputs.root {
            Err(error) => Err(error.clone()),
            Ok(root) => match validate_workspace(root.as_str(), expected) {
                Err(problem) => Err(problem),
                Ok(_) => check_crates(packages, &inputs.manifests, expected),
            },
        },
    }
}

fn copy_bytes(bytes: &Vec<u8>) -> (out: Vec<u8>)
    ensures
        out@ == bytes@,
{
    let mut out: Vec<u8> = Vec::new();
    let mut i: usize = 0;
    while i < bytes.len()
        invariant
            i <= bytes@.len(),
            out@ =~= bytes@.take(i as int),
        decreases bytes.len() - i,
    {
        out.push(bytes[i]);
        i += 1;
    }
    out
}

/// Whether a line of a manifest assigns to `dependency`.
pub open spec fn declares(manifest: Seq<char>, dependency: Seq<char>) -> bool {
    assignment_from(text::lines_of(manifest), dependency, 0) is Some
}

/// Whether a manifest declares a dependency.
pub fn manifest_declares_dependency(manifest: &str, dependency: &str) -> (r: bool)
    ensures
        r == declares(manifest@, dependency@),
{
    toml_assignment(manifest, dependency).is_some()
}

/// A directory below another, as text.
pub open spec fn below(root: Seq<char>, directory: Seq<char>, platform: Platform) -> Seq<char> {
    if root.len() == 0 || root.last() == '/' || (platform == Platform::Windows && root.last()
        == '\\') {
        root + directory
    } else if platform == Platform::Windows {
        root + "\\"@ + directory
    } else {
        root + "/"@ + directory
    }
}

/// A path as the text of a TOML string.
pub open spec fn toml_path(path: Seq<char>, platform: Platform) -> Seq<char> {
    let shown = if platform == Platform::Windows {
        text::replaced(path, "\\"@, "/"@)
    } else {
        path
    };
    text::replaced(
        text::replaced(
            text::replaced(
                text::replaced(text::replaced(shown, "\\"@, "\\\\"@), "\""@, "\\\""@),
                "\n"@,
                "\\n"@,
            ),
            "\r"@,
            "\\r"@,
        ),
        "\t"@,
        "\\t"@,
    )
}

fn path_as_toml(path: &str, platform: Platform) -> (out: String)
    ensures
        out@ == toml_path(path@, platform),
{
    proof {
        reveal_strlit("\\");
        reveal_strlit("\"");
        reveal_strlit("\n");
        reveal_strlit("\r");
        reveal_strlit("\t");
    }
    let shown = if platform == Platform::Windows {
        text::replace(path, "\\", "/")
    } else {
        path.to_owned()
    };
    let a = text::replace(shown.as_str(), "\\", "\\\\");
    let b = text::replace(a.as_str(), "\"", "\\\"");
    let c = text::replace(b.as_str(), "\n", "\\n");
    let d = text::replace(c.as_str(), "\r", "\\r");
    text::replace(d.as_str(), "\t", "\\t")
}

/// The setting that takes the `i`th crate from the workspace.
pub open spec fn patch_of(i: int, root: Seq<char>, platform: Platform) -> Seq<char> {
    "patch.crates-io."@ + crate_of(i).0 + ".path=\""@ + toml_path(
        below(root, crate_of(i).2, platform),
        platform,
    ) + "\""@
}

/// The settings for those of the first `n` crates that a manifest declares.
pub open spec fn patches_among(
    manifest: Seq<char>,
    root: Seq<char>,
    platform: Platform,
    n: int,
) -> Seq<Seq<char>>
    decreases n,
{
    if n <= 0 {
        seq![]
    } else if declares(manifest, crate_of(n - 1).0) {
        patches_among(manifest, root, platform, n - 1).push(patch_of(n - 1, root, platform))
    } else {
        patches_among(manifest, root, platform, n - 1)
    }
}

/// The settings that take the declared crates of the release from the
/// workspace at `root`, on a system.
pub fn local_dependency_patches(manifest: &str, root: &str, platform: Platform) -> (out: Vec<
    String,
>)
    ensures
        text::texts(out@) == patches_among(manifest@, root@, platform, CRATE_COUNT as int),
{
    let mut out: Vec<String> = Vec::new();
    assert(text::texts(out@) =~= seq![]);
    let mut i: usize = 0;
    while i < CRATE_COUNT
        invariant
            i <= CRATE_COUNT,
            text::texts(out@) == patches_among(manifest@, root@, platform, i as int),
        decreases CRATE_COUNT - i,
    {
        let (name, _, directory) = release_crate(i);
        if manifest_declares_dependency(manifest, name) {
            let joined = root.unicode_len() == 0 || text::ends_with_char(root, '/') || (platform
                == Platform::Windows && text::ends_with_char(root, '\\'));
            let path = if joined {
                text::cat(root, directory)
            } else if platform == Platform::Windows {
                text::cat3(root, "\\", directory)
            } else {
                text::cat3(root, "/", directory)
            };
            let shown = path_as_toml(path.as_str(), platform);
            let patch = text::cat5(
                "patch.crates-io.",
                name,
                ".path=\"",
                shown.as_str(),
                "\"",
            );
            text::push_text(&mut out, patch.as_str());
        }
        i += 1;
    }
    out
}

/// Arguments that hand over the first `n` settings.
pub open spec fn configured(patches: Seq<Seq<char>>, n: int) -> Seq<Seq<char>>
    decreases n,
{
    if n <= 0 {
        seq![]
    } else {
        configured(patches, n - 1).push("--config"@).push(patches[n - 1])
    }
}

/// The arguments of a dry run, without settings.
pub open spec fn dry_run_base(crate_name: Seq<char>) -> Seq<Seq<char>> {
    seq![
        "publish"@,
        "--dry-run"@,
        "--locked"@,
        "--registry"@,
        "crates-io"@,
        "-p"@,
        crate_name,
    ]
}

/// The arguments of a dry run on a system.
pub open spec fn dry_run_of(
    crate_name: Seq<char>,
    manifest: Seq<char>,
    root: Seq<char>,
    platform: Platform,
) -> Seq<Seq<char>> {
    let patches = patches_among(manifest, root, platform, CRATE_COUNT as int);
    dry_run_base(crate_name) + configured(patches, patches.len() as int)
}

/// The arguments of a dry run of a crate's release on a system.
pub fn dry_run_args_on(platform: Platform, crate_name: &str, manifest: &str, root: &str) -> (out:
    Vec<String>)
    ensures
        text::texts(out@) == dry_run_of(crate_name@, manifest@, root@, platform),
{
    let mut out: Vec<String> = Vec::new();
    text::push_text(&mut out, "publish");
    text::push_text(&mut out, "--dry-run");
    text::push_text(&mut out, "--locked");
    text::push_text(&mut out, "--registry");
    text::push_text(&mut out, "crates-io");
    text::push_text(&mut out, "-p");
    text::push_text(&mut out, crate_name);
    let ghost base = dry_run_base(crate_name@);
    assert(text::texts(out@) =~= base);
    let patches = local_dependency_patches(manifest, root, platform);
    let ghost all = text::texts(patches@);
    assert(base + configured(all, 0) =~= base);
    let mut i: usize = 0;
    while i < patches.len()
        invariant
            i <= patches@.len(),
            all == text::texts(patches@),
            text::texts(out@) == base + configured(all, i as int),
        decreases patches.len() - i,
    {
        assert(all[i as int] == patches@[i as int]@);
        text::push_text(&mut out, "--config");
        text::push_text(&mut out, patches[i].as_str());
        assert(text::texts(out@) =~= base + configured(all, i + 1));
        i += 1;
    }
    assert(all.len() == patches@.len());
    out
}

/// The arguments of a dry run of a crate's release: every package is
/// verified in full, with the declared crates taken from the workspace.
pub fn dry_run_args(crate_name: &str, manifest: &str, root: &str) -> (out: Vec<String>)
    ensures
        text::texts(out@) == dry_run_of(crate_name@, manifest@, root@, Platform::Unix)
            || text::texts(out@) == dry_run_of(crate_name@, manifest@, root@, Platform::Windows),
{
    dry_run_args_on(Platform::host(), crate_name, manifest, root)
}

/// How often `flag` is among the first `n` arguments.
pub open spec fn times_given(args: Seq<Seq<char>>, flag: Seq<char>, n: int) -> nat
    decreases n,
{
    if n <= 0 {
        0
    } else if args[n - 1] == flag {
        times_given(args, flag, n - 1) + 1
    } else {
        times_given(args, flag, n - 1)
    }
}

/// What is said before the dry run of a crate.
pub open spec fn notice_of(crate_name: Seq<char>, args: Seq<Seq<char>>) -> Seq<char> {
    "Dry-running "@ + crate_name + " with full package verification and "@ + text::digits_of(
        times_given(args, "--config"@, args.len() as int),
    ) + " local release dependency patch(es)."@
}

/// What is said before the dry run of a crate with `args`: how many crates
/// are taken from the workspace.
pub fn dry_run_notice(crate_name: &str, args: &[String]) -> (out: String)
    ensures
        out@ == notice_of(crate_name@, text::texts(args@)),
{
    let mut count: usize = 0;
    let mut i: usize = 0;
    while i < args.len()
        invariant
            i <= args@.len(),
            count <= i,
            count == times_given(text::texts(args@), "--config"@, i as int),
        decreases args.len() - i,
    {
        assert(text::texts(args@)[i as int] == args@[i as int]@);
        if text::same(args[i].as_str(), "--config") {
            count += 1;
        }
        i += 1;
    }
    let shown = text::number_text(count as u64);
    text::cat5(
        "Dry-running ",
        crate_name,
        " with full package verification and ",
        shown.as_str(),
        " local release dependency patch(es).",
    )
}

/// What the registry has of a version.
#[derive(Debug, Clone, Copy, PartialEq, Eq, Structural)]
pub enum PublishedVersion {
    Missing,
    Available,
    Yanked,
}

/// A response of the registry.
pub struct HttpResponse {
    pub status: u16,
    pub body: String,
}

/// What the registry has of a version, by its response.
pub open spec fn version_state(
    crate_name: Seq<char>,
    version: Seq<char>,
    status: u16,
    body: Seq<char>,
) -> Result<PublishedVersion, Seq<char>> {
    if status == 200 {
        match bool_field(body, "yanked"@) {
            Some(yanked) => if yanked {
                Ok(PublishedVersion::Yanked)
            } else {
                Ok(PublishedVersion::Available)
            },
            None => Err(
                "crates.io returned no yanked field for "@ + crate_name + " "@ + version,
            ),
        }
    } else if status == 404 {
        Ok(PublishedVersion::Missing)
    } else {
        Err(
            "crates.io returned HTTP "@ + text::digits_of(status as nat) + " while checking "@
                + crate_name + " "@ + version,
        )
    }
}

/// What the registry has of a version, by its response.
pub fn published_version(crate_name: &str, version: &str, response: &HttpResponse) -> (r: Result<
    PublishedVersion,
    String,
>)
    ensures
        (match r {
            Ok(state) => Ok(state),
            Err(m) => Err(m@),
        }) == version_state(crate_name@, version@, response.status, response.body@),
{
    if response.status == 200 {
        match json_bool_field(response.body.as_str(), "yanked") {
            Some(true) => Ok(PublishedVersion::Yanked),
            Some(false) => Ok(PublishedVersion::Available),
            None => Err(
                text::cat4(
                    "crates.io returned no yanked field for ",
                    crate_name,
                    " ",
                    version,
                ),
            ),
        }
    } else if response.status == 404 {
        Ok(PublishedVersion::Missing)
    } else {
        let status = text::number_text(response.status as u64);
        let head = text::cat4(
            "crates.io returned HTTP ",
            status.as_str(),
            " while checking ",
            crate_name,
        );
        Err(text::cat3(head.as_str(), " ", version))
    }
}

/// Whether a line of the index lists a version that is not yanked.
pub open spec fn lists_version(line: Seq<char>, version: Seq<char>) -> bool {
    string_field(line, "vers"@) == Some(version) && bool_field(line, "yanked"@) != Some(true)
}

/// Whether a line, from the `i`th on, lists a version that is not yanked.
pub open spec fn listed_from(lines: Seq<Seq<char>>, version: Seq<char>, i: int) -> bool
    decreases lines.len() - i,
{
    0 <= i < lines.len() && (lists_version(lines[i], version) || listed_from(
        lines,
        version,
        i + 1,
    ))
}

/// Whether the index lists a version that is not yanked.
pub fn index_lists(body: &str, version: &str) -> (r: bool)
    ensures
        r == listed_from(text::lines_of(body@), version@, 0),
{
    let lines = text::lines(body);
    let ghost all = text::lines_of(body@);
    let mut i: usize = 0;
    while i < lines.len()
        invariant
            i <= lines@.len(),
            all == text::strs(lines@),
            all == text::lines_of(body@),
            listed_from(all, version@, 0) == listed_from(all, version@, i as int),
        decreases lines.len() - i,
    {
        assert(all[i as int] == lines@[i as int]@);
        let same = match json_string_field(lines[i], "vers") {
            Some(found) => text::same(found.as_str(), version),
            None => false,
        };
        let yanked = match json_bool_field(lines[i], "yanked") {
            Some(yanked) => yanked,
            None => false,
        };
        if same && !yanked {
            return true;
        }
        i += 1;
    }
    assert(all.len() == lines@.len());
    false
}

/// What to do after a look at the index.
pub enum WaitStep {
    Resolvable,
    GiveUp(String),
    /// Look again; what came of this look.
    Again(String),
}

/// The model of `WaitStep`.
pub enum WaitModel {
    Resolvable,
    GiveUp(Seq<char>),
    Again(Seq<char>),
}

impl View for WaitStep {
    type V = WaitModel;

    open spec fn view(&self) -> WaitModel {
        match self {
            WaitStep::Resolvable => WaitModel::Resolvable,
            WaitStep::GiveUp(m) => WaitModel::GiveUp(m@),
            WaitStep::Again(m) => WaitModel::Again(m@),
        }
    }
}

/// What to do after a look at the index that brought a status and a body, or
/// failed.
pub open spec fn wait_of(
    crate_name: Seq<char>,
    version: Seq<char>,
    look: Result<(u16, Seq<char>), Seq<char>>,
    out_of_time: bool,
) -> WaitModel {
    if look matches Ok((status, body)) && status == 200 && listed_from(
        text::lines_of(body),
        version,
        0,
    ) {
        WaitModel::Resolvable
    } else {
        let last = match look {
            Ok((status, _)) => "sparse index returned HTTP "@ + text::digits_of(status as nat),
            Err(error) => error,
        };
        if out_of_time {
            WaitModel::GiveUp(
                crate_name + " "@ + version
                    + " did not become resolvable from the crates.io index within 10 minutes (last result: "@
                    + last + "). Re-run task publish to resume safely"@,
            )
        } else {
            WaitModel::Again(last)
        }
    }
}

/// The view of a look at the index.
pub open spec fn look_view(look: Result<HttpResponse, String>) -> Result<
    (u16, Seq<char>),
    Seq<char>,
> {
    match look {
        Ok(response) => Ok((response.status, response.body@)),
        Err(error) => Err(error@),
    }
}

/// What to do after a look at the index.
pub fn wait_for_sparse_index(
    crate_name: &str,
    version: &str,
    look: Result<HttpResponse, String>,
    out_of_time: bool,
) -> (r: WaitStep)
    ensures
        r@ == wait_of(crate_name@, version@, look_view(look), out_of_time),
{
    let last = match look {
        Ok(response) => {
            if response.status == 200 && index_lists(response.body.as_str(), version) {
                return WaitStep::Resolvable;
            }
            let status = text::number_text(response.status as u64);
            text::cat("sparse index returned HTTP ", status.as_str())
        },
        Err(error) => error,
    };
    if out_of_time {
        let head = text::cat4(
            crate_name,
            " ",
            version,
            " did not become resolvable from the crates.io index within 10 minutes (last result: ",
        );
        WaitStep::GiveUp(
            text::cat3(
                head.as_str(),
                last.as_str(),
                "). Re-run task publish to resume safely",
            ),
        )
    } else {
        WaitStep::Again(last)
    }
}

/// What to do about a crate, by what the registry has of it.
pub enum PublishStep {
    Skip(String),
    Refuse(String),
    /// Publish it with these arguments.
    Publish(String, Vec<String>),
}

/// The model of `PublishStep`.
pub enum PublishModel {
    Skip(Seq<char>),
    Refuse(Seq<char>),
    Publish(Seq<char>, Seq<Seq<char>>),
}

impl View for PublishStep {
    type V = PublishModel;

    open spec fn view(&self) -> PublishModel {
        match self {
            PublishStep::Skip(m) => PublishModel::Skip(m@),
            PublishStep::Refuse(m) => PublishModel::Refuse(m@),
            PublishStep::Publish(m, args) => PublishModel::Publish(m@, text::texts(args@)),
        }
    }
}

/// What to do about a crate, by what the registry has of it.
pub open spec fn publish_of(
    crate_name: Seq<char>,
    version: Seq<char>,
    state: PublishedVersion,
) -> PublishModel {
    match state {
        PublishedVersion::Available => PublishModel::Skip(
            "Skipping "@ + crate_name + " "@ + version
                + ": exact version already exists on crates.io."@,
        ),
        PublishedVersion::Yanked => PublishModel::Refuse(
            crate_name + " "@ + version
                + " exists on crates.io but is yanked; refusing to treat it as a usable dependency"@,
        ),
        PublishedVersion::Missing => PublishModel::Publish(
            "Publishing "@ + crate_name + " "@ + version + "..."@,
            seq!["publish"@, "--locked"@, "--registry"@, "crates-io"@, "-p"@, crate_name],
        ),
    }
}

/// What to do about a crate, by what the registry has of it: a version that
/// is there is not published again, and one that was taken back is not used.
pub fn publish_step(crate_name: &str, version: &str, state: PublishedVersion) -> (r: PublishStep)
    ensures
        r@ == publish_of(crate_name@, version@, state),
{
    match state {
        PublishedVersion::Available => PublishStep::Skip(
            text::cat5(
                "Skipping ",
                crate_name,
                " ",
                version,
                ": exact version already exists on crates.io.",
            ),
        ),
        PublishedVersion::Yanked => PublishStep::Refuse(
            text::cat4(
                crate_name,
                " ",
                version,
                " exists on crates.io but is yanked; refusing to treat it as a usable dependency",
            ),
        ),
        PublishedVersion::Missing => {
            let mut args: Vec<String> = Vec::new();
            text::push_text(&mut args, "publish");
            text::push_text(&mut args, "--locked");
            text::push_text(&mut args, "--registry");
            text::push_text(&mut args, "crates-io");
            text::push_text(&mut args, "-p");
            text::push_text(&mut args, crate_name);
            assert(text::texts(args@) =~= seq![
                "publish"@,
                "--locked"@,
                "--registry"@,
                "crates-io"@,
                "-p"@,
                crate_name@,
            ]);
            PublishStep::Publish(
                text::cat5("Publishing ", crate_name, " ", version, "..."),
                args,
            )
        },
    }
}

/// What is said where a crate could not be published.
pub fn publish_failure(crate_name: &str, version: &str, error: &str) -> (out: String)
    ensures
        out@ == "cargo publish failed for "@ + crate_name@ + " "@ + version@ + ": "@ + error@
            + ". Re-run task publish after resolving the error; published versions will be skipped"@,
{
    let head = text::cat5("cargo publish failed for ", crate_name, " ", version, ": ");
    text::cat3(
        head.as_str(),
        error,
        ". Re-run task publish after resolving the error; published versions will be skipped",
    )
}

/// A response of curl, which writes the status on a line behind the body.
pub open spec fn response_of(
    url: Seq<char>,
    success: bool,
    stdout: Seq<u8>,
    stderr: Seq<char>,
) -> Result<(nat, Seq<char>), Seq<char>> {
    if !success {
        Err("curl failed for "@ + url + ": "@ + text::trim_of(stderr))
    } else if !vstd::utf8::valid_utf8(stdout) {
        Err("curl returned non-UTF-8 data for "@ + url)
    } else {
        let output = vstd::utf8::decode_utf8(stdout);
        match text::last_index_of(output, "\n"@) {
            None => Err("curl returned no HTTP status for "@ + url),
            Some(split) => match text::number_of(text::trim_of(output.skip(split + 1)), 65535) {
                None => Err("curl returned an invalid HTTP status for "@ + url),
                Some(status) => Ok((status, output.take(split))),
            },
        }
    }
}

/// A response of curl: what it wrote to its two streams, and whether it
/// succeeded.
pub fn http_response(url: &str, success: bool, stdout: Vec<u8>, stderr: &str) -> (r: Result<
    HttpResponse,
    String,
>)
    ensures
        (match r {
            Ok(response) => Ok((response.status as nat, response.body@)),
            Err(m) => Err(m@),
        }) == response_of(url@, success, stdout@, stderr@),
{
    if !success {
        return Err(text::cat4("curl failed for ", url, ": ", text::trim(stderr)));
    }
    let output = match text::string_from_utf8(stdout) {
        None => {
            return Err(text::cat("curl returned non-UTF-8 data for ", url));
        },
        Some(output) => output,
    };
    proof {
        reveal_strlit("\n");
    }
    match text::rfind(output.as_str(), "\n") {
        None => Err(text::cat("curl returned no HTTP status for ", url)),
        Some(split) => {
            let status = text::parse_number(
                text::trim(text::skip(output.as_str(), split + 1)),
                65535,
            );
            match status {
                None => Err(text::cat("curl returned an invalid HTTP status for ", url)),
                Some(status) => Ok(
                    HttpResponse {
                        status: status as u16,
                        body: text::take(output.as_str(), split).to_owned(),
                    },
                ),
            }
        },
    }
}

/// What is said of a command that failed.
pub fn command_failure(program: &str, args: &[String], stderr: &str) -> (out: String)
    ensures
        out@ == program@ + " "@ + text::joined(text::texts(args@), " "@) + " failed: "@
            + text::trim_of(stderr@),
{
    let joined = text::join(args, " ");
    text::cat5(program, " ", joined.as_str(), " failed: ", text::trim(stderr))
}

/// How many bytes the first characters of `s` take, up to five.
fn short_width(s: &str) -> (r: usize)
    ensures
        r == if text::width_of(s@) < 5 {
            text::width_of(s@) as int
        } else {
            5
        },
{
    let chars = text::chars_of(s);
    let mut width: usize = 0;
    let mut i: usize = 0;
    assert(s@.take(0) =~= seq![]);
    while i < chars.len() && width < 5
        invariant
            i <= chars@.len(),
            chars@ == s@,
            width == text::width_of(s@.take(i as int)),
            width <= 8,
        decreases chars.len() - i,
    {
        assert(s@.take(i + 1).drop_last() =~= s@.take(i as int));
        width = width + text::char_width(chars[i]);
        i += 1;
    }
    proof {
        text::lemma_width_grows(s@, i as int, s@.len() as int);
        assert(s@.take(s@.len() as int) =~= s@);
    }
    if width < 5 {
        width
    } else {
        5
    }
}

/// The number of characters, from the `n`th on, whose bytes are the first
/// `k` of `s`.
pub open spec fn boundary_from(s: Seq<char>, k: nat, n: int) -> Option<int>
    decreases s.len() + 1 - n,
{
    if n < 0 || n > s.len() {
        None
    } else if text::width_of(s.take(n)) == k {
        Some(n)
    } else {
        boundary_from(s, k, n + 1)
    }
}

/// The number of characters whose bytes are the first `k` of `s`.
pub open spec fn boundary(s: Seq<char>, k: nat) -> Option<int> {
    boundary_from(s, k, 0)
}

proof fn lemma_no_boundary(s: Seq<char>, k: nat, n: int)
    requires
        0 <= n <= s.len(),
        text::width_of(s.take(n)) > k,
    ensures
        boundary_from(s, k, n) is None,
    decreases s.len() - n,
{
    if n < s.len() {
        text::lemma_width_grows(s, n, n + 1);
        lemma_no_boundary(s, k, n + 1);
    } else {
        assert(boundary_from(s, k, n + 1) is None);
    }
}

fn find_boundary(s: &str, k: usize) -> (r: Option<usize>)
    requires
        k <= 4,
    ensures
        text::position(r) == boundary(s@, k as nat),
        r matches Some(n) ==> n <= s@.len(),
{
    let chars = text::chars_of(s);
    let mut width: usize = 0;
    let mut i: usize = 0;
    assert(s@.take(0) =~= seq![]);
    while i < chars.len() && width < k
        invariant
            i <= chars@.len(),
            chars@ == s@,
            k <= 4,
            width == text::width_of(s@.take(i as int)),
            width <= 8,
            boundary(s@, k as nat) == boundary_from(s@, k as nat, i as int),
        decreases chars.len() - i,
    {
        assert(s@.take(i + 1).drop_last() =~= s@.take(i as int));
        width = width + text::char_width(chars[i]);
        i += 1;
    }
    if width == k {
        Some(i)
    } else {
        proof {
            if width > k {
                lemma_no_boundary(s@, k as nat, i as int);
            } else {
                assert(boundary_from(s@, k as nat, i + 1) is None);
            }
        }
        None
    }
}

/// Whether a name has a place in the index: the bytes that its directories
/// are named after are whole characters.
pub open spec fn indexable(name: Seq<char>) -> bool {
    let n = text::lower_of(name);
    let width = text::width_of(n);
    ||| width == 1
    ||| width == 2
    ||| width == 3 && boundary(n, 1) is Some
    ||| width >= 4 && boundary(n, 2) is Some && boundary(n, 4) is Some
}

/// The place of a crate in the index.
pub open spec fn index_path(name: Seq<char>) -> Seq<char> {
    let n = text::lower_of(name);
    let width = text::width_of(n);
    if width == 1 {
        "1/"@ + n
    } else if width == 2 {
        "2/"@ + n
    } else if width == 3 {
        "3/"@ + n.take(boundary(n, 1)->0) + "/"@ + n
    } else {
        n.take(boundary(n, 2)->0) + "/"@ + n.subrange(boundary(n, 2)->0, boundary(n, 4)->0)
            + "/"@ + n
    }
}

proof fn lemma_boundary_order(s: Seq<char>, j: nat, k: nat)
    requires
        j <= k,
        boundary(s, j) is Some,
        boundary(s, k) is Some,
    ensures
        0 <= boundary(s, j)->0 <= boundary(s, k)->0 <= s.len(),
{
    lemma_boundary_is(s, j, 0);
    lemma_boundary_is(s, k, 0);
    let a = boundary(s, j)->0;
    let b = boundary(s, k)->0;
    if a > b {
        text::lemma_width_grows(s, b, a);
    }
}

proof fn lemma_boundary_is(s: Seq<char>, k: nat, n: int)
    requires
        0 <= n,
        boundary_from(s, k, n) is Some,
    ensures
        n <= boundary_from(s, k, n)->0 <= s.len(),
        text::width_of(s.take(boundary_from(s, k, n)->0)) == k,
    decreases s.len() + 1 - n,
{
    if n <= s.len() && text::width_of(s.take(n)) != k {
        lemma_boundary_is(s, k, n + 1);
    }
}

/// The place of a crate in the index.
pub fn sparse_index_path(crate_name: &str) -> (out: String)
    requires
        indexable(crate_name@),
    ensures
        out@ == index_path(crate_name@),
{
    let name = text::lower(crate_name);
    let n = name.as_str();
    let width = short_width(n);
    if width == 1 {
        return text::cat("1/", n);
    }
    if width == 2 {
        return text::cat("2/", n);
    }
    if width == 3 {
        return match find_boundary(n, 1) {
            Some(end) => text::cat4("3/", text::take(n, end), "/", n),
            None => text::cat("3/", n),
        };
    }
    proof {
        lemma_boundary_order(n@, 2, 4);
    }
    match (find_boundary(n, 2), find_boundary(n, 4)) {
        (Some(two), Some(four)) => text::cat5(
            text::take(n, two),
            "/",
            text::slice(n, two, four),
            "/",
            n,
        ),
        _ => text::cat("/", n),
    }
}

/// Whether a byte stands for itself in a URL.
#[verifier::allow_in_spec]
pub fn is_unreserved(b: u8) -> bool
    returns
        ((48 <= b && b <= 57) || (65 <= b && b <= 90) || (97 <= b && b <= 122) || b == 45 || b == 46
            || b == 95 || b == 126),
{
    (48 <= b && b <= 57) || (65 <= b && b <= 90) || (97 <= b && b <= 122) || b == 45 || b == 46
        || b == 95 || b == 126
}

/// The digit of a value in base sixteen.
pub open spec fn hex_char(d: int) -> char {
    if d < 10 {
        (48 + d) as char
    } else {
        (55 + d) as char
    }
}

fn hex_digit(d: u8) -> (c: char)
    requires
        d < 16,
    ensures
        c == hex_char(d as int),
{
    if d < 10 {
        (48 + d) as char
    } else {
        (55 + d) as char
    }
}

/// A byte in a URL.
pub open spec fn encoded_byte(b: u8) -> Seq<char> {
    if is_unreserved(b) {
        seq![b as char]
    } else {
        seq!['%', hex_char(b as int / 16), hex_char(b as int % 16)]
    }
}

/// The first `n` bytes in a URL.
pub open spec fn encoded_to(bytes: Seq<u8>, n: int) -> Seq<char>
    decreases n,
{
    if n <= 0 {
        seq![]
    } else {
        encoded_to(bytes, n - 1) + encoded_byte(bytes[n - 1])
    }
}

/// A text as a component of a URL.
pub open spec fn encoded(s: Seq<char>) -> Seq<char> {
    encoded_to(encode_utf8(s), encode_utf8(s).len() as int)
}

/// A text as a component of a URL.
pub fn encode_url_component(s: &str) -> (out: String)
    ensures
        out@ == encoded(s@),
{
    let bytes = s.as_bytes();
    let mut out = String::new();
    assert(out@ =~= seq![]);
    let mut i: usize = 0;
    while i < bytes.len()
        invariant
            i <= bytes@.len(),
            bytes@ == encode_utf8(s@),
            out@ == encoded_to(bytes@, i as int),
        decreases bytes.len() - i,
    {
        let b = bytes[i];
        let ghost before = out@;
        if is_unreserved(b) {
            out.push(b as char);
            assert(out@ =~= before + encoded_byte(b));
        } else {
            out.push('%');
            out.push(hex_digit(b / 16));
            out.push(hex_digit(b % 16));
            assert(out@ =~= before + encoded_byte(b));
        }
        i += 1;
    }
    out
}

/// Where the registry tells of a version.
pub fn version_url(crate_name: &str, version: &str) -> (out: String)
    ensures
        out@ == "https://crates.io/api/v1/crates/"@ + encoded(crate_name@) + "/"@ + encoded(
            version@,
        ),
{
    let name = encode_url_component(crate_name);
    let number = encode_url_component(version);
    text::cat4("https://crates.io/api/v1/crates/", name.as_str(), "/", number.as_str())
}

/// Where the index tells of a crate.
pub fn index_url(crate_name: &str) -> (out: String)
    requires
        indexable(crate_name@),
    ensures
        out@ == "https://index.crates.io/"@ + index_path(crate_name@),
{
    let path = sparse_index_path(crate_name);
    text::cat("https://index.crates.io/", path.as_str())
}

proof fn lemma_encoded_byte(b: u8)
    ensures
        vstd::utf8::is_ascii_chars(encoded_byte(b)),
        is_unreserved(b) ==> encoded_byte(b).len() == 1 && encoded_byte(b)[0] as u8 == b && b != 37,
        !is_unreserved(b) ==> {
            &&& encoded_byte(b).len() == 3
            &&& encoded_byte(b)[0] as u8 == 37
            &&& git_source::hex_value(encoded_byte(b)[1] as u8) == Some((b / 16) as u8)
            &&& git_source::hex_value(encoded_byte(b)[2] as u8) == Some((b % 16) as u8)
        },
{
    let high = b as int / 16;
    let low = b as int % 16;
    assert(0 <= high < 16 && 0 <= low < 16);
    if is_unreserved(b) {
        assert(b <= 126);
    }
}

proof fn lemma_encoded_to(bytes: Seq<u8>, m: int, n: int)
    requires
        0 <= m <= n <= bytes.len(),
    ensures
        vstd::utf8::is_ascii_chars(encoded_to(bytes, n)),
        encoded_to(bytes, m).len() <= encoded_to(bytes, n).len(),
        encoded_to(bytes, n).take(encoded_to(bytes, m).len() as int) == encoded_to(bytes, m),
    decreases n,
{
    if n > 0 {
        let rest = encoded_to(bytes, n - 1);
        lemma_encoded_to(
            bytes,
            if m < n {
                m
            } else {
                m - 1
            },
            n - 1,
        );
        lemma_encoded_byte(bytes[n - 1]);
        let out = encoded_to(bytes, n);
        assert forall|i| 0 <= i < out.len() implies '\0' <= #[trigger] out[i] <= '\u{7f}' by {
            if i < rest.len() {
                assert(out[i] == rest[i]);
            } else {
                assert(out[i] == encoded_byte(bytes[n - 1])[i - rest.len()]);
            }
        }
        if m < n {
            let k = encoded_to(bytes, m).len() as int;
            assert(out.take(k) =~= rest.take(k));
        } else {
            assert(out.take(out.len() as int) =~= out);
        }
    } else {
        assert(encoded_to(bytes, 0).take(0) =~= encoded_to(bytes, 0));
    }
}

proof fn lemma_unescaped_from(bytes: Seq<u8>, written: Seq<u8>, n: int)
    requires
        0 <= n <= bytes.len(),
        written == encode_utf8(encoded_to(bytes, bytes.len() as int)),
    ensures
        git_source::unescaped(written, encoded_to(bytes, n).len() as int) == Some(bytes.skip(n)),
    decreases bytes.len() - n,
{
    let len = bytes.len() as int;
    let whole = encoded_to(bytes, len);
    lemma_encoded_to(bytes, n, len);
    vstd::utf8::is_ascii_chars_encode_utf8(whole);
    let at = encoded_to(bytes, n).len() as int;
    if n == len {
        assert(bytes.skip(n) =~= seq![]);
    } else {
        let b = bytes[n];
        lemma_unescaped_from(bytes, written, n + 1);
        lemma_encoded_byte(b);
        lemma_encoded_to(bytes, n + 1, len);
        let next = encoded_to(bytes, n + 1);
        assert forall|i: int| 0 <= i < encoded_byte(b).len() implies #[trigger] encoded_byte(b)[i]
            == whole[at + i] by {
            assert(next[at + i] == encoded_byte(b)[i]);
            assert(whole.take(next.len() as int)[at + i] == whole[at + i]);
        }
        assert(written[at] == whole[at] as u8);
        assert(seq![b] + bytes.skip(n + 1) =~= bytes.skip(n));
        if !is_unreserved(b) {
            assert(encoded_byte(b)[0] == whole[at]);
            assert(encoded_byte(b)[1] == whole[at + 1]);
            assert(encoded_byte(b)[2] == whole[at + 2]);
            assert(written[at + 1] == whole[at + 1] as u8);
            assert(written[at + 2] == whole[at + 2] as u8);
            assert((b / 16) * 16 + b % 16 == b);
        } else {
            assert(encoded_byte(b)[0] == whole[at]);
        }
    }
}

/// Whatever is put into a URL comes out again: its percent escapes spell the
/// text.
pub proof fn lemma_url_component_decodes(s: Seq<char>)
    ensures
        git_source::percent_decoded(encoded(s)) == Some(s),
{
    let bytes = encode_utf8(s);
    lemma_unescaped_from(bytes, encode_utf8(encoded(s)), 0);
    assert(bytes.skip(0) =~= bytes);
    vstd::utf8::encode_utf8_valid_utf8(s);
    vstd::utf8::encode_utf8_decode_utf8(s);
}

/// A release without a problem is consistent: every crate is listed with the
/// version, and its manifest is in order.
pub proof fn lemma_valid_release_is_consistent(
    packages: Seq<char>,
    manifests: Seq<Result<Seq<char>, Seq<char>>>,
    expected: Seq<char>,
    from: int,
    i: int,
)
    requires
        0 <= from <= i < CRATE_COUNT,
        crates_problem(packages, manifests, expected, from) is None,
    ensures
        text::holds(packages, package_marker(crate_of(i).0, expected)),
        manifests[i] matches Ok(manifest) && manifest_problem(i, manifest, expected) is None,
    decreases i - from,
{
    if from < i {
        lemma_valid_release_is_consistent(packages, manifests, expected, from + 1, i);
    }
}

proof fn lemma_settings_verify(patches: Seq<Seq<char>>, n: int, i: int)
    requires
        0 <= n <= patches.len(),
        forall|k: int| 0 <= k < patches.len() ==> text::first_is(#[trigger] patches[k], 'p'),
        0 <= i < configured(patches, n).len(),
    ensures
        configured(patches, n)[i] != "--no-verify"@,
    decreases n,
{
    reveal_strlit("--no-verify");
    reveal_strlit("--config");
    if n > 0 {
        let rest = configured(patches, n - 1);
        if i < rest.len() {
            lemma_settings_verify(patches, n - 1, i);
        } else if i == rest.len() {
            assert(configured(patches, n)[i] == "--config"@);
        } else {
            assert(configured(patches, n)[i] == patches[n - 1]);
        }
    }
}

proof fn lemma_patches_name_crates(
    manifest: Seq<char>,
    root: Seq<char>,
    platform: Platform,
    n: int,
    k: int,
)
    requires
        0 <= k < patches_among(manifest, root, platform, n).len(),
    ensures
        text::first_is(patches_among(manifest, root, platform, n)[k], 'p'),
    decreases n,
{
    reveal_strlit("patch.crates-io.");
    if n > 0 {
        let rest = patches_among(manifest, root, platform, n - 1);
        if k < rest.len() {
            lemma_patches_name_crates(manifest, root, platform, n - 1, k);
        } else {
            assert(patches_among(manifest, root, platform, n)[k] == patch_of(
                n - 1,
                root,
                platform,
            ));
        }
    }
}

/// A dry run verifies every package: no argument switches that off.
pub proof fn lemma_dry_run_verifies(
    crate_name: Seq<char>,
    manifest: Seq<char>,
    root: Seq<char>,
    platform: Platform,
    i: int,
)
    requires
        crate_name != "--no-verify"@,
        0 <= i < dry_run_of(crate_name, manifest, root, platform).len(),
    ensures
        dry_run_of(crate_name, manifest, root, platform)[i] != "--no-verify"@,
{
    reveal_strlit("--no-verify");
    reveal_strlit("publish");
    reveal_strlit("--dry-run");
    reveal_strlit("--locked");
    reveal_strlit("--registry");
    reveal_strlit("crates-io");
    reveal_strlit("-p");
    let patches = patches_among(manifest, root, platform, CRATE_COUNT as int);
    let base = dry_run_base(crate_name);
    if i < base.len() {
        assert(dry_run_of(crate_name, manifest, root, platform)[i] == base[i]);
    } else {
        assert forall|k: int| 0 <= k < patches.len() implies text::first_is(
            #[trigger] patches[k],
            'p',
        ) by {
            lemma_patches_name_crates(manifest, root, platform, CRATE_COUNT as int, k);
        }
        lemma_settings_verify(patches, patches.len() as int, i - base.len());
    }
}

} // verus!
