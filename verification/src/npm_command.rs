//! The package-manager command and the places where it keeps packages.

use vstd::prelude::*;

use crate::json;
use crate::paths;
use crate::paths::{EntryModel, FsPath, FsTree, PathModel};
use crate::text;

verus! {

/// The system that a command line is built for.
#[derive(Debug, Clone, Copy, PartialEq, Eq, Structural)]
pub enum Platform {
    Unix,
    Windows,
}

/// `std::path::is_separator` of `\`, which is a separator on Windows alone.
/// Nothing is stated of the result: it depends on the machine.
#[verifier::external_body]
fn backslash_separates() -> (r: bool) {
    std::path::is_separator('\\')
}

/// Shows that the program runs where `\` is an ordinary character. Only
/// `System::host` makes one, and only there.
#[derive(Debug, Clone, Copy, PartialEq, Eq, Structural)]
pub struct Unix {
    here: bool,
}

/// The system that a path is for. Paths of Unix are for programs that run
/// there.
#[derive(Debug, Clone, Copy, PartialEq, Eq, Structural)]
pub enum System {
    Unix(Unix),
    Windows,
}

impl View for System {
    type V = Platform;

    open spec fn view(&self) -> Platform {
        match self {
            System::Unix(_) => Platform::Unix,
            System::Windows => Platform::Windows,
        }
    }
}

impl System {
    /// The system that the program runs on.
    pub fn host() -> (r: System)
        ensures
            r@ == Platform::Unix || r@ == Platform::Windows,
    {
        if backslash_separates() {
            System::Windows
        } else {
            System::Unix(Unix { here: true })
        }
    }

    /// Whether two systems are the same.
    pub fn is_same(self, other: System) -> (r: bool)
        ensures
            r == (self@ == other@),
    {
        self.platform() == other.platform()
    }

    /// Which system it is.
    pub fn platform(self) -> (r: Platform)
        ensures
            r == self@,
    {
        match self {
            System::Unix(_) => Platform::Unix,
            System::Windows => Platform::Windows,
        }
    }
}

impl Platform {
    /// The system that the program runs on.
    pub fn host() -> (r: Platform)
        ensures
            r == Platform::Unix || r == Platform::Windows,
    {
        System::host().platform()
    }
}

/// Package-manager behaviour, by the family of the program.
#[derive(Debug, Clone, Copy, PartialEq, Eq, Structural)]
pub enum NpmManagerKind {
    Npm,
    Pnpm,
    Bun,
    Other,
}

/// The settings that the choice of a command reads.
pub struct CommandSettings {
    /// The `npmCommand` of one settings file, where it is set.
    pub npm_command: Option<Vec<String>>,
}

/// A validated package-manager executable and its fixed argument prefix.
pub struct NpmCommand {
    pub program: String,
    pub prefix_args: Vec<String>,
    pub manager_kind: NpmManagerKind,
    pub configured: bool,
}

/// The model of `NpmCommand`.
#[verifier::ext_equal]
pub struct CommandModel {
    pub program: Seq<char>,
    pub prefix_args: Seq<Seq<char>>,
    pub manager_kind: NpmManagerKind,
    pub configured: bool,
}

impl View for NpmCommand {
    type V = CommandModel;

    open spec fn view(&self) -> CommandModel {
        CommandModel {
            program: self.program@,
            prefix_args: text::texts(self.prefix_args@),
            manager_kind: self.manager_kind,
            configured: self.configured,
        }
    }
}

/// The view of a command or of the message of a refusal.
pub open spec fn command_view(r: Result<NpmCommand, String>) -> Result<CommandModel, Seq<char>> {
    match r {
        Ok(c) => Ok(c@),
        Err(m) => Err(m@),
    }
}

/// The views of an optional list of strings.
pub open spec fn opt_texts(o: Option<&[String]>) -> Option<Seq<Seq<char>>> {
    match o {
        Some(v) => Some(text::texts(v@)),
        None => None,
    }
}

/// Where the name behind the last `/` or `\` in front of `i` starts.
pub open spec fn name_start(s: Seq<char>, i: int) -> int
    decreases i,
{
    if 0 < i <= s.len() && s[i - 1] != '/' && s[i - 1] != '\\' {
        name_start(s, i - 1)
    } else {
        i
    }
}

/// The position of the last `--` of `parts` in front of `i`.
pub open spec fn last_dashes(parts: Seq<Seq<char>>, i: int) -> Option<int>
    decreases i,
{
    if i <= 0 {
        None
    } else if parts[i - 1] == "--"@ {
        Some(i - 1)
    } else {
        last_dashes(parts, i - 1)
    }
}

/// The program that a command finally runs: what follows its last `--`, or
/// the program itself.
pub open spec fn effective_program(program: Seq<char>, prefix: Seq<Seq<char>>) -> Seq<char> {
    let parts = seq![program] + prefix;
    match last_dashes(parts, parts.len() as int) {
        Some(i) => if i + 1 < parts.len() {
            parts[i + 1]
        } else {
            seq![]
        },
        None => program,
    }
}

/// A program's name without its directory, in small letters and without
/// `.cmd` or `.exe`.
pub open spec fn program_name(program: Seq<char>) -> Seq<char> {
    let name = text::lower_of(program.skip(name_start(program, program.len() as int)));
    match text::before_suffix(name, ".cmd"@) {
        Some(stem) => stem,
        None => match text::before_suffix(name, ".exe"@) {
            Some(stem) => stem,
            None => name,
        },
    }
}

/// The family that a command belongs to.
pub open spec fn kind_of(program: Seq<char>, prefix: Seq<Seq<char>>) -> NpmManagerKind {
    let name = program_name(effective_program(program, prefix));
    if name == "npm"@ {
        NpmManagerKind::Npm
    } else if name == "pnpm"@ {
        NpmManagerKind::Pnpm
    } else if name == "bun"@ {
        NpmManagerKind::Bun
    } else {
        NpmManagerKind::Other
    }
}

/// The family that a command belongs to.
pub fn manager_kind(program: &str, prefix_args: &[String]) -> (kind: NpmManagerKind)
    ensures
        kind == kind_of(program@, text::texts(prefix_args@)),
{
    let ghost parts = seq![program@] + text::texts(prefix_args@);
    let mut effective: &str = program;
    let mut i: usize = prefix_args.len();
    let mut found = false;
    assert(prefix_args@.len() + 1 == parts.len());
    while i > 0 && !found
        invariant
            i <= prefix_args@.len(),
            parts == seq![program@] + text::texts(prefix_args@),
            !found ==> last_dashes(parts, parts.len() as int) == last_dashes(parts, i + 1),
            !found ==> effective@ == program@,
            found ==> effective@ == effective_program(program@, text::texts(prefix_args@)),
        decreases (if found {
            0int
        } else {
            i + 1
        }),
    {
        assert(parts[i as int] == prefix_args@[i - 1]@);
        if text::same(prefix_args[i - 1].as_str(), "--") {
            found = true;
            if i < prefix_args.len() {
                assert(parts[i + 1] == prefix_args@[i as int]@);
                effective = prefix_args[i].as_str();
            } else {
                proof {
                    reveal_strlit("");
                }
                effective = "";
                assert(effective@ =~= seq![]);
            }
        } else {
            i -= 1;
        }
    }
    if !found {
        assert(parts[0] == program@);
        assert(last_dashes(parts, 0) is None);
        if text::same(program, "--") {
            if prefix_args.len() > 0 {
                assert(parts[1] == prefix_args@[0]@);
                effective = prefix_args[0].as_str();
            } else {
                proof {
                    reveal_strlit("");
                }
                effective = "";
                assert(effective@ =~= seq![]);
            }
        }
    }
    assert(effective@ == effective_program(program@, text::texts(prefix_args@)));
    let chars = text::chars_of(effective);
    let mut start: usize = chars.len();
    while start > 0 && chars[start - 1] != '/' && chars[start - 1] != '\\'
        invariant
            start <= chars@.len(),
            chars@ == effective@,
            name_start(effective@, effective@.len() as int) == name_start(
                effective@,
                start as int,
            ),
        decreases start,
    {
        start -= 1;
    }
    let lowered = text::lower(text::skip(effective, start));
    let name = match text::strip_suffix(lowered.as_str(), ".cmd") {
        Some(stem) => stem,
        None => match text::strip_suffix(lowered.as_str(), ".exe") {
            Some(stem) => stem,
            None => lowered.as_str(),
        },
    };
    if text::same(name, "npm") {
        NpmManagerKind::Npm
    } else if text::same(name, "pnpm") {
        NpmManagerKind::Pnpm
    } else if text::same(name, "bun") {
        NpmManagerKind::Bun
    } else {
        NpmManagerKind::Other
    }
}

/// Whether `program` is one of the script launchers that Windows installs as
/// `.cmd` files.
pub open spec fn script_launcher(program: Seq<char>) -> bool {
    let s = text::lower_of(program);
    s == "npm"@ || s == "pnpm"@ || s == "yarn"@ || s == "npx"@ || s == "corepack"@
}

/// The executable that stands for `program` on a platform: on Windows the
/// bare name of a script launcher gets its `.cmd`.
pub open spec fn launched_program(platform: Platform, program: Seq<char>) -> Seq<char> {
    if platform == Platform::Windows && !program.contains('/') && !program.contains('\\')
        && script_launcher(program) {
        program + ".cmd"@
    } else {
        program
    }
}

/// The executable that stands for `program` on a platform.
pub fn windows_command_program(platform: Platform, program: &str) -> (out: String)
    ensures
        out@ == launched_program(platform, program@),
{
    if platform == Platform::Windows && !text::contains_char(program, '/') && !text::contains_char(
        program,
        '\\',
    ) {
        let lowered = text::lower(program);
        let s = lowered.as_str();
        if text::same(s, "npm") || text::same(s, "pnpm") || text::same(s, "yarn") || text::same(
            s,
            "npx",
        ) || text::same(s, "corepack") {
            return text::cat(program, ".cmd");
        }
    }
    program.to_owned()
}

/// The platform's own npm launcher.
pub open spec fn default_program(platform: Platform) -> Seq<char> {
    match platform {
        Platform::Windows => "npm.cmd"@,
        Platform::Unix => "npm"@,
    }
}

/// The platform's own npm launcher.
pub fn default_npm_program(platform: Platform) -> (out: &'static str)
    ensures
        out@ == default_program(platform),
{
    match platform {
        Platform::Windows => "npm.cmd",
        Platform::Unix => "npm",
    }
}

/// The command that the setting `argv` stands for: the platform's npm where
/// it is missing or empty, a refusal where its program is blank.
pub open spec fn command_of(platform: Platform, argv: Option<Seq<Seq<char>>>) -> Result<
    CommandModel,
    Seq<char>,
> {
    match argv {
        Some(argv) => if argv.len() == 0 {
            Ok(default_command(platform))
        } else if text::trim_of(argv[0]).len() == 0 {
            Err("invalid npmCommand: first array entry must be a non-empty command"@)
        } else {
            let program = launched_program(platform, argv[0]);
            Ok(
                CommandModel {
                    program,
                    prefix_args: argv.skip(1),
                    manager_kind: kind_of(program, argv.skip(1)),
                    configured: true,
                },
            )
        },
        None => Ok(default_command(platform)),
    }
}

/// The platform's npm without arguments.
pub open spec fn default_command(platform: Platform) -> CommandModel {
    CommandModel {
        program: default_program(platform),
        prefix_args: seq![],
        manager_kind: kind_of(default_program(platform), seq![]),
        configured: false,
    }
}

/// The `npmCommand` of the first of `settings`, from the `i`th on, that has
/// one.
pub open spec fn first_command(settings: Seq<CommandSettings>, i: int) -> Option<Seq<Seq<char>>>
    decreases settings.len() - i,
{
    if i < 0 || i >= settings.len() {
        None
    } else {
        match settings[i].npm_command {
            Some(command) => Some(text::texts(command@)),
            None => first_command(settings, i + 1),
        }
    }
}

/// The `npmCommand` of one settings file.
pub open spec fn own_command(settings: CommandSettings) -> Option<Seq<Seq<char>>> {
    match settings.npm_command {
        Some(command) => Some(text::texts(command@)),
        None => None,
    }
}

/// The effective `npmCommand`: the first of the project's, where the project
/// is trusted, else the global one. A set but empty one counts.
pub open spec fn selected_command(
    project: Seq<CommandSettings>,
    global: CommandSettings,
    trusted: bool,
) -> Option<Seq<Seq<char>>> {
    if trusted && first_command(project, 0) is Some {
        first_command(project, 0)
    } else {
        own_command(global)
    }
}

/// The effective `npmCommand` of the project's settings, in their order of
/// precedence, and the global ones.
pub fn select_argv<'a>(
    project_settings: &'a [CommandSettings],
    global_settings: &'a CommandSettings,
    project_trusted: bool,
) -> (r: Option<&'a [String]>)
    ensures
        opt_texts(r) == selected_command(project_settings@, *global_settings, project_trusted),
{
    if project_trusted {
        let mut i: usize = 0;
        while i < project_settings.len()
            invariant
                i <= project_settings@.len(),
                project_trusted,
                first_command(project_settings@, 0) == first_command(
                    project_settings@,
                    i as int,
                ),
            decreases project_settings.len() - i,
        {
            match &project_settings[i].npm_command {
                Some(command) => {
                    return Some(command.as_slice());
                },
                None => {},
            }
            i += 1;
        }
    }
    match &global_settings.npm_command {
        Some(command) => Some(command.as_slice()),
        None => None,
    }
}

/// A specification that can stand as an argument: not empty, not an option,
/// without control characters.
pub open spec fn argument_spec(source: Seq<char>) -> Option<Seq<char>> {
    let body = match text::after_prefix(source, "npm:"@) {
        Some(rest) => rest,
        None => source,
    };
    let spec = text::trim_of(body);
    if spec.len() == 0 || spec[0] == '-' || text::some_control(spec) {
        None
    } else {
        Some(spec)
    }
}

/// The arguments that install `specs` under `root`.
pub open spec fn install_arguments(
    kind: NpmManagerKind,
    specs: Seq<Seq<char>>,
    root: Seq<char>,
) -> Seq<Seq<char>> {
    match kind {
        NpmManagerKind::Bun => seq!["install"@] + specs + seq!["--cwd"@, root, "--omit=peer"@],
        NpmManagerKind::Pnpm => seq!["install"@] + specs + seq![
            "--prefix"@,
            root,
            "--config.auto-install-peers=false"@,
            "--config.strict-peer-dependencies=false"@,
            "--config.strict-dep-builds=false"@,
        ],
        _ => seq!["install"@] + specs + seq!["--prefix"@, root, "--legacy-peer-deps"@],
    }
}

/// The arguments that remove `name` from `root`.
pub open spec fn uninstall_arguments(
    kind: NpmManagerKind,
    name: Seq<char>,
    root: Seq<char>,
) -> Seq<Seq<char>> {
    match kind {
        NpmManagerKind::Bun => seq!["uninstall"@, name, "--cwd"@, root],
        NpmManagerKind::Pnpm => seq!["uninstall"@, name, "--prefix"@, root],
        _ => seq!["uninstall"@, name, "--prefix"@, root, "--legacy-peer-deps"@],
    }
}

/// The arguments that ask for the global package root.
pub open spec fn root_query(kind: NpmManagerKind) -> Seq<Seq<char>> {
    match kind {
        NpmManagerKind::Bun => seq!["pm"@, "bin"@, "-g"@],
        _ => seq!["root"@, "-g"@],
    }
}

/// The arguments that ask where global packages are.
pub open spec fn package_query(kind: NpmManagerKind) -> Seq<Seq<char>> {
    match kind {
        NpmManagerKind::Pnpm => seq!["list"@, "-g"@, "--depth"@, "0"@, "--json"@],
        _ => root_query(kind),
    }
}

/// A name that can stand below `node_modules`: one segment, or `@scope/name`,
/// without `\`, control characters, `.` and `..`.
pub open spec fn package_name(name: Seq<char>) -> bool {
    if name.len() == 0 || text::some_control(name) || name.contains('\\') {
        false
    } else if name[0] == '@' {
        match text::cut(name.skip(1), "/"@) {
            Some((scope, bare)) => scope.len() > 0 && bare.len() > 0 && !bare.contains('/') && scope
                != "."@ && scope != ".."@ && bare != "."@ && bare != ".."@,
            None => false,
        }
    } else {
        !name.contains('/') && name != "."@ && name != ".."@
    }
}

/// Whether `package_name` can stand below `node_modules`.
pub fn valid_package_name(package_name: &str) -> (r: bool)
    ensures
        r == self::package_name(package_name@),
{
    if package_name.is_empty() || text::has_control(package_name) || text::contains_char(
        package_name,
        '\\',
    ) {
        return false;
    }
    if text::starts_with_char(package_name, '@') {
        match text::split_once(text::skip(package_name, 1), "/") {
            Some((scope, bare)) => !scope.is_empty() && !bare.is_empty() && !text::contains_char(
                bare,
                '/',
            ) && !text::same(scope, ".") && !text::same(scope, "..") && !text::same(bare, ".")
                && !text::same(bare, ".."),
            None => false,
        }
    } else {
        !text::contains_char(package_name, '/') && !text::same(package_name, ".") && !text::same(
            package_name,
            "..",
        )
    }
}

/// The absolute path on the one line of `output` that is not blank.
pub open spec fn single_line(platform: Platform, output: Seq<char>) -> Option<PathModel> {
    let lines = not_blank(text::lines_of(output), text::lines_of(output).len() as int);
    if lines.len() != 1 || text::some_control(text::trim_of(lines[0])) {
        None
    } else {
        let p = paths::path_of(platform, text::trim_of(lines[0]));
        if p.absolute() {
            Some(p)
        } else {
            None
        }
    }
}

/// Those of the first `n` lines that are not blank.
pub open spec fn not_blank(lines: Seq<Seq<char>>, n: int) -> Seq<Seq<char>>
    decreases n,
{
    if n <= 0 {
        seq![]
    } else if text::trim_of(lines[n - 1]).len() == 0 {
        not_blank(lines, n - 1)
    } else {
        not_blank(lines, n - 1).push(lines[n - 1])
    }
}

/// The absolute path on the one line of `output` that is not blank, as the
/// system reads it that the program runs on.
pub fn parse_single_absolute_line(output: &str) -> (r: Option<FsPath>)
    ensures
        paths::opt_path(r) == single_line(Platform::Unix, output@) || paths::opt_path(r)
            == single_line(Platform::Windows, output@),
{
    parse_single_absolute_line_on(System::host(), output)
}

/// The absolute path on the one line of `output` that is not blank.
pub fn parse_single_absolute_line_on(system: System, output: &str) -> (r: Option<FsPath>)
    ensures
        paths::opt_path(r) == single_line(system@, output@),
{
    let lines = text::lines(output);
    let mut kept: Vec<&str> = Vec::new();
    let mut i: usize = 0;
    while i < lines.len()
        invariant
            i <= lines@.len(),
            text::strs(lines@) == text::lines_of(output@),
            text::strs(kept@) =~= not_blank(text::strs(lines@), i as int),
        decreases lines.len() - i,
    {
        let line = lines[i];
        assert(text::strs(lines@)[i as int] == line@);
        if !text::trim(line).is_empty() {
            let ghost before = text::strs(kept@);
            kept.push(line);
            assert(text::strs(kept@) =~= before.push(line@));
        }
        i += 1;
    }
    assert(text::strs(kept@).len() == kept@.len());
    if kept.len() != 1 {
        return None;
    }
    assert(text::strs(kept@)[0] == kept@[0]@);
    let trimmed = text::trim(kept[0]);
    if text::has_control(trimmed) {
        return None;
    }
    let path = FsPath::parse_on(system, trimmed);
    if path.is_absolute() {
        Some(path)
    } else {
        None
    }
}

/// A global package root: an absolute path that leads to a directory named
/// `node_modules`, with its links followed.
pub open spec fn global_root(fs: Seq<EntryModel>, root: PathModel) -> Option<PathModel> {
    if !root.absolute() {
        None
    } else {
        match paths::canonical_at(fs, root) {
            Some(canonical) => if canonical.absolute() && paths::dir_at(fs, canonical)
                && paths::name_of(canonical) == Some("node_modules"@) {
                Some(canonical)
            } else {
                None
            },
            None => None,
        }
    }
}

/// The global package root that `root` leads to.
pub fn validate_global_root(fs: &FsTree, root: &FsPath) -> (r: Option<FsPath>)
    ensures
        paths::opt_path(r) == global_root(fs@, root@),
{
    if !root.is_absolute() {
        return None;
    }
    match fs.canonicalize(root) {
        Some(canonical) => {
            if canonical.is_absolute() && fs.is_dir(&canonical) && canonical.is_named("node_modules") {
                Some(canonical)
            } else {
                None
            }
        },
        None => None,
    }
}

/// Whether `p` is a directory with a manifest of its own.
pub open spec fn package_dir(fs: Seq<EntryModel>, p: PathModel) -> bool {
    paths::dir_at(fs, p) && paths::regular_at(fs, paths::below(p, "package.json"@))
}

fn is_package_dir(fs: &FsTree, p: &FsPath) -> (r: bool)
    ensures
        r == package_dir(fs@, p@),
{
    fs.is_dir(p) && fs.is_regular_file(&p.below("package.json"))
}

/// The directory of the package `name` below the global root `root`, with
/// its links followed. One that a link leads out of the root, or to another
/// package, is none.
pub open spec fn global_package(
    fs: Seq<EntryModel>,
    root: PathModel,
    name: Seq<char>,
) -> Option<PathModel> {
    match global_root(fs, root) {
        None => None,
        Some(top) => {
            let lexical = paths::below(top, name);
            if !package_name(name) || !package_dir(fs, lexical) {
                None
            } else {
                match paths::canonical_at(fs, lexical) {
                    None => None,
                    Some(found) => if package_dir(fs, found) && (paths::relative_to(
                        found,
                        top,
                    ) matches Some(way) && paths::same_path(
                        way,
                        paths::path_of(top.platform, name),
                    )) {
                        Some(found)
                    } else {
                        None
                    },
                }
            }
        },
    }
}

/// The nearest `node_modules` of `parts` in front of `n`, as the number of
/// components that end with it.
pub open spec fn node_modules_end(parts: Seq<Seq<char>>, n: int) -> Option<int>
    decreases n,
{
    if n <= 0 {
        None
    } else if parts[n - 1] == "node_modules"@ {
        Some(n)
    } else {
        node_modules_end(parts, n - 1)
    }
}

/// The components of `path` below its nearest `node_modules`.
pub open spec fn below_node_modules(path: PathModel) -> Option<Seq<Seq<char>>> {
    match node_modules_end(path.parts, path.parts.len() as int) {
        Some(n) => Some(path.parts.skip(n)),
        None => None,
    }
}

/// Where `path` lies below its nearest `node_modules`.
pub fn nearest_node_modules(path: &FsPath) -> (r: Option<FsPath>)
    ensures
        (match r {
            Some(p) => Some(p@.parts),
            None => None,
        }) == below_node_modules(path@),
        r matches Some(p) ==> p@.relative(),
{
    let mut n: usize = path.parts.len();
    while n > 0
        invariant
            n <= path.parts@.len(),
            node_modules_end(path@.parts, path@.parts.len() as int) == node_modules_end(
                path@.parts,
                n as int,
            ),
        decreases n,
    {
        assert(path@.parts[n - 1] == path.parts@[n - 1]@);
        if text::same(path.parts[n - 1].as_str(), "node_modules") {
            let head = path.head(n);
            assert(paths::within(path@, head@));
            return path.strip_prefix(&head);
        }
        n -= 1;
    }
    None
}

/// The package directory that pnpm reports for `name`: below the directory
/// that it reports for itself, and under the package's own name in the
/// nearest `node_modules`.
pub open spec fn pnpm_package(
    fs: Seq<EntryModel>,
    path: PathModel,
    name: Seq<char>,
    hint: PathModel,
) -> Option<PathModel> {
    if !path.absolute() || !package_dir(fs, path) {
        None
    } else {
        match paths::canonical_at(fs, path) {
            None => None,
            Some(found) => if package_dir(fs, found) && !paths::same_path(
                found,
                hint,
            ) && paths::within(found, hint)
                && package_name(name) && below_node_modules(found) == Some(
                paths::path_of(found.platform, name).parts,
            ) {
                Some(found)
            } else {
                None
            },
        }
    }
}

/// The directory that an absolute path leads to.
pub open spec fn absolute_dir(fs: Seq<EntryModel>, path: PathModel) -> Option<PathModel> {
    if !path.absolute() || !paths::dir_at(fs, path) {
        None
    } else {
        match paths::canonical_at(fs, path) {
            Some(found) => if found.absolute() && paths::dir_at(fs, found) {
                Some(found)
            } else {
                None
            },
            None => None,
        }
    }
}

/// The directory that an absolute path leads to.
pub fn validate_absolute_directory(fs: &FsTree, path: &FsPath) -> (r: Option<FsPath>)
    ensures
        paths::opt_path(r) == absolute_dir(fs@, path@),
{
    if !path.is_absolute() || !fs.is_dir(path) {
        return None;
    }
    match fs.canonicalize(path) {
        Some(found) => if found.is_absolute() && fs.is_dir(&found) {
            Some(found)
        } else {
            None
        },
        None => None,
    }
}

/// The package directory that pnpm reports for `package_name`.
pub fn validate_pnpm_package_path(
    fs: &FsTree,
    path: &FsPath,
    package_name: &str,
    root_hint: &FsPath,
) -> (r: Option<FsPath>)
    ensures
        paths::opt_path(r) == pnpm_package(fs@, path@, package_name@, root_hint@),
{
    if !path.is_absolute() || !is_package_dir(fs, path) {
        return None;
    }
    let found = match fs.canonicalize(path) {
        Some(found) => found,
        None => {
            return None;
        },
    };
    if !is_package_dir(fs, &found) || found.same(root_hint) || !found.starts_with(root_hint)
        || !valid_package_name(package_name) {
        return None;
    }
    match nearest_node_modules(&found) {
        Some(relative) => {
            let expected = FsPath::parse_on(found.system, package_name);
            if relative.same_parts(&expected) {
                Some(found)
            } else {
                None
            }
        },
        None => None,
    }
}

/// What one entry of pnpm's list says of the package `name`.
pub open spec fn pnpm_entry(fs: Seq<EntryModel>, entry: Seq<char>, name: Seq<char>) -> Option<
    PathModel,
> {
    match json::string_at(entry, "path"@) {
        None => None,
        Some(root) => match absolute_dir(fs, paths::path_of(paths::platform_of(fs), root)) {
            None => None,
            Some(hint) => match json::get_of(entry, "dependencies"@) {
                None => None,
                Some(dependencies) => match json::get_of(dependencies, name) {
                    None => None,
                    Some(dependency) => match json::string_at(dependency, "path"@) {
                        None => None,
                        Some(path) => pnpm_package(
                            fs,
                            paths::path_of(paths::platform_of(fs), path),
                            name,
                            hint,
                        ),
                    },
                },
            },
        },
    }
}

fn pnpm_entry_path(fs: &FsTree, entry: &str, name: &str) -> (r: Option<FsPath>)
    ensures
        paths::opt_path(r) == pnpm_entry(fs@, entry@, name@),
{
    let root = match json::get_string(entry, "path") {
        Some(root) => root,
        None => {
            return None;
        },
    };
    let hint = match validate_absolute_directory(
        fs,
        &FsPath::parse_on(fs.system(), root.as_str()),
    ) {
        Some(hint) => hint,
        None => {
            return None;
        },
    };
    let dependencies = match json::get(entry, "dependencies") {
        Some(dependencies) => dependencies,
        None => {
            return None;
        },
    };
    let dependency = match json::get(dependencies.as_str(), name) {
        Some(dependency) => dependency,
        None => {
            return None;
        },
    };
    match json::get_string(dependency.as_str(), "path") {
        Some(path) => validate_pnpm_package_path(
            fs,
            &FsPath::parse_on(fs.system(), path.as_str()),
            name,
            &hint,
        ),
        None => None,
    }
}

/// What the first of `entries`, from the `i`th on, that knows the package
/// `name` says of it.
pub open spec fn pnpm_entries(
    fs: Seq<EntryModel>,
    entries: Seq<Seq<char>>,
    name: Seq<char>,
    i: int,
) -> Option<PathModel>
    decreases entries.len() - i,
{
    if i < 0 || i >= entries.len() {
        None
    } else if pnpm_entry(fs, entries[i], name) is Some {
        pnpm_entry(fs, entries[i], name)
    } else {
        pnpm_entries(fs, entries, name, i + 1)
    }
}

/// Where the list that pnpm printed has the package `name`.
pub open spec fn pnpm_listed(fs: Seq<EntryModel>, output: Seq<char>, name: Seq<char>) -> Option<
    PathModel,
> {
    match json::json_read(output) {
        Ok(_) => pnpm_entries(fs, json::items_or_self(output), name, 0),
        Err(_) => None,
    }
}

/// Where the list that pnpm printed has the package `package_name`.
pub fn parse_pnpm_global_package_path(fs: &FsTree, output: &str, package_name: &str) -> (r: Option<
    FsPath,
>)
    ensures
        paths::opt_path(r) == pnpm_listed(fs@, output@, package_name@),
{
    match json::node_of(output) {
        Ok(_) => {},
        Err(_) => {
            return None;
        },
    }
    let entries = json::items_or_whole(output);
    let mut i: usize = 0;
    while i < entries.len()
        invariant
            i <= entries@.len(),
            pnpm_entries(fs@, text::texts(entries@), package_name@, 0) == pnpm_entries(
                fs@,
                text::texts(entries@),
                package_name@,
                i as int,
            ),
            json::json_read(output@) is Ok,
            text::texts(entries@) == json::items_or_self(output@),
        decreases entries.len() - i,
    {
        assert(text::texts(entries@)[i as int] == entries@[i as int]@);
        match pnpm_entry_path(fs, entries[i].as_str(), package_name) {
            Some(path) => {
                return Some(path);
            },
            None => {},
        }
        i += 1;
    }
    None
}

/// The views of a list of optional paths.
pub open spec fn opt_path_views(v: Seq<Option<FsPath>>) -> Seq<Option<PathModel>> {
    Seq::new(v.len(), |i: int| paths::opt_path(v[i]))
}

/// For each of `package_names`, where the list that pnpm printed has it.
pub fn parse_pnpm_global_package_paths(fs: &FsTree, output: &str, package_names: &[String]) -> (out:
    Vec<Option<FsPath>>)
    ensures
        opt_path_views(out@) == Seq::new(
            package_names@.len(),
            |i: int| pnpm_listed(fs@, output@, package_names@[i]@),
        ),
{
    let mut out: Vec<Option<FsPath>> = Vec::new();
    let mut i: usize = 0;
    while i < package_names.len()
        invariant
            i == out@.len(),
            i <= package_names@.len(),
            forall|j: int|
                0 <= j < i ==> paths::opt_path(#[trigger] out@[j]) == pnpm_listed(
                    fs@,
                    output@,
                    package_names@[j]@,
                ),
        decreases package_names.len() - i,
    {
        out.push(parse_pnpm_global_package_path(fs, output, package_names[i].as_str()));
        i += 1;
    }
    assert(opt_path_views(out@) =~= Seq::new(
        package_names@.len(),
        |i: int| pnpm_listed(fs@, output@, package_names@[i]@),
    ));
    out
}

/// What the answer to the query for the global root means.
pub open spec fn global_roots_of(
    platform: Platform,
    fs: Seq<EntryModel>,
    command: CommandModel,
    output: Seq<char>,
) -> Result<Seq<PathModel>, Seq<char>> {
    let query = if command.manager_kind == NpmManagerKind::Bun {
        " pm bin -g"@
    } else {
        " root -g"@
    };
    match single_line(platform, output) {
        None => Err(command.program + query + " returned an empty or non-absolute path"@),
        Some(line) => if command.manager_kind == NpmManagerKind::Bun {
            match paths::parent_of(line) {
                None => Err(command.program + query + " returned a path without a parent"@),
                Some(parent) => {
                    let candidate = paths::below(
                        paths::below(paths::below(parent, "install"@), "global"@),
                        "node_modules"@,
                    );
                    match global_root(fs, candidate) {
                        Some(root) => Ok(seq![root]),
                        None => Err(
                            command.program + query
                                + " did not resolve to a valid global node_modules path: "@
                                + paths::path_text(candidate),
                        ),
                    }
                },
            }
        } else {
            match global_root(fs, line) {
                Some(root) => Ok(seq![root]),
                None => Err(
                    command.program + query + " returned an invalid global node_modules path: "@
                        + paths::path_text(line),
                ),
            }
        },
    }
}

/// The view of a list of paths or of a message.
pub open spec fn paths_view(r: Result<Vec<FsPath>, String>) -> Result<Seq<PathModel>, Seq<char>> {
    match r {
        Ok(v) => Ok(paths::path_views(v@)),
        Err(m) => Err(m@),
    }
}

/// The package `name` below the first of `roots`, from the `i`th on, that
/// has it.
pub open spec fn first_below(
    fs: Seq<EntryModel>,
    roots: Seq<PathModel>,
    name: Seq<char>,
    i: int,
) -> Option<PathModel>
    decreases roots.len() - i,
{
    if i < 0 || i >= roots.len() {
        None
    } else if global_package(fs, roots[i], name) is Some {
        global_package(fs, roots[i], name)
    } else {
        first_below(fs, roots, name, i + 1)
    }
}

/// The position of the first of `names`, from the `i`th on, that is no
/// package name.
pub open spec fn first_invalid(names: Seq<Seq<char>>, i: int) -> Option<int>
    decreases names.len() - i,
{
    if i < 0 || i >= names.len() {
        None
    } else if !package_name(names[i]) {
        Some(i)
    } else {
        first_invalid(names, i + 1)
    }
}

/// Refuses names that are no names of packages.
fn check_names(package_names: &[String]) -> (r: Result<(), String>)
    ensures
        match first_invalid(text::texts(package_names@), 0) {
            Some(i) => 0 <= i < package_names@.len() && (r matches Err(m) && m@
                == "invalid npm package name for global lookup: "@ + package_names@[i]@),
            None => r is Ok,
        },
{
    let ghost names = text::texts(package_names@);
    let mut i: usize = 0;
    while i < package_names.len()
        invariant
            i <= package_names@.len(),
            names == text::texts(package_names@),
            first_invalid(names, 0) == first_invalid(names, i as int),
        decreases package_names.len() - i,
    {
        assert(names[i as int] == package_names@[i as int]@);
        if !valid_package_name(package_names[i].as_str()) {
            return Err(
                text::cat(
                    "invalid npm package name for global lookup: ",
                    package_names[i].as_str(),
                ),
            );
        }
        i += 1;
    }
    Ok(())
}

/// What the answer to the query for global packages means for `names`.
pub open spec fn global_packages_of(
    platform: Platform,
    fs: Seq<EntryModel>,
    command: CommandModel,
    names: Seq<Seq<char>>,
    output: Seq<char>,
) -> Result<Seq<Option<PathModel>>, Seq<char>> {
    match first_invalid(names, 0) {
        Some(i) => Err("invalid npm package name for global lookup: "@ + names[i]),
        None => if names.len() == 0 {
            Ok(seq![])
        } else if command.manager_kind == NpmManagerKind::Pnpm {
            Ok(Seq::new(names.len(), |i: int| pnpm_listed(fs, output, names[i])))
        } else {
            match global_roots_of(platform, fs, command, output) {
                Err(m) => Err(m),
                Ok(roots) => Ok(
                    Seq::new(names.len(), |i: int| first_below(fs, roots, names[i], 0)),
                ),
            }
        },
    }
}

/// The view of a list of optional paths or of a message.
pub open spec fn opt_paths_view(r: Result<Vec<Option<FsPath>>, String>) -> Result<
    Seq<Option<PathModel>>,
    Seq<char>,
> {
    match r {
        Ok(v) => Ok(opt_path_views(v@)),
        Err(m) => Err(m@),
    }
}

fn list_of(a: &str, b: &str, c: &str) -> (out: Vec<String>)
    ensures
        text::texts(out@) == seq![a@, b@, c@],
{
    let mut out: Vec<String> = Vec::new();
    text::push_text(&mut out, a);
    text::push_text(&mut out, b);
    text::push_text(&mut out, c);
    assert(text::texts(out@) =~= seq![a@, b@, c@]);
    out
}

impl NpmCommand {
    /// The effective command of the project's settings, where the project is
    /// trusted, and the global ones; `global` holds the message where those
    /// could not be loaded.
    pub fn resolve(
        project: &[CommandSettings],
        global: Result<&CommandSettings, String>,
        project_trusted: bool,
    ) -> (r: Result<NpmCommand, String>)
        ensures
            match global {
                Ok(global) => {
                    ||| command_view(r) == command_of(
                        Platform::Unix,
                        selected_command(project@, *global, project_trusted),
                    )
                    ||| command_view(r) == command_of(
                        Platform::Windows,
                        selected_command(project@, *global, project_trusted),
                    )
                },
                Err(m) => command_view(r) == Err::<CommandModel, Seq<char>>(
                    "could not load npmCommand settings: "@ + m@,
                ),
            },
    {
        match global {
            Ok(global) => NpmCommand::from_argv(select_argv(project, global, project_trusted)),
            Err(m) => Err(text::cat("could not load npmCommand settings: ", m.as_str())),
        }
    }

    /// The command that the setting `argv` stands for on a platform.
    pub fn from_argv_on(platform: Platform, argv: Option<&[String]>) -> (r: Result<
        NpmCommand,
        String,
    >)
        ensures
            command_view(r) == command_of(platform, opt_texts(argv)),
    {
        match argv {
            Some(argv) => {
                assert(text::texts(argv@).len() == argv@.len());
                if argv.len() > 0 {
                    assert(text::texts(argv@)[0] == argv@[0]@);
                    if text::trim(argv[0].as_str()).is_empty() {
                        return Err(
                            "invalid npmCommand: first array entry must be a non-empty command".to_owned(),
                        );
                    }
                    let program = windows_command_program(platform, argv[0].as_str());
                    let mut prefix: Vec<String> = Vec::new();
                    let mut i: usize = 1;
                    while i < argv.len()
                        invariant
                            1 <= i <= argv@.len(),
                            text::texts(prefix@) =~= text::texts(argv@).subrange(1, i as int),
                        decreases argv.len() - i,
                    {
                        text::push_text(&mut prefix, argv[i].as_str());
                        i += 1;
                    }
                    assert(text::texts(prefix@) =~= text::texts(argv@).skip(1));
                    let kind = manager_kind(program.as_str(), prefix.as_slice());
                    return Ok(
                        NpmCommand {
                            program,
                            prefix_args: prefix,
                            manager_kind: kind,
                            configured: true,
                        },
                    );
                }
            },
            None => {},
        }
        let program = default_npm_program(platform).to_owned();
        let prefix: Vec<String> = Vec::new();
        assert(text::texts(prefix@) =~= seq![]);
        let kind = manager_kind(program.as_str(), prefix.as_slice());
        Ok(NpmCommand { program, prefix_args: prefix, manager_kind: kind, configured: false })
    }

    /// The command that the setting `argv` stands for on the host.
    pub fn from_argv(argv: Option<&[String]>) -> (r: Result<NpmCommand, String>)
        ensures
            command_view(r) == command_of(Platform::Unix, opt_texts(argv)) || command_view(r)
                == command_of(Platform::Windows, opt_texts(argv)),
    {
        NpmCommand::from_argv_on(Platform::host(), argv)
    }

    /// The executable, launched without a shell.
    pub fn program(&self) -> (out: &str)
        ensures
            out@ == self@.program,
    {
        self.program.as_str()
    }

    /// The fixed arguments in front of each operation's.
    pub fn prefix_args(&self) -> (out: &[String])
        ensures
            text::texts(out@) == self@.prefix_args,
    {
        self.prefix_args.as_slice()
    }

    /// Whether the command came from an explicit setting.
    pub fn is_configured(&self) -> (r: bool)
        ensures
            r == self@.configured,
    {
        self.configured
    }

    /// The package-manager family.
    pub fn manager_kind(&self) -> (kind: NpmManagerKind)
        ensures
            kind == self@.manager_kind,
    {
        self.manager_kind
    }

    /// The fixed arguments followed by those of one operation.
    pub fn combined_args(&self, operation_args: &[String]) -> (out: Vec<String>)
        ensures
            text::texts(out@) == self@.prefix_args + text::texts(operation_args@),
    {
        let mut out = text::clone_all(self.prefix_args.as_slice());
        text::push_texts(&mut out, operation_args);
        out
    }

    /// The arguments of the registry version lookup.
    pub fn view_args(&self, source_spec: &str) -> (r: Result<Vec<String>, String>)
        ensures
            (match r {
                Ok(args) => Ok(text::texts(args@)),
                Err(m) => Err(m@),
            }) == (match argument_spec(source_spec@) {
                Some(spec) => Ok(
                    self@.prefix_args + seq!["view"@, spec, "version"@, "--json"@],
                ),
                None => Err("npm package spec must be a safe, non-empty argument"@),
            }),
    {
        let body = match text::strip_prefix(source_spec, "npm:") {
            Some(rest) => rest,
            None => source_spec,
        };
        let spec = text::trim(body);
        if spec.is_empty() || text::starts_with_char(spec, '-') || text::has_control(spec) {
            return Err("npm package spec must be a safe, non-empty argument".to_owned());
        }
        let mut args = list_of("view", spec, "version");
        text::push_text(&mut args, "--json");
        assert(text::texts(args@) =~= seq!["view"@, spec@, "version"@, "--json"@]);
        Ok(self.combined_args(args.as_slice()))
    }

    /// The arguments that install `specs` under `install_root`.
    pub fn install_args(&self, specs: &[String], install_root: &FsPath) -> (out: Vec<String>)
        ensures
            text::texts(out@) == install_arguments(
                self@.manager_kind,
                text::texts(specs@),
                paths::path_text(install_root@),
            ),
    {
        let root = install_root.to_text();
        let mut args: Vec<String> = Vec::new();
        text::push_text(&mut args, "install");
        text::push_texts(&mut args, specs);
        match self.manager_kind {
            NpmManagerKind::Bun => {
                text::push_text(&mut args, "--cwd");
                text::push_text(&mut args, root.as_str());
                text::push_text(&mut args, "--omit=peer");
            },
            NpmManagerKind::Pnpm => {
                text::push_text(&mut args, "--prefix");
                text::push_text(&mut args, root.as_str());
                text::push_text(&mut args, "--config.auto-install-peers=false");
                text::push_text(&mut args, "--config.strict-peer-dependencies=false");
                text::push_text(&mut args, "--config.strict-dep-builds=false");
            },
            _ => {
                text::push_text(&mut args, "--prefix");
                text::push_text(&mut args, root.as_str());
                text::push_text(&mut args, "--legacy-peer-deps");
            },
        }
        assert(text::texts(args@) =~= install_arguments(
            self@.manager_kind,
            text::texts(specs@),
            paths::path_text(install_root@),
        ));
        args
    }

    /// The arguments that remove `package_name` from `install_root`.
    pub fn uninstall_args(&self, package_name: &str, install_root: &FsPath) -> (out: Vec<String>)
        ensures
            text::texts(out@) == uninstall_arguments(
                self@.manager_kind,
                package_name@,
                paths::path_text(install_root@),
            ),
    {
        let root = install_root.to_text();
        let flag = match self.manager_kind {
            NpmManagerKind::Bun => "--cwd",
            _ => "--prefix",
        };
        let mut args = list_of("uninstall", package_name, flag);
        text::push_text(&mut args, root.as_str());
        match self.manager_kind {
            NpmManagerKind::Bun => {},
            NpmManagerKind::Pnpm => {},
            _ => {
                text::push_text(&mut args, "--legacy-peer-deps");
            },
        }
        assert(text::texts(args@) =~= uninstall_arguments(
            self@.manager_kind,
            package_name@,
            paths::path_text(install_root@),
        ));
        args
    }

    /// The arguments that ask for the global package root.
    pub fn global_root_args(&self) -> (out: Vec<String>)
        ensures
            text::texts(out@) == self@.prefix_args + root_query(self@.manager_kind),
    {
        let mut args: Vec<String> = Vec::new();
        match self.manager_kind {
            NpmManagerKind::Bun => {
                text::push_text(&mut args, "pm");
                text::push_text(&mut args, "bin");
            },
            _ => {
                text::push_text(&mut args, "root");
            },
        }
        text::push_text(&mut args, "-g");
        assert(text::texts(args@) =~= root_query(self@.manager_kind));
        self.combined_args(args.as_slice())
    }

    /// The arguments that ask where global packages are.
    pub fn global_package_args(&self) -> (out: Vec<String>)
        ensures
            text::texts(out@) == self@.prefix_args + package_query(self@.manager_kind),
    {
        if self.manager_kind == NpmManagerKind::Pnpm {
            let mut args = list_of("list", "-g", "--depth");
            text::push_text(&mut args, "0");
            text::push_text(&mut args, "--json");
            assert(text::texts(args@) =~= package_query(self@.manager_kind));
            self.combined_args(args.as_slice())
        } else {
            self.global_root_args()
        }
    }

    /// The global package roots, from the answer to `global_root_args`. Each
    /// is absolute, a directory and named `node_modules`; nothing is ever
    /// installed into or removed from it.
    pub fn global_package_roots(
        &self,
        system: System,
        fs: &FsTree,
        output: Result<String, String>,
    ) -> (r: Result<Vec<FsPath>, String>)
        ensures
            paths_view(r) == (match output {
                Ok(output) => global_roots_of(system@, fs@, self@, output@),
                Err(m) => Err(m@),
            }),
    {
        let output = match output {
            Ok(output) => output,
            Err(m) => {
                return Err(m);
            },
        };
        let bun = self.manager_kind == NpmManagerKind::Bun;
        let query = if bun {
            " pm bin -g"
        } else {
            " root -g"
        };
        let line = match parse_single_absolute_line_on(system, output.as_str()) {
            Some(line) => line,
            None => {
                return Err(
                    text::cat3(
                        self.program.as_str(),
                        query,
                        " returned an empty or non-absolute path",
                    ),
                );
            },
        };
        let candidate = if bun {
            match line.parent() {
                Some(parent) => parent.below("install").below("global").below("node_modules"),
                None => {
                    return Err(
                        text::cat3(
                            self.program.as_str(),
                            query,
                            " returned a path without a parent",
                        ),
                    );
                },
            }
        } else {
            line
        };
        match validate_global_root(fs, &candidate) {
            Some(root) => {
                let mut roots: Vec<FsPath> = Vec::new();
                roots.push(root);
                assert(paths::path_views(roots@) =~= seq![root@]);
                Ok(roots)
            },
            None => {
                let shown = candidate.to_text();
                let message = if bun {
                    " did not resolve to a valid global node_modules path: "
                } else {
                    " returned an invalid global node_modules path: "
                };
                Err(text::cat4(self.program.as_str(), query, message, shown.as_str()))
            },
        }
    }

    /// What to run in order to learn where `package_names` are installed
    /// globally: nothing where there are none to ask for, and nothing where
    /// one of them is no name of a package.
    pub fn global_lookup(&self, package_names: &[String]) -> (r: Result<
        Option<Vec<String>>,
        String,
    >)
        ensures
            match first_invalid(text::texts(package_names@), 0) {
                Some(i) => r matches Err(m) && m@
                    == "invalid npm package name for global lookup: "@ + package_names@[i]@,
                None => match r {
                    Ok(Some(args)) => package_names@.len() > 0 && text::texts(args@)
                        == self@.prefix_args + package_query(self@.manager_kind),
                    Ok(None) => package_names@.len() == 0,
                    Err(_) => false,
                },
            },
    {
        match check_names(package_names) {
            Err(m) => Err(m),
            Ok(()) => if package_names.len() == 0 {
                Ok(None)
            } else {
                Ok(Some(self.global_package_args()))
            },
        }
    }

    /// For each of `package_names`, where it is installed globally, from the
    /// answer to `global_lookup`.
    pub fn global_package_paths(
        &self,
        system: System,
        fs: &FsTree,
        package_names: &[String],
        output: Result<String, String>,
    ) -> (r: Result<Vec<Option<FsPath>>, String>)
        ensures
            opt_paths_view(r) == (match output {
                Ok(output) => global_packages_of(
                    system@,
                    fs@,
                    self@,
                    text::texts(package_names@),
                    output@,
                ),
                Err(m) => match first_invalid(text::texts(package_names@), 0) {
                    Some(i) => Err(
                        "invalid npm package name for global lookup: "@ + package_names@[i]@,
                    ),
                    None => if package_names@.len() == 0 {
                        Ok(seq![])
                    } else {
                        Err(m@)
                    },
                },
            }),
    {
        let ghost names = text::texts(package_names@);
        match check_names(package_names) {
            Err(m) => {
                return Err(m);
            },
            Ok(()) => {},
        }
        if package_names.len() == 0 {
            let out: Vec<Option<FsPath>> = Vec::new();
            assert(opt_path_views(out@) =~= seq![]);
            return Ok(out);
        }
        let answer = match output {
            Ok(answer) => answer,
            Err(m) => {
                return Err(m);
            },
        };
        if self.manager_kind == NpmManagerKind::Pnpm {
            let out = parse_pnpm_global_package_paths(fs, answer.as_str(), package_names);
            assert(opt_path_views(out@) =~= Seq::new(
                names.len(),
                |i: int| pnpm_listed(fs@, answer@, names[i]),
            ));
            return Ok(out);
        }
        let ghost shown = answer@;
        let roots = match self.global_package_roots(system, fs, Ok(answer)) {
            Ok(roots) => roots,
            Err(m) => {
                return Err(m);
            },
        };
        let ghost tops = paths::path_views(roots@);
        let mut out: Vec<Option<FsPath>> = Vec::new();
        let mut k: usize = 0;
        while k < package_names.len()
            invariant
                k == out@.len(),
                k <= package_names@.len(),
                names == text::texts(package_names@),
                tops == paths::path_views(roots@),
                forall|j: int|
                    0 <= j < k ==> paths::opt_path(#[trigger] out@[j]) == first_below(
                        fs@,
                        tops,
                        names[j],
                        0,
                    ),
            decreases package_names.len() - k,
        {
            let found = first_package_below(fs, roots.as_slice(), package_names[k].as_str());
            out.push(found);
            k += 1;
        }
        assert(opt_path_views(out@) =~= Seq::new(
            names.len(),
            |i: int| first_below(fs@, tops, names[i], 0),
        ));
        Ok(out)
    }

    /// Where `package_name` is installed globally, from the answer to
    /// `global_lookup`.
    pub fn global_package_path(
        &self,
        system: System,
        fs: &FsTree,
        package_name: &str,
        output: Result<String, String>,
    ) -> (r: Result<Option<FsPath>, String>)
        ensures
            (match r {
                Ok(p) => Ok(paths::opt_path(p)),
                Err(m) => Err(m@),
            }) == (if !self::package_name(package_name@) {
                Err("invalid npm package name for global lookup: "@ + package_name@)
            } else {
                match output {
                    Err(m) => Err(m@),
                    Ok(output) => match global_packages_of(
                        system@,
                        fs@,
                        self@,
                        seq![package_name@],
                        output@,
                    ) {
                        Ok(found) => Ok(found[0]),
                        Err(m) => Err(m),
                    },
                }
            }),
    {
        let mut names: Vec<String> = Vec::new();
        text::push_text(&mut names, package_name);
        assert(text::texts(names@) =~= seq![package_name@]);
        assert(first_invalid(text::texts(names@), 1) is None);
        assert(names@[0]@ == text::texts(names@)[0]);
        match self.global_package_paths(system, fs, names.as_slice(), output) {
            Ok(found) => {
                let mut found = found;
                assert(opt_path_views(found@).len() == 1);
                let last = found.pop();
                match last {
                    Some(path) => {
                        assert(opt_path_views(found@.push(path))[0] == paths::opt_path(path));
                        Ok(path)
                    },
                    None => Ok(None),
                }
            },
            Err(m) => Err(m),
        }
    }

    /// The directory of the package `package_name` below the global root
    /// `root`. That a path is returned grants no right to write there.
    pub fn validate_global_package_path(fs: &FsTree, root: &FsPath, package_name: &str) -> (r:
        Option<FsPath>)
        ensures
            paths::opt_path(r) == global_package(fs@, root@, package_name@),
    {
        let top = match validate_global_root(fs, root) {
            Some(top) => top,
            None => {
                return None;
            },
        };
        if !valid_package_name(package_name) {
            return None;
        }
        let relative = FsPath::parse_on(top.system, package_name);
        let lexical = top.below(package_name);
        if !is_package_dir(fs, &lexical) {
            return None;
        }
        match fs.canonicalize(&lexical) {
            Some(found) => {
                if !is_package_dir(fs, &found) {
                    return None;
                }
                match found.strip_prefix(&top) {
                    Some(actual) => if actual.same(&relative) {
                        Some(found)
                    } else {
                        None
                    },
                    None => None,
                }
            },
            None => None,
        }
    }
}

fn first_package_below(fs: &FsTree, roots: &[FsPath], name: &str) -> (r: Option<FsPath>)
    ensures
        paths::opt_path(r) == first_below(fs@, paths::path_views(roots@), name@, 0),
{
    let mut i: usize = 0;
    while i < roots.len()
        invariant
            i <= roots@.len(),
            first_below(fs@, paths::path_views(roots@), name@, 0) == first_below(
                fs@,
                paths::path_views(roots@),
                name@,
                i as int,
            ),
        decreases roots.len() - i,
    {
        assert(paths::path_views(roots@)[i as int] == roots@[i as int]@);
        let found = NpmCommand::validate_global_package_path(fs, &roots[i], name);
        if found.is_some() {
            return found;
        }
        i += 1;
    }
    None
}

/// The error text of a package manager, at most 512 bytes of it.
pub fn truncate_output(value: &str) -> (out: String)
    ensures
        out@ == text::truncated(value@, 512),
{
    text::truncate(value, 512)
}

/// How a failed operation is described: its exit status, and what it wrote
/// to its error stream, cut short.
pub open spec fn failure_detail(status: Seq<char>, stderr: Seq<char>) -> Seq<char> {
    let shown = text::trim_of(stderr);
    if shown.len() == 0 {
        "exited with "@ + status
    } else {
        "exited with "@ + status + ": "@ + text::truncated(shown, 512)
    }
}

/// How a failed operation is described.
pub fn describe_failure(status: &str, stderr: &str) -> (out: String)
    ensures
        out@ == failure_detail(status@, stderr@),
{
    let shown = text::trim(stderr);
    if shown.is_empty() {
        text::cat("exited with ", status)
    } else {
        let short = truncate_output(shown);
        text::cat4("exited with ", status, ": ", short.as_str())
    }
}

/// What a package manager printed, or why it cannot be used. `run` is what
/// came of running it: whether it succeeded and its status, and `printed`
/// its output as text.
pub open spec fn captured(
    program: Seq<char>,
    run: Result<(bool, Seq<char>), Seq<char>>,
    printed: Result<Seq<char>, Seq<char>>,
    stderr: Seq<char>,
) -> Result<Seq<char>, Seq<char>> {
    match run {
        Err(error) => Err(
            "could not execute "@ + program + " for global package lookup: "@ + error,
        ),
        Ok((success, status)) => if !success {
            Err(program + " "@ + failure_detail(status, stderr))
        } else {
            match printed {
                Ok(output) => Ok(output),
                Err(error) => Err(
                    program + " global package lookup returned non-UTF-8 output: "@ + error,
                ),
            }
        },
    }
}

/// The view of how a process ended.
pub open spec fn run_view(run: Result<(bool, String), String>) -> Result<
    (bool, Seq<char>),
    Seq<char>,
> {
    match run {
        Ok(ended) => Ok((ended.0, ended.1@)),
        Err(error) => Err(error@),
    }
}

/// What a package manager printed, or why it cannot be used.
pub fn capture_output(
    program: &str,
    run: Result<(bool, String), String>,
    printed: Result<String, String>,
    stderr: &str,
) -> (r: Result<String, String>)
    ensures
        (match r {
            Ok(output) => Ok(output@),
            Err(m) => Err(m@),
        }) == captured(
            program@,
            run_view(run),
            match printed {
                Ok(output) => Ok(output@),
                Err(error) => Err(error@),
            },
            stderr@,
        ),
{
    match run {
        Err(error) => Err(
            text::cat4(
                "could not execute ",
                program,
                " for global package lookup: ",
                error.as_str(),
            ),
        ),
        Ok((success, status)) => if !success {
            let detail = describe_failure(status.as_str(), stderr);
            Err(text::cat3(program, " ", detail.as_str()))
        } else {
            match printed {
                Ok(output) => Ok(output),
                Err(error) => Err(
                    text::cat3(
                        program,
                        " global package lookup returned non-UTF-8 output: ",
                        error.as_str(),
                    ),
                ),
            }
        },
    }
}

/// What came of an installation at startup.
pub open spec fn remedied(
    program: Seq<char>,
    run: Result<(bool, Seq<char>), Seq<char>>,
    stderr: Seq<char>,
) -> Option<Seq<char>> {
    match run {
        Err(error) => Some(program + " startup package operation failed: "@ + error),
        Ok((success, status)) => if success {
            None
        } else {
            Some(program + " "@ + failure_detail(status, stderr))
        },
    }
}

/// What came of an installation at startup.
pub fn run_startup_remediation(
    program: &str,
    run: Result<(bool, String), String>,
    stderr: &str,
) -> (r: Result<(), String>)
    ensures
        match r {
            Ok(_) => remedied(program@, run_view(run), stderr@) is None,
            Err(m) => remedied(program@, run_view(run), stderr@) == Some(m@),
        },
{
    match run {
        Err(error) => Err(
            text::cat3(program, " startup package operation failed: ", error.as_str()),
        ),
        Ok((success, status)) => if success {
            Ok(())
        } else {
            let detail = describe_failure(status.as_str(), stderr);
            Err(text::cat3(program, " ", detail.as_str()))
        },
    }
}

/// Whatever is found in a global root stays below that root, under the
/// package's own name: a link that leads elsewhere is refused.
pub proof fn lemma_global_package_stays_below(
    fs: Seq<EntryModel>,
    root: PathModel,
    name: Seq<char>,
)
    requires
        global_package(fs, root, name) is Some,
    ensures
        paths::within(global_package(fs, root, name)->0, global_root(fs, root)->0),
        paths::relative_to(
            global_package(fs, root, name)->0,
            global_root(fs, root)->0,
        ) matches Some(way) && paths::same_path(
            way,
            paths::path_of(global_root(fs, root)->0.platform, name),
        ),
        package_dir(fs, global_package(fs, root, name)->0),
{
}

/// An untrusted project decides nothing: its settings are not read.
pub proof fn lemma_untrusted_project_is_ignored(
    project: Seq<CommandSettings>,
    other: Seq<CommandSettings>,
    global: CommandSettings,
)
    ensures
        selected_command(project, global, false) == selected_command(other, global, false),
        selected_command(project, global, false) == own_command(global),
{
}

/// A configured command is never parsed by a shell: its arguments are those
/// of the setting, one for one.
pub proof fn lemma_arguments_are_kept(platform: Platform, argv: Seq<Seq<char>>)
    requires
        argv.len() > 0,
        text::trim_of(argv[0]).len() > 0,
    ensures
        command_of(platform, Some(argv)) matches Ok(c) && c.prefix_args == argv.skip(1)
            && c.configured,
{
}

} // verus!
