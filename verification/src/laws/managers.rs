//! Which package manager is run, with what arguments, and how its run and the
//! recovery of an interrupted update go.

use vstd::prelude::*;

use crate::npm_command;
use crate::npm_command::{CommandSettings, NpmManagerKind, Platform};
use crate::npm_process;
use crate::npm_process::{ActionModel, ErrorModel, ProcessEvent, ProcessModel};
use crate::paths;
use crate::recovery;
use crate::recovery::RecoveryModel;
use crate::text;

verus! {

/// Without a setting, or with an empty one, npm is run; a setting that begins
/// with nothing is refused; any other names the program and its arguments.
pub proof fn lemma_command_is_chosen(platform: Platform, argv: Option<Seq<Seq<char>>>)
    ensures
        (argv matches Some(v) ==> v.len() == 0) ==> (npm_command::command_of(
            platform,
            argv,
        ) matches Ok(c) && !c.configured && c.prefix_args.len() == 0 && c.program == (
        match platform {
            Platform::Windows => seq!['n', 'p', 'm', '.', 'c', 'm', 'd'],
            Platform::Unix => seq!['n', 'p', 'm'],
        })),
        (argv matches Some(v) && v.len() > 0) ==> (npm_command::command_of(platform, argv) is Err
            <==> text::trim_of(argv->0[0]).len() == 0),
        platform == Platform::Unix && (argv matches Some(v) && v.len() > 0) ==> (
        npm_command::command_of(platform, argv) matches Ok(c) ==> c.program == argv->0[0]),
{
    reveal_strlit("npm.cmd");
    reveal_strlit("npm");
    assert("npm.cmd"@ =~= seq!['n', 'p', 'm', '.', 'c', 'm', 'd']);
    assert("npm"@ =~= seq!['n', 'p', 'm']);
}

/// On Windows the launchers that are scripts get their extension, unless they
/// are named with a path; anything else is left as it is.
pub proof fn lemma_launchers_get_their_extension(program: Seq<char>)
    ensures
        npm_command::launched_program(Platform::Unix, program) == program,
        program.contains('/') || program.contains('\\') ==> npm_command::launched_program(
            Platform::Windows,
            program,
        ) == program,
        text::lower_of(program) == seq!['n', 'p', 'm'] && !program.contains('/')
            && !program.contains('\\') ==> npm_command::launched_program(Platform::Windows, program)
            == program + seq!['.', 'c', 'm', 'd'],
        text::lower_of(program) == seq!['p', 'n', 'p', 'm'] && !program.contains('/')
            && !program.contains('\\') ==> npm_command::launched_program(Platform::Windows, program)
            == program + seq!['.', 'c', 'm', 'd'],
        text::lower_of(program) == seq!['b', 'u', 'n'] ==> npm_command::launched_program(
            Platform::Windows,
            program,
        ) == program,
        text::lower_of(program) == seq!['n', 'o', 'd', 'e'] ==> npm_command::launched_program(
            Platform::Windows,
            program,
        ) == program,
{
    reveal_strlit("npm");
    reveal_strlit("pnpm");
    reveal_strlit("yarn");
    reveal_strlit("npx");
    reveal_strlit("corepack");
    reveal_strlit(".cmd");
    assert("npm"@ =~= seq!['n', 'p', 'm']);
    assert("pnpm"@ =~= seq!['p', 'n', 'p', 'm']);
    assert(".cmd"@ =~= seq!['.', 'c', 'm', 'd']);
    assert("npm"@.len() == 3 && "pnpm"@.len() == 4 && "yarn"@.len() == 4 && "npx"@.len() == 3
        && "corepack"@.len() == 8);
    assert("npm"@[0] == 'n' && "npx"@[0] == 'n' && "pnpm"@[0] == 'p' && "yarn"@[0] == 'y');
}

proof fn lemma_name_start(s: Seq<char>, i: int)
    requires
        0 <= i <= s.len(),
    ensures
        0 <= npm_command::name_start(s, i) <= i,
        forall|k: int|
            npm_command::name_start(s, i) <= k < i ==> #[trigger] s[k] != '/' && s[k] != '\\',
        npm_command::name_start(s, i) > 0 ==> s[npm_command::name_start(s, i) - 1] == '/' || s[
        npm_command::name_start(s, i) - 1] == '\\',
    decreases i,
{
    if i > 0 && s[i - 1] != '/' && s[i - 1] != '\\' {
        lemma_name_start(s, i - 1);
    }
}

/// The kind of a manager is told by the name of its program, without regard
/// to its directory or to case, with `.cmd` or `.exe` behind it or without.
pub proof fn lemma_kind_is_told_by_name(directory: Seq<char>, name: Seq<char>, suffix: Seq<char>)
    requires
        directory.len() == 0 || directory.last() == '/' || directory.last() == '\\',
        name == seq!['n', 'p', 'm'] || name == seq!['p', 'n', 'p', 'm'] || name == seq![
            'b',
            'u',
            'n',
        ] || name == seq!['y', 'a', 'r', 'n'],
        suffix.len() == 0 || suffix == seq!['.', 'c', 'm', 'd'] || suffix == seq![
            '.',
            'e',
            'x',
            'e',
        ],
        directory + name + suffix != seq!['-', '-'],
    ensures
        npm_command::kind_of(directory + name + suffix, seq![]) == (if name == seq!['n', 'p', 'm'] {
            NpmManagerKind::Npm
        } else if name == seq!['p', 'n', 'p', 'm'] {
            NpmManagerKind::Pnpm
        } else if name == seq!['b', 'u', 'n'] {
            NpmManagerKind::Bun
        } else {
            NpmManagerKind::Other
        }),
{
    reveal_strlit("npm");
    reveal_strlit("pnpm");
    reveal_strlit("bun");
    reveal_strlit("--");
    assert("npm"@ =~= seq!['n', 'p', 'm']);
    assert("pnpm"@ =~= seq!['p', 'n', 'p', 'm']);
    assert("bun"@ =~= seq!['b', 'u', 'n']);
    assert("--"@ =~= seq!['-', '-']);
    let program = directory + name + suffix;
    let none = Seq::<Seq<char>>::empty();
    let parts = seq![program] + none;
    assert(parts[0] == program);
    reveal_with_fuel(npm_command::last_dashes, 3);
    assert(npm_command::effective_program(program, none) == program);
    assert(forall|i: int| 0 <= i < name.len() ==> 'a' <= #[trigger] name[i] && name[i] <= 'z');
    lemma_program_name(directory, name, suffix);
    assert("npm"@.len() == 3 && "pnpm"@.len() == 4 && "bun"@.len() == 3);
    assert("npm"@[0] == 'n' && "pnpm"@[0] == 'p' && "bun"@[0] == 'b');
    assert(seq!['y', 'a', 'r', 'n'][0] == 'y');
}

proof fn lemma_file_part(directory: Seq<char>, file: Seq<char>)
    requires
        directory.len() == 0 || directory.last() == '/' || directory.last() == '\\',
        forall|i: int| 0 <= i < file.len() ==> #[trigger] file[i] != '/' && file[i] != '\\',
    ensures
        (directory + file).skip(
            npm_command::name_start(directory + file, (directory + file).len() as int),
        ) == file,
{
    let program = directory + file;
    let n = program.len() as int;
    let d = directory.len() as int;
    lemma_name_start(program, n);
    let at = npm_command::name_start(program, n);
    assert(at == d) by {
        if at < d {
            assert(program[d - 1] == directory.last());
        }
        if at > d {
            assert(program[at - 1] == file[at - 1 - d]);
        }
    }
    assert(program.skip(d) =~= file);
}

proof fn lemma_stem(name: Seq<char>, suffix: Seq<char>)
    requires
        forall|i: int| 0 <= i < name.len() ==> 'a' <= #[trigger] name[i] && name[i] <= 'z',
        suffix.len() == 0 || suffix == seq!['.', 'c', 'm', 'd'] || suffix == seq![
            '.',
            'e',
            'x',
            'e',
        ],
    ensures
        ({
            let file = name + suffix;
            &&& text::lower_of(file) == file
            &&& (match text::before_suffix(file, ".cmd"@) {
                Some(stem) => stem,
                None => match text::before_suffix(file, ".exe"@) {
                    Some(stem) => stem,
                    None => file,
                },
            }) == name
        }),
{
    reveal_strlit(".cmd");
    reveal_strlit(".exe");
    assert(".cmd"@ =~= seq!['.', 'c', 'm', 'd']);
    assert(".exe"@ =~= seq!['.', 'e', 'x', 'e']);
    let file = name + suffix;
    let m = file.len() as int;
    assert forall|i: int| 0 <= i < m implies text::lower_char(#[trigger] file[i]) == file[i] by {
        if i < name.len() {
            assert(file[i] == name[i]);
        } else {
            assert(file[i] == suffix[i - name.len()]);
        }
    }
    assert(text::lower_of(file) =~= file);
    if suffix.len() == 0 {
        assert(file =~= name);
        if text::ends(file, ".cmd"@) {
            assert(file.subrange(m - 4, m)[0] == file[m - 4]);
            assert('a' <= name[m - 4]);
        }
        if text::ends(file, ".exe"@) {
            assert(file.subrange(m - 4, m)[0] == file[m - 4]);
            assert('a' <= name[m - 4]);
        }
    } else {
        assert(file.subrange(m - 4, m) =~= suffix);
        assert(file.take(m - 4) =~= name);
        if suffix == seq!['.', 'e', 'x', 'e'] && text::ends(file, ".cmd"@) {
            assert(file.subrange(m - 4, m)[1] == 'c');
        }
    }
}

proof fn lemma_program_name(directory: Seq<char>, name: Seq<char>, suffix: Seq<char>)
    requires
        directory.len() == 0 || directory.last() == '/' || directory.last() == '\\',
        forall|i: int| 0 <= i < name.len() ==> 'a' <= #[trigger] name[i] && name[i] <= 'z',
        suffix.len() == 0 || suffix == seq!['.', 'c', 'm', 'd'] || suffix == seq![
            '.',
            'e',
            'x',
            'e',
        ],
    ensures
        npm_command::program_name(directory + name + suffix) == name,
{
    let file = name + suffix;
    assert(directory + name + suffix =~= directory + file);
    assert forall|i: int| 0 <= i < file.len() implies #[trigger] file[i] != '/' && file[i]
        != '\\' by {
        if i < name.len() {
            assert(file[i] == name[i]);
        } else {
            assert(file[i] == suffix[i - name.len()]);
        }
    }
    lemma_file_part(directory, file);
    lemma_stem(name, suffix);
}

/// Behind the last `--` of a command stands the manager that counts.
pub proof fn lemma_manager_behind_dashes(
    program: Seq<char>,
    prefix: Seq<Seq<char>>,
    manager: Seq<char>,
)
    requires
        manager != "--"@,
    ensures
        npm_command::kind_of(program, prefix + seq!["--"@, manager]) == npm_command::kind_of(
            manager,
            seq![],
        ),
{
    let all = prefix + seq!["--"@, manager];
    let parts = seq![program] + all;
    let n = parts.len() as int;
    assert(parts[n - 1] == manager);
    assert(parts[n - 2] == "--"@);
    reveal_with_fuel(npm_command::last_dashes, 3);
    assert(npm_command::effective_program(program, all) == manager);
    let none = Seq::<Seq<char>>::empty();
    let single = seq![manager] + none;
    assert(single[0] == manager);
    assert(npm_command::effective_program(manager, none) == manager);
}

/// A trusted project's first command counts before that of the user; without
/// one, or without trust, the user's does.
pub proof fn lemma_project_command_first(
    project: Seq<CommandSettings>,
    global: CommandSettings,
    trusted: bool,
    k: int,
)
    requires
        0 <= k <= project.len(),
        forall|j: int| 0 <= j < k ==> (#[trigger] project[j]).npm_command is None,
    ensures
        trusted && k < project.len() && project[k].npm_command is Some
            ==> npm_command::selected_command(project, global, trusted)
            == npm_command::own_command(project[k]),
        k == project.len() || !trusted ==> npm_command::selected_command(project, global, trusted)
            == npm_command::own_command(global),
{
    lemma_first_command(project, 0, k);
}

proof fn lemma_first_command(project: Seq<CommandSettings>, i: int, k: int)
    requires
        0 <= i <= k <= project.len(),
        forall|j: int| i <= j < k ==> (#[trigger] project[j]).npm_command is None,
    ensures
        npm_command::first_command(project, i) == npm_command::first_command(project, k),
    decreases k - i,
{
    if i < k {
        lemma_first_command(project, i + 1, k);
    }
}

/// What is handed to a package manager is the specification without `npm:`
/// and without space round it, and never one that it would take for an
/// option.
pub proof fn lemma_specifications_are_no_options(source: Seq<char>)
    ensures
        npm_command::argument_spec(source) matches Some(spec) ==> spec.len() > 0 && spec[0] != '-'
            && !text::some_control(spec) && spec == text::trim_of(
            text::after_prefix(source, "npm:"@).unwrap_or(source),
        ),
        ({
            let spec = text::trim_of(text::after_prefix(source, "npm:"@).unwrap_or(source));
            spec.len() > 0 && spec[0] != '-' && !text::some_control(spec)
                ==> npm_command::argument_spec(source) is Some
        }),
{
}

/// Each manager installs all that it is given, in order, below the root; and
/// takes away what it is given from there.
pub proof fn lemma_arguments_name_all(
    kind: NpmManagerKind,
    specs: Seq<Seq<char>>,
    root: Seq<char>,
    name: Seq<char>,
)
    ensures
        ({
            let args = npm_command::install_arguments(kind, specs, root);
            let n = specs.len() as int;
            &&& args.len() > n + 2
            &&& args[0] == "install"@
            &&& args.subrange(1, n + 1) == specs
            &&& args[n + 1] == (if kind == NpmManagerKind::Bun {
                "--cwd"@
            } else {
                "--prefix"@
            })
            &&& args[n + 2] == root
        }),
        ({
            let args = npm_command::uninstall_arguments(kind, name, root);
            &&& args.len() >= 4
            &&& args[0] == "uninstall"@
            &&& args[1] == name
            &&& args[2] == (if kind == NpmManagerKind::Bun {
                "--cwd"@
            } else {
                "--prefix"@
            })
            &&& args[3] == root
        }),
        kind == NpmManagerKind::Npm || kind == NpmManagerKind::Other
            ==> npm_command::install_arguments(kind, specs, root).last() == "--legacy-peer-deps"@
            && npm_command::uninstall_arguments(kind, name, root).last() == "--legacy-peer-deps"@,
        kind == NpmManagerKind::Bun ==> npm_command::install_arguments(kind, specs, root).last()
            == "--omit=peer"@,
        kind == NpmManagerKind::Pnpm ==> npm_command::install_arguments(
            kind,
            specs,
            root,
        ).contains("--config.auto-install-peers=false"@),
{
    let args = npm_command::install_arguments(kind, specs, root);
    let n = specs.len() as int;
    assert(args.subrange(1, n + 1) =~= specs);
    if kind == NpmManagerKind::Pnpm {
        assert(args[n + 3] == "--config.auto-install-peers=false"@);
    }
}

/// What each manager is asked for its global packages.
pub proof fn lemma_global_queries(kind: NpmManagerKind)
    ensures
        kind == NpmManagerKind::Bun ==> npm_command::root_query(kind) == seq!["pm"@, "bin"@, "-g"@],
        kind != NpmManagerKind::Bun ==> npm_command::root_query(kind) == seq!["root"@, "-g"@],
        kind == NpmManagerKind::Pnpm ==> npm_command::package_query(kind) == seq![
            "list"@,
            "-g"@,
            "--depth"@,
            "0"@,
            "--json"@,
        ],
        kind != NpmManagerKind::Pnpm ==> npm_command::package_query(kind)
            == npm_command::root_query(kind),
{
}

/// What is asked for globally is one name below the root: it leads neither up
/// nor elsewhere.
pub proof fn lemma_global_names_stay_below(name: Seq<char>)
    ensures
        npm_command::package_name(name) ==> name.len() > 0 && !name.contains('\\') && name != ".."@
            && name != "."@ && name[0] != '/',
        npm_command::package_name(name) && name[0] != '@' ==> !name.contains('/'),
        name.len() > 0 && !text::some_control(name) && !name.contains('\\') && !name.contains('/')
            && name[0] != '@' && name != "."@ && name != ".."@ ==> npm_command::package_name(name),
{
    reveal_strlit(".");
    reveal_strlit("..");
    if npm_command::package_name(name) {
        assert(name[0] == '@' ==> name != "."@ && name != ".."@) by {
            assert("."@[0] == '.' && ".."@[0] == '.');
        }
        if name[0] == '/' {
            assert(name.contains('/'));
        }
    }
}

proof fn lemma_not_blank(lines: Seq<Seq<char>>, n: int)
    requires
        0 <= n <= lines.len(),
    ensures
        npm_command::not_blank(lines, n).len() <= n,
        forall|k: int|
            0 <= k < npm_command::not_blank(lines, n).len() ==> text::trim_of(
                #[trigger] npm_command::not_blank(lines, n)[k],
            ).len() > 0 && lines.contains(npm_command::not_blank(lines, n)[k]),
        forall|i: int, j: int|
            0 <= i < j < n && text::trim_of(#[trigger] lines[i]).len() > 0 && text::trim_of(
                #[trigger] lines[j],
            ).len() > 0 ==> npm_command::not_blank(lines, n).len() >= 2,
        forall|i: int|
            0 <= i < n && text::trim_of(#[trigger] lines[i]).len() > 0 ==> npm_command::not_blank(
                lines,
                n,
            ).len() >= 1,
    decreases n,
{
    if n > 0 {
        lemma_not_blank(lines, n - 1);
        assert(lines.contains(lines[n - 1]));
    }
}

/// The answer to a query is one absolute path on one line; an answer with
/// none or with several is no answer.
pub proof fn lemma_one_line_answers(platform: Platform, output: Seq<char>, i: int, j: int)
    ensures
        npm_command::single_line(platform, output) matches Some(p) ==> p.absolute(),
        0 <= i < j < text::lines_of(output).len() && text::trim_of(text::lines_of(output)[i]).len()
            > 0 && text::trim_of(text::lines_of(output)[j]).len() > 0 ==> npm_command::single_line(
            platform,
            output,
        ) is None,
        (forall|k: int|
            0 <= k < text::lines_of(output).len() ==> text::trim_of(
                #[trigger] text::lines_of(output)[k],
            ).len() == 0) ==> npm_command::single_line(platform, output) is None,
{
    let lines = text::lines_of(output);
    let n = lines.len() as int;
    lemma_not_blank(lines, n);
    let kept = npm_command::not_blank(lines, n);
    if kept.len() > 0 {
        assert(lines.contains(kept[0]));
        let k = choose|k: int| 0 <= k < lines.len() && lines[k] == kept[0];
        assert(text::trim_of(lines[k]).len() > 0);
    }
}

/// A process is stopped when it is cancelled, when its time is up, and when it
/// cannot be read or waited for; each is told as what it is.
pub proof fn lemma_why_a_process_is_stopped(p: ProcessModel, event: ProcessEvent)
    ensures
        event is Cancelled ==> npm_process::step_of(p, event).1 == ActionModel::Terminate(
            ErrorModel::Cancelled,
        ),
        event is DeadlinePassed ==> npm_process::step_of(p, event).1 == ActionModel::Terminate(
            ErrorModel::TimedOut,
        ),
        event matches ProcessEvent::ReadFailed(m) ==> npm_process::step_of(p, event).1
            == ActionModel::Terminate(ErrorModel::Read(m@)),
        event matches ProcessEvent::WaitFailed(m) ==> npm_process::step_of(p, event).1
            == ActionModel::Terminate(ErrorModel::Wait(m@)),
        event is Idle ==> npm_process::step_of(p, event).0 == p,
        event is Idle || event is Exited ==> (npm_process::step_of(p, event).1 is Finish <==> (
        p.exited || event is Exited) && p.stdout_done && p.stderr_done),
{
}

/// Output is kept as it comes, each stream apart, as long as there is room; an
/// empty read ends a stream.
pub proof fn lemma_output_is_kept(p: ProcessModel, bytes: Vec<u8>)
    requires
        p.stdout.len() + p.stderr.len() + bytes@.len() <= p.limits.max_output_bytes,
    ensures
        ({
            let (next, action) = npm_process::step_of(p, ProcessEvent::Stdout(bytes));
            &&& next.stdout == p.stdout + bytes@
            &&& next.stderr == p.stderr
            &&& next.stdout_done == (p.stdout_done || bytes@.len() == 0)
            &&& next.stderr_done == p.stderr_done
            &&& next.exited == p.exited
            &&& action is Finish <==> p.exited && next.stdout_done && p.stderr_done
        }),
        ({
            let (next, action) = npm_process::step_of(p, ProcessEvent::Stderr(bytes));
            &&& next.stderr == p.stderr + bytes@
            &&& next.stdout == p.stdout
            &&& next.stderr_done == (p.stderr_done || bytes@.len() == 0)
            &&& next.stdout_done == p.stdout_done
            &&& next.exited == p.exited
            &&& action is Finish <==> p.exited && next.stderr_done && p.stdout_done
        }),
{
}

/// A backup of a directory is named after it, with a mark of thirty-two
/// digits behind.
pub proof fn lemma_backups_are_named(name: Seq<char>, mark: Seq<char>)
    ensures
        recovery::backup_of(name, "."@ + name + ".rpi-backup-"@ + mark) <==> mark.len() == 32
            && forall|i: int|
            0 <= i < mark.len() ==> ('0' <= #[trigger] mark[i] && mark[i] <= '9') || ('a' <= mark[i]
                && mark[i] <= 'f'),
{
    let prefix = recovery::backup_prefix(name);
    let whole = "."@ + name + ".rpi-backup-"@ + mark;
    assert(whole.subrange(0, prefix.len() as int) =~= prefix);
    assert(whole.skip(prefix.len() as int) =~= mark);
    assert(text::after_prefix(whole, prefix) == Some(mark));
}

proof fn lemma_backups_found(name: Seq<char>, siblings: Seq<Seq<char>>, n: int)
    requires
        0 <= n <= siblings.len(),
    ensures
        forall|i: int|
            0 <= i < n && recovery::backup_of(name, #[trigger] siblings[i])
                ==> recovery::backups_among(name, siblings, n).contains(siblings[i]),
        (forall|i: int| 0 <= i < n ==> !recovery::backup_of(name, #[trigger] siblings[i]))
            ==> recovery::backups_among(name, siblings, n).len() == 0,
        forall|i: int, j: int|
            0 <= i < j < n && recovery::backup_of(name, #[trigger] siblings[i])
                && recovery::backup_of(name, #[trigger] siblings[j]) ==> recovery::backups_among(
                name,
                siblings,
                n,
            ).len() >= 2,
    decreases n,
{
    if n > 0 {
        lemma_backups_found(name, siblings, n - 1);
        let rest = recovery::backups_among(name, siblings, n - 1);
        let out = recovery::backups_among(name, siblings, n);
        assert forall|i: int|
            0 <= i < n && recovery::backup_of(name, #[trigger] siblings[i]) implies out.contains(
            siblings[i],
        ) by {
            if i < n - 1 {
                assert(rest.contains(siblings[i]));
                let k = choose|k: int| 0 <= k < rest.len() && rest[k] == siblings[i];
                assert(out[k] == siblings[i]);
            } else {
                assert(out[rest.len() as int] == siblings[i]);
            }
        }
        assert forall|i: int, j: int|
            0 <= i < j < n && recovery::backup_of(name, #[trigger] siblings[i])
                && recovery::backup_of(name, #[trigger] siblings[j]) implies out.len() >= 2 by {
            if j == n - 1 {
                assert(rest.contains(siblings[i]));
            }
        }
    }
}

/// After an interrupted update the one backup of a directory that is gone is
/// put back; with several none is chosen; with the directory there every
/// backup is cleaned away; and without a backup nothing is done.
pub proof fn lemma_interrupted_update_is_undone(
    name: Seq<char>,
    present: bool,
    siblings: Seq<Seq<char>>,
    i: int,
    j: int,
)
    requires
        0 <= i <= j < siblings.len(),
        recovery::backup_of(name, siblings[i]),
        recovery::backup_of(name, siblings[j]),
    ensures
        !present && i < j ==> recovery::recovery_of(name, present, siblings) is Refuse,
        !present && (forall|k: int|
            0 <= k < siblings.len() && k != i ==> !recovery::backup_of(name, #[trigger] siblings[k]))
            ==> recovery::recovery_of(name, present, siblings) == RecoveryModel::Restore(siblings[i]),
        present ==> (recovery::recovery_of(name, present, siblings) matches RecoveryModel::Clean(
            backups,
        ) && backups.contains(siblings[i]) && backups.contains(siblings[j])),
{
    let n = siblings.len() as int;
    lemma_backups_found(name, siblings, n);
    if forall|k: int|
        0 <= k < siblings.len() && k != i ==> !recovery::backup_of(name, #[trigger] siblings[k]) {
        lemma_sole_backup(name, siblings, n, i);
    }
}

proof fn lemma_sole_backup(name: Seq<char>, siblings: Seq<Seq<char>>, n: int, i: int)
    requires
        0 <= n <= siblings.len(),
        0 <= i < siblings.len(),
        recovery::backup_of(name, siblings[i]),
        forall|k: int|
            0 <= k < siblings.len() && k != i ==> !recovery::backup_of(name, #[trigger] siblings[k]),
    ensures
        recovery::backups_among(name, siblings, n) == (if i < n {
            seq![siblings[i]]
        } else {
            seq![]
        }),
    decreases n,
{
    if n > 0 {
        lemma_sole_backup(name, siblings, n - 1, i);
        if n - 1 == i {
            assert(Seq::<Seq<char>>::empty().push(siblings[i]) =~= seq![siblings[i]]);
        }
    }
}

/// Without a backup there is nothing to undo.
pub proof fn lemma_nothing_to_undo(name: Seq<char>, present: bool, siblings: Seq<Seq<char>>)
    requires
        forall|k: int|
            0 <= k < siblings.len() ==> !recovery::backup_of(name, #[trigger] siblings[k]),
    ensures
        recovery::recovery_of(name, present, siblings) is Nothing,
{
    lemma_backups_found(name, siblings, siblings.len() as int);
}

/// What a query printed is taken where the query ran, succeeded and printed
/// text, and in no other case. An operation is well where it ran and
/// succeeded, and in no other case.
pub proof fn lemma_outcome_of_a_run(
    program: Seq<char>,
    run: Result<(bool, Seq<char>), Seq<char>>,
    printed: Result<Seq<char>, Seq<char>>,
    stderr: Seq<char>,
)
    ensures
        ({
            let well = run matches Ok((success, _)) && success;
            let out = npm_command::captured(program, run, printed, stderr);
            &&& out is Ok <==> well && printed is Ok
            &&& out is Ok ==> out == printed
            &&& npm_command::remedied(program, run, stderr) is None <==> well
        }),
{
}

/// What both streams print counts against one limit: where more comes than it
/// leaves room for, the process is stopped and no more than the limit is kept;
/// otherwise all is kept and the process is not stopped for it.
pub proof fn lemma_streams_share_a_limit(p: ProcessModel, bytes: Vec<u8>)
    requires
        p.stdout.len() + p.stderr.len() <= p.limits.max_output_bytes,
    ensures
        ({
            let total = p.stdout.len() + p.stderr.len() + bytes@.len();
            let (out, on_out) = npm_process::step_of(p, ProcessEvent::Stdout(bytes));
            let (err, on_err) = npm_process::step_of(p, ProcessEvent::Stderr(bytes));
            &&& out.stdout.len() + out.stderr.len() <= p.limits.max_output_bytes
            &&& err.stdout.len() + err.stderr.len() <= p.limits.max_output_bytes
            &&& on_out is Terminate <==> total > p.limits.max_output_bytes
            &&& on_err is Terminate <==> total > p.limits.max_output_bytes
            &&& total <= p.limits.max_output_bytes ==> out.stdout == p.stdout + bytes@ && err.stderr
                == p.stderr + bytes@
            &&& out.stderr == p.stderr && err.stdout == p.stdout
        }),
{
}

} // verus!
