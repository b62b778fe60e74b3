//! Command lines, environments and programs on Windows.

use vstd::prelude::*;

use crate::laws::texts;
use crate::npm_command::Platform;
use crate::paths;
use crate::text;
use crate::windows_command;
use crate::windows_command::{QUOTE, SPACE};
use crate::windows_spawn;

verus! {

/// A character is one unit, or a pair of surrogates that stands for it.
pub proof fn lemma_units_stand_for_character(c: char)
    ensures
        ({
            let units = windows_command::char_units(c);
            let n = c as int;
            &&& n < 0x10000 ==> units.len() == 1 && units[0] == n
            &&& n >= 0x10000 ==> units.len() == 2 && 0xd800 <= units[0] < 0xdc00 && 0xdc00
                <= units[1] < 0xe000 && (units[0] - 0xd800) * 0x400 + (units[1] - 0xdc00) + 0x10000
                == n
        }),
{
    let n = c as int;
    if n >= 0x10000 {
        let m = n - 0x10000;
        assert(0 <= m < 0x100000);
        assert(0 <= m / 0x400 < 0x400);
        assert(0 <= m % 0x400 < 0x400);
        assert(m == (m / 0x400) * 0x400 + m % 0x400);
    }
}

/// A command line is refused where a part of it holds a zero, or where the
/// program is named with a quotation mark; nowhere else.
pub proof fn lemma_when_a_line_is_refused(program: Seq<char>, args: Seq<Seq<char>>)
    ensures
        windows_command::command_line_of(program, args) is Err <==> program.contains('\0')
            || program.contains('"') || exists|i: int|
            0 <= i < args.len() && (#[trigger] args[i]).contains('\0'),
{
    if windows_command::some_nul(args) {
        let i = choose|i: int|
            0 <= i < args.len() && windows_command::has_nul(#[trigger] args[i]);
        assert(args[i].contains('\0'));
    }
    if exists|i: int| 0 <= i < args.len() && (#[trigger] args[i]).contains('\0') {
        let i = choose|i: int| 0 <= i < args.len() && (#[trigger] args[i]).contains('\0');
        assert(windows_command::has_nul(args[i]));
    }
}

proof fn lemma_arguments_grow(args: Seq<Seq<char>>, i: int, n: int)
    requires
        0 <= i <= n <= args.len(),
    ensures
        windows_command::arguments_to(args, i).len() <= windows_command::arguments_to(args, n).len(),
        windows_command::arguments_to(args, n).take(
            windows_command::arguments_to(args, i).len() as int,
        ) == windows_command::arguments_to(args, i),
        i < n ==> windows_command::arguments_to(args, i).len() < windows_command::arguments_to(
            args,
            n,
        ).len() && windows_command::arguments_to(args, n)[windows_command::arguments_to(
            args,
            i,
        ).len() as int] == SPACE,
    decreases n,
{
    let whole = windows_command::arguments_to(args, n);
    let part = windows_command::arguments_to(args, i);
    if i < n {
        lemma_arguments_grow(args, i, n - 1);
        let rest = windows_command::arguments_to(args, n - 1);
        assert(whole =~= rest.push(SPACE) + windows_command::written(
            windows_command::units_of(args[n - 1]),
        ));
        assert(whole.take(part.len() as int) =~= rest.take(part.len() as int));
        if i == n - 1 {
            assert(whole[part.len() as int] == SPACE);
        } else {
            assert(whole[part.len() as int] == rest[part.len() as int]);
        }
    } else {
        assert(whole.take(part.len() as int) =~= part);
    }
}

/// A process reads every argument of its command line as it was given,
/// behind the program in its quotation marks.
pub proof fn lemma_every_argument_reads_back(program: Seq<char>, args: Seq<Seq<char>>, i: int)
    requires
        0 <= i < args.len(),
        windows_command::command_line_of(program, args) is Ok,
    ensures
        ({
            let line = windows_command::command_line_of(program, args)->Ok_0;
            let head = windows_command::units_of(program).len() as int + 2;
            let at = head + windows_command::arguments_to(args, i).len() + 1;
            &&& line[0] == QUOTE
            &&& line.subrange(1, head - 1) == windows_command::units_of(program)
            &&& line[head - 1] == QUOTE
            &&& line[at - 1] == SPACE
            &&& windows_command::read_from(line, at, false).0 == windows_command::units_of(args[i])
        }),
{
    let line = windows_command::command_line_of(program, args)->Ok_0;
    let units = windows_command::units_of(program);
    let head = units.len() as int + 2;
    let n = args.len() as int;
    let all = windows_command::arguments_to(args, n);
    let before = windows_command::arguments_to(args, i);
    let upto = windows_command::arguments_to(args, i + 1);
    let own = windows_command::units_of(args[i]);
    let w = windows_command::written(own);
    let at = head + before.len() + 1;
    assert(line =~= seq![QUOTE] + units + seq![QUOTE] + all);
    lemma_arguments_grow(args, i, n);
    lemma_arguments_grow(args, i + 1, n);
    assert(line.subrange(1, head - 1) =~= units);
    assert(line[at - 1] == all[before.len() as int]);
    assert(upto =~= before.push(SPACE) + w);
    assert(line.subrange(at, at + w.len()) =~= w) by {
        assert forall|k: int| 0 <= k < w.len() implies line[at + k] == w[k] by {
            let m = before.len() + 1 + k;
            assert(line[at + k] == all[m]);
            assert(all[m] == all.take(upto.len() as int)[m]);
            assert(upto[m] == w[k]);
        }
    }
    if at + w.len() < line.len() {
        assert(i + 1 < n) by {
            if i + 1 == n {
                assert(all.len() == upto.len());
            }
        }
        assert(line[at + w.len()] == all[upto.len() as int]);
    }
    windows_command::lemma_argument_reads_back(own, line, at);
}

/// An argument is put into quotation marks where it is empty or holds a space
/// or a tab.
pub proof fn lemma_when_an_argument_is_quoted(u: Seq<u16>)
    requires
        u.len() == 0 || u.contains(32) || u.contains(9),
    ensures
        windows_command::written(u)[0] == 34,
        windows_command::written(u).len() >= 2,
{
    let inner = windows_command::written_from(u, true, 0);
    lemma_closed(u, 0);
    assert(windows_command::written(u) =~= seq![QUOTE] + inner);
}

proof fn lemma_closed(u: Seq<u16>, i: int)
    requires
        0 <= i <= u.len(),
    ensures
        windows_command::written_from(u, true, i).len() >= 1,
        windows_command::written_from(u, true, i).last() == 34,
    decreases u.len() - i,
{
    let r = windows_command::run_at(u, i);
    windows_command::lemma_run(u, i);
    let j = i + r;
    let out = windows_command::written_from(u, true, i);
    if j < u.len() {
        lemma_closed(u, j + 1);
        let rest = windows_command::written_from(u, true, j + 1);
        assert(out.last() == rest.last());
    } else {
        assert(out.last() == QUOTE);
    }
}

/// What a batch file cannot be given exactly is refused, and nothing else.
pub proof fn lemma_what_a_batch_file_cannot_take(arg: Seq<char>)
    ensures
        windows_spawn::batch_problem(arg) is Some <==> arg.contains('\r') || arg.contains('\n')
            || arg.contains('"') || arg.contains('\0') || (arg.len() > 0 && arg.last() == '\\'),
{
}

proof fn lemma_kept(
    variables: Seq<(Seq<char>, Seq<char>)>,
    name: Seq<char>,
    n: int,
    v: (Seq<char>, Seq<char>),
)
    requires
        0 <= n <= variables.len(),
    ensures
        windows_spawn::without(variables, name, n).contains(v) <==> variables.take(n).contains(v)
            && text::lower_of(v.0) != text::lower_of(name),
    decreases n,
{
    if n > 0 {
        lemma_kept(variables, name, n - 1, v);
        let rest = windows_spawn::without(variables, name, n - 1);
        let out = windows_spawn::without(variables, name, n);
        let head = variables.take(n - 1);
        let more = variables.take(n);
        assert(more =~= head.push(variables[n - 1]));
        if head.contains(v) {
            let k = choose|k: int| 0 <= k < head.len() && head[k] == v;
            assert(more[k] == v);
        }
        if more.contains(v) {
            let k = choose|k: int| 0 <= k < more.len() && more[k] == v;
            assert(k < n - 1 ==> head[k] == v);
        }
        if rest.contains(v) {
            let k = choose|k: int| 0 <= k < rest.len() && rest[k] == v;
            assert(out[k] == v);
        }
        if out.contains(v) {
            let k = choose|k: int| 0 <= k < out.len() && out[k] == v;
            assert(k < rest.len() ==> rest[k] == v);
        }
        if v == variables[n - 1] {
            assert(more[n - 1] == v);
            if text::lower_of(v.0) != text::lower_of(name) {
                assert(out[rest.len() as int] == v);
            }
        }
    } else {
        assert(variables.take(0) =~= seq![]);
    }
}

/// A change sets its variable, or takes it away, and leaves every variable of
/// another name; names count without regard to case.
pub proof fn lemma_change_touches_one_variable(
    variables: Seq<(Seq<char>, Seq<char>)>,
    change: (Seq<char>, Option<Seq<char>>),
    v: (Seq<char>, Seq<char>),
)
    ensures
        text::lower_of(v.0) != text::lower_of(change.0) ==> (windows_spawn::with_change(
            variables,
            change,
        ).contains(v) <==> variables.contains(v)),
        change.1 matches Some(value) ==> windows_spawn::with_change(variables, change).contains(
            (change.0, value),
        ),
        change.1 is None && text::lower_of(v.0) == text::lower_of(change.0)
            ==> !windows_spawn::with_change(variables, change).contains(v),
{
    let n = variables.len() as int;
    lemma_kept(variables, change.0, n, v);
    assert(variables.take(n) =~= variables);
    let rest = windows_spawn::without(variables, change.0, n);
    let out = windows_spawn::with_change(variables, change);
    if let Some(value) = change.1 {
        assert(out[rest.len() as int] == (change.0, value));
        if rest.contains(v) {
            let k = choose|k: int| 0 <= k < rest.len() && rest[k] == v;
            assert(out[k] == v);
        }
        if out.contains(v) {
            let k = choose|k: int| 0 <= k < out.len() && out[k] == v;
            assert(k < rest.len() ==> rest[k] == v);
        }
    }
}

/// A change is refused for a name that is empty or holds an equals sign, and
/// where a zero stands in it.
pub proof fn lemma_when_a_change_is_refused(change: (Seq<char>, Option<Seq<char>>))
    ensures
        windows_spawn::change_problem(change) is Some <==> change.0.len() == 0
            || change.0.contains('=') || change.0.contains('\0') || (change.1 matches Some(value)
            && value.contains('\0')),
{
}

proof fn lemma_slot(variables: Seq<(Seq<char>, Seq<char>)>, name: Seq<char>, i: int)
    requires
        0 <= i <= variables.len(),
    ensures
        i <= windows_spawn::slot_for(variables, name, i) <= variables.len(),
    decreases variables.len() - i,
{
    if i < variables.len() && !paths::text_before(
        windows_spawn::uppercase(name),
        windows_spawn::uppercase(variables[i].0),
        0,
    ) {
        lemma_slot(variables, name, i + 1);
    }
}

/// Sorting an environment loses and adds no variable.
pub proof fn lemma_sorting_keeps_all(
    variables: Seq<(Seq<char>, Seq<char>)>,
    n: int,
    v: (Seq<char>, Seq<char>),
)
    requires
        0 <= n <= variables.len(),
    ensures
        windows_spawn::sorted_to(variables, n).len() == n,
        windows_spawn::sorted_to(variables, n).contains(v) <==> variables.take(n).contains(v),
    decreases n,
{
    if n > 0 {
        lemma_sorting_keeps_all(variables, n - 1, v);
        let rest = windows_spawn::sorted_to(variables, n - 1);
        let out = windows_spawn::sorted_to(variables, n);
        let at = windows_spawn::slot_for(rest, variables[n - 1].0, 0);
        lemma_slot(rest, variables[n - 1].0, 0);
        let head = variables.take(n - 1);
        let more = variables.take(n);
        assert(more =~= head.push(variables[n - 1]));
        assert(out[at] == variables[n - 1]);
        if rest.contains(v) {
            let k = choose|k: int| 0 <= k < rest.len() && rest[k] == v;
            if k < at {
                assert(out[k] == v);
            } else {
                assert(out[k + 1] == v);
            }
        }
        if out.contains(v) {
            let k = choose|k: int| 0 <= k < out.len() && out[k] == v;
            if k < at {
                assert(rest[k] == v);
            } else if k > at {
                assert(rest[k - 1] == v);
            }
        }
        if head.contains(v) {
            let k = choose|k: int| 0 <= k < head.len() && head[k] == v;
            assert(more[k] == v);
        }
        if more.contains(v) {
            let k = choose|k: int| 0 <= k < more.len() && more[k] == v;
            assert(k < n - 1 ==> head[k] == v);
        }
        if v == variables[n - 1] {
            assert(more[n - 1] == v);
        }
    } else {
        assert(variables.take(0) =~= seq![]);
    }
}

/// A program that is named alone is the first file of that name in the
/// directories; without a dot in its name, `.exe` stands behind it.
pub proof fn lemma_program_is_found_in_order(
    program: Seq<char>,
    directories: Seq<Seq<char>>,
    files: Seq<Seq<char>>,
    k: int,
)
    requires
        !program.contains('\0'),
        windows_spawn::is_file_name(paths::path_of(Platform::Windows, program)),
        program.len() > 0,
        ({
            let name = if program.contains('.') {
                program
            } else {
                program + seq!['.', 'e', 'x', 'e']
            };
            &&& 0 <= k <= directories.len()
            &&& forall|j: int|
                0 <= j < k ==> !files.contains(
                    windows_spawn::in_directory(#[trigger] directories[j], name),
                )
            &&& k < directories.len() ==> files.contains(
                windows_spawn::in_directory(directories[k], name),
            )
        }),
    ensures
        ({
            let name = if program.contains('.') {
                program
            } else {
                program + seq!['.', 'e', 'x', 'e']
            };
            &&& k < directories.len() ==> windows_spawn::executable_of(program, directories, files)
                == Ok::<Seq<char>, Seq<char>>(windows_spawn::in_directory(directories[k], name))
            &&& k == directories.len() ==> windows_spawn::executable_of(
                program,
                directories,
                files,
            ) is Err
        }),
{
    reveal_strlit(".exe");
    assert(".exe"@ =~= seq!['.', 'e', 'x', 'e']);
    let name = if program.contains('.') {
        program
    } else {
        program + seq!['.', 'e', 'x', 'e']
    };
    lemma_found(directories, files, name, 0, k);
}

proof fn lemma_found(
    directories: Seq<Seq<char>>,
    files: Seq<Seq<char>>,
    name: Seq<char>,
    i: int,
    k: int,
)
    requires
        0 <= i <= k <= directories.len(),
        forall|j: int|
            i <= j < k ==> !files.contains(
                windows_spawn::in_directory(#[trigger] directories[j], name),
            ),
    ensures
        windows_spawn::found_from(directories, files, name, i) == windows_spawn::found_from(
            directories,
            files,
            name,
            k,
        ),
    decreases k - i,
{
    if i < k {
        lemma_found(directories, files, name, i + 1, k);
    }
}

/// A program that is named with a directory is taken as it is, or with `.exe`
/// behind it where there is such a file.
pub proof fn lemma_program_with_a_directory(
    program: Seq<char>,
    directories: Seq<Seq<char>>,
    files: Seq<Seq<char>>,
)
    requires
        !program.contains('\0'),
        program.len() > 0,
        paths::name_of(paths::path_of(Platform::Windows, program)) is Some,
        !windows_spawn::is_file_name(paths::path_of(Platform::Windows, program)),
    ensures
        windows_spawn::executable_of(program, directories, files) == Ok::<Seq<char>, Seq<char>>(
            if !windows_spawn::has_extension(program, "exe"@) && files.contains(
                program + ".exe"@,
            ) {
                program + ".exe"@
            } else {
                program
            },
        ),
{
}

/// Scripts for the command interpreter are run by it, from the system's own
/// directory; any other program is run itself.
pub proof fn lemma_scripts_are_interpreted(
    program: Seq<char>,
    resolved: Seq<char>,
    args: Seq<Seq<char>>,
    system: Result<Seq<char>, Seq<char>>,
)
    ensures
        !windows_spawn::has_extension(resolved, "cmd"@) && !windows_spawn::has_extension(
            resolved,
            "bat"@,
        ) ==> (windows_spawn::invocation_of(program, resolved, args, system) matches Ok((
            application,
            line,
        )) ==> application == resolved && windows_command::command_line_of(program, args) == Ok::<
            Seq<u16>,
            Seq<char>,
        >(line)),
        windows_spawn::has_extension(resolved, "cmd"@) || windows_spawn::has_extension(
            resolved,
            "bat"@,
        ) ==> (windows_spawn::invocation_of(program, resolved, args, system) matches Ok((
            application,
            line,
        )) ==> system is Ok && application == windows_spawn::in_directory(
            system->Ok_0,
            "cmd.exe"@,
        ) && windows_spawn::batch_line_of(resolved, args) == Ok::<Seq<u16>, Seq<char>>(line)),
{
}

/// The long form of a path is given to programs without its mark.
pub proof fn lemma_long_form_is_shortened(rest: Seq<char>)
    ensures
        !text::begins(rest, "UNC\\"@) ==> windows_spawn::plain_path("\\\\?\\"@ + rest) == rest,
        windows_spawn::plain_path("\\\\?\\"@ + ("UNC\\"@ + rest)) == "\\\\"@ + rest,
        !text::begins(rest, "\\\\?\\"@) ==> windows_spawn::plain_path(rest) == rest,
{
    texts::lemma_prefix_goes("\\\\?\\"@, rest);
    texts::lemma_prefix_goes("\\\\?\\"@, "UNC\\"@ + rest);
    texts::lemma_prefix_goes("UNC\\"@, rest);
}

proof fn lemma_run_shift(a: Seq<u16>, b: Seq<u16>, i: int)
    requires
        0 <= i,
    ensures
        windows_command::run_at(a + b, a.len() + i) == windows_command::run_at(b, i),
    decreases b.len() - i,
{
    if i < b.len() {
        assert((a + b)[a.len() + i] == b[i]);
        lemma_run_shift(a, b, i + 1);
    }
}

proof fn lemma_batch_shift(a: Seq<u16>, b: Seq<u16>, quoted: bool, i: int)
    requires
        0 <= i,
    ensures
        windows_spawn::batch_from(a + b, quoted, a.len() + i) == windows_spawn::batch_from(
            b,
            quoted,
            i,
        ),
    decreases b.len() - i,
{
    lemma_run_shift(a, b, i);
    let r = windows_command::run_at(b, i);
    if i + r < b.len() {
        assert((a + b)[a.len() + i + r] == b[i + r as int]);
        lemma_batch_shift(a, b, quoted, i + r + 1);
    }
}

/// Whether no unit of `u` has a meaning of its own in a batch file.
pub open spec fn means_itself(u: Seq<u16>) -> bool {
    forall|i: int| 0 <= i < u.len() ==> #[trigger] u[i] != 92 && u[i] != 34 && u[i] != 37
}

proof fn lemma_batch_run(a: Seq<u16>, t: Seq<u16>, quoted: bool, i: int)
    requires
        means_itself(a),
        0 <= i <= a.len(),
    ensures
        windows_spawn::batch_from(a + t, quoted, i) == a.skip(i) + windows_spawn::batch_from(
            a + t,
            quoted,
            a.len() as int,
        ),
    decreases a.len() - i,
{
    let end = windows_spawn::batch_from(a + t, quoted, a.len() as int);
    if i < a.len() {
        assert((a + t)[i] == a[i]);
        lemma_batch_run(a, t, quoted, i + 1);
        assert(windows_command::run_at(a + t, i) == 0);
        let none = windows_command::copies(windows_command::BACKSLASH, 0);
        assert(none =~= seq![]);
        assert(none.push(a[i]) + (a.skip(i + 1) + end) =~= a.skip(i) + end);
    } else {
        assert(a.skip(i) + end =~= end);
    }
}

/// What has no meaning of its own reaches a batch file as it is; a percent sign
/// is written behind a guard that keeps it from naming a variable, and what
/// follows it is written as if it stood alone.
pub proof fn lemma_percent_is_guarded(a: Seq<u16>, b: Seq<u16>, quoted: bool)
    requires
        means_itself(a),
    ensures
        windows_spawn::batch_from(a, quoted, 0) == (if quoted {
            a.push(34)
        } else {
            a
        }),
        windows_spawn::batch_from(a + seq![37u16] + b, quoted, 0) == a + windows_command::units_of(
            seq!['%', '%', 'c', 'd', ':', '~', ','],
        ) + seq![37u16] + windows_spawn::batch_from(b, quoted, 0),
{
    let none: Seq<u16> = seq![];
    let copies = windows_command::copies(windows_command::BACKSLASH, 0);
    assert(copies =~= none);
    lemma_batch_run(a, none, quoted, 0);
    assert(a + none =~= a);
    assert(a.skip(0) =~= a);
    assert(windows_command::run_at(a, a.len() as int) == 0);
    assert(a + copies =~= a);
    assert(a + copies.push(34) =~= a.push(34));
    let rest = seq![37u16] + b;
    lemma_batch_run(a, rest, quoted, 0);
    lemma_batch_shift(a, rest, quoted, 0);
    assert(a + rest =~= a + seq![37u16] + b);
    assert(rest[0] == 37);
    assert(windows_command::run_at(rest, 0) == 0);
    lemma_batch_shift(seq![37u16], b, quoted, 0);
    reveal_strlit("%%cd:~,");
    assert("%%cd:~,"@ =~= seq!['%', '%', 'c', 'd', ':', '~', ',']);
    let guard = windows_spawn::percent_guard();
    let end = windows_spawn::batch_from(b, quoted, 0);
    assert(a + ((copies + guard).push(37) + end) =~= a + guard + seq![37u16] + end);
}

} // verus!
