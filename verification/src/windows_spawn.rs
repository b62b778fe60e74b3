//! What a Windows process is started with: the executable, the command line
//! of a program or a batch file, the directory and the environment.

use vstd::prelude::*;

use crate::npm_command::{Platform, System};
use crate::paths;
use crate::paths::{FsPath, PathModel};
use crate::resources;
use crate::text;
use crate::windows_command;
use crate::windows_command::{BACKSLASH, PERCENT, QUOTE, SPACE};

verus! {

/// Whether a character needs no quotation marks in the argument of a batch
/// file.
#[verifier::allow_in_spec]
pub fn is_batch_plain(c: char) -> bool
    returns
        (if c <= '\u{7f}' {
            text::is_alphanumeric(c) || c == '#' || c == '$' || c == '*' || c == '+' || c == '-'
                || c == '.' || c == '/' || c == ':' || c == '?' || c == '@' || c == '\\' || c == '_'
        } else {
            !text::is_control(c)
        }),
{
    if c <= '\u{7f}' {
        text::is_alphanumeric(c) || c == '#' || c == '$' || c == '*' || c == '+' || c == '-' || c
            == '.' || c == '/' || c == ':' || c == '?' || c == '@' || c == '\\' || c == '_'
    } else {
        !text::is_control(c)
    }
}

/// Whether an argument of a batch file needs quotation marks.
pub open spec fn needs_batch_quotes(arg: Seq<char>) -> bool {
    arg.len() == 0 || arg.last() == '\\' || exists|i: int|
        0 <= i < arg.len() && !is_batch_plain(#[trigger] arg[i])
}

fn wants_batch_quotes(arg: &str) -> (r: bool)
    ensures
        r == needs_batch_quotes(arg@),
{
    if arg.unicode_len() == 0 || text::ends_with_char(arg, '\\') {
        return true;
    }
    let chars = text::chars_of(arg);
    let mut i: usize = 0;
    while i < chars.len()
        invariant
            i <= chars@.len(),
            chars@ == arg@,
            arg@.len() > 0,
            arg@.last() != '\\',
            forall|k: int| 0 <= k < i ==> is_batch_plain(#[trigger] arg@[k]),
        decreases chars.len() - i,
    {
        if !is_batch_plain(chars[i]) {
            assert(!is_batch_plain(arg@[i as int]));
            return true;
        }
        i += 1;
    }
    false
}

/// What stands before a percent sign, so that the interpreter puts nothing
/// in its place.
pub open spec fn percent_guard() -> Seq<u16> {
    windows_command::units_of("%%cd:~,"@)
}

/// An argument from `i` on, as the command line of a batch file writes it.
pub open spec fn batch_from(u: Seq<u16>, quoted: bool, i: int) -> Seq<u16>
    decreases u.len() - i,
{
    let r = windows_command::run_at(u, i);
    let j = i + r;
    if i < 0 || j >= u.len() {
        if quoted {
            windows_command::copies(BACKSLASH, 2 * r).push(QUOTE)
        } else {
            windows_command::copies(BACKSLASH, r)
        }
    } else if u[j] == QUOTE {
        windows_command::copies(BACKSLASH, 2 * r).push(QUOTE).push(QUOTE) + batch_from(
            u,
            quoted,
            j + 1,
        )
    } else if u[j] == PERCENT {
        (windows_command::copies(BACKSLASH, r) + percent_guard()).push(PERCENT) + batch_from(
            u,
            quoted,
            j + 1,
        )
    } else {
        windows_command::copies(BACKSLASH, r).push(u[j]) + batch_from(u, quoted, j + 1)
    }
}

/// An argument as the command line of a batch file writes it.
pub open spec fn batch_written(arg: Seq<char>) -> Seq<u16> {
    if needs_batch_quotes(arg) {
        seq![QUOTE] + batch_from(windows_command::units_of(arg), true, 0)
    } else {
        batch_from(windows_command::units_of(arg), false, 0)
    }
}

/// Appends an argument to the command line of a batch file.
pub fn append_batch_arg(line: &mut Vec<u16>, arg: &str) -> (r: Result<(), String>)
    ensures
        r is Err <==> windows_command::has_nul(arg@),
        r matches Err(m) ==> m@ == "nul byte found in provided data"@ && final(line)@ == old(
            line,
        )@,
        r is Ok ==> final(line)@ == old(line)@ + batch_written(arg@),
{
    match windows_command::ensure_no_nul(arg) {
        Err(m) => {
            return Err(m);
        },
        Ok(_) => {},
    }
    let u = windows_command::utf16(arg);
    let guard = windows_command::utf16("%%cd:~,");
    let ghost start = line@;
    let ghost target = start + batch_written(arg@);
    let quoted = wants_batch_quotes(arg);
    if quoted {
        line.push(QUOTE);
        assert(target =~= line@ + batch_from(u@, quoted, 0));
    }
    assert(target == line@ + batch_from(u@, quoted, 0));
    let mut i: usize = 0;
    let mut done = false;
    while !done
        invariant
            i <= u@.len(),
            guard@ == percent_guard(),
            !done ==> target == line@ + batch_from(u@, quoted, i as int),
            done ==> target == line@,
        decreases
                if done {
                    0int
                } else {
                    u@.len() + 1 - i
                },
    {
        let ghost before = line@;
        let r = windows_command::count_run(&u, i);
        let j = i + r;
        windows_command::push_copies(line, BACKSLASH, r);
        if j >= u.len() {
            if quoted {
                windows_command::push_copies(line, BACKSLASH, r);
                line.push(QUOTE);
                assert(line@ =~= before + windows_command::copies(
                    BACKSLASH,
                    (2 * r) as nat,
                ).push(QUOTE));
            }
            done = true;
        } else {
            let ghost rest = batch_from(u@, quoted, j + 1);
            if u[j] == QUOTE {
                windows_command::push_copies(line, BACKSLASH, r);
                line.push(QUOTE);
                line.push(QUOTE);
                assert(line@ + rest =~= before + (windows_command::copies(
                    BACKSLASH,
                    (2 * r) as nat,
                ).push(QUOTE).push(QUOTE) + rest));
            } else if u[j] == PERCENT {
                windows_command::push_units(line, &guard);
                line.push(PERCENT);
                assert(line@ + rest =~= before + ((windows_command::copies(BACKSLASH, r as nat)
                    + percent_guard()).push(PERCENT) + rest));
            } else {
                line.push(u[j]);
                assert(line@ + rest =~= before + (windows_command::copies(
                    BACKSLASH,
                    r as nat,
                ).push(u@[j as int]) + rest));
            }
            i = j + 1;
        }
    }
    Ok(())
}

/// A path without the prefix that keeps the system from reading it.
pub open spec fn plain_path(path: Seq<char>) -> Seq<char> {
    match text::after_prefix(path, "\\\\?\\"@) {
        None => path,
        Some(rest) => match text::after_prefix(rest, "UNC\\"@) {
            None => rest,
            Some(share) => "\\\\"@ + share,
        },
    }
}

/// A path in UTF-16, without the prefix that keeps the system from reading
/// it.
pub open spec fn path_units(path: Seq<char>) -> Result<Seq<u16>, Seq<char>> {
    if windows_command::has_nul(path) {
        Err("nul byte found in provided path"@)
    } else {
        Ok(windows_command::units_of(plain_path(path)))
    }
}

/// A path in UTF-16, without the prefix that keeps the system from reading
/// it.
pub fn encode_path(path: &str) -> (r: Result<Vec<u16>, String>)
    ensures
        windows_command::units_view(r) == path_units(path@),
{
    if text::contains_char(path, '\0') {
        return Err("nul byte found in provided path".to_owned());
    }
    match text::strip_prefix(path, "\\\\?\\") {
        None => Ok(windows_command::utf16(path)),
        Some(rest) => match text::strip_prefix(rest, "UNC\\") {
            None => Ok(windows_command::utf16(rest)),
            Some(share) => {
                let plain = text::cat("\\\\", share);
                Ok(windows_command::utf16(plain.as_str()))
            },
        },
    }
}

/// A path in UTF-16 with a zero behind it.
pub open spec fn path_units_nul(path: Seq<char>) -> Result<Seq<u16>, Seq<char>> {
    match path_units(path) {
        Ok(units) => Ok(units.push(0)),
        Err(m) => Err(m),
    }
}

/// A path in UTF-16 with a zero behind it.
pub fn encode_path_nul(path: &str) -> (r: Result<Vec<u16>, String>)
    ensures
        windows_command::units_view(r) == path_units_nul(path@),
{
    match encode_path(path) {
        Ok(units) => {
            let mut out = units;
            out.push(0);
            Ok(out)
        },
        Err(m) => Err(m),
    }
}

/// Why an argument cannot be handed to a batch file.
pub open spec fn batch_problem(arg: Seq<char>) -> Option<Seq<char>> {
    if arg.contains('\r') || arg.contains('\n') || arg.contains('"') || text::last_is(arg, '\\') {
        Some("batch file argument cannot be represented safely and exactly"@)
    } else if windows_command::has_nul(arg) {
        Some("nul byte found in provided data"@)
    } else {
        None
    }
}

/// Why the first bad argument, from the `i`th on, cannot be handed over.
pub open spec fn batch_problem_from(args: Seq<Seq<char>>, i: int) -> Option<Seq<char>>
    decreases args.len() - i,
{
    if i < 0 || i >= args.len() {
        None
    } else {
        match batch_problem(args[i]) {
            Some(m) => Some(m),
            None => batch_problem_from(args, i + 1),
        }
    }
}

/// The first `n` arguments as the command line of a batch file writes them.
pub open spec fn batch_arguments(args: Seq<Seq<char>>, n: int) -> Seq<u16>
    decreases n,
{
    if n <= 0 {
        seq![]
    } else {
        batch_arguments(args, n - 1).push(SPACE) + batch_written(args[n - 1])
    }
}

/// The command line of a batch file.
pub open spec fn batch_line_of(script: Seq<char>, args: Seq<Seq<char>>) -> Result<
    Seq<u16>,
    Seq<char>,
> {
    match path_units(script) {
        Err(m) => Err(m),
        Ok(units) => if units.contains(QUOTE) || (units.len() > 0 && units.last() == BACKSLASH) {
            Err("Windows file names may not contain quotes or end with a backslash"@)
        } else {
            match batch_problem_from(args, 0) {
                Some(m) => Err(m),
                None => Ok(
                    (windows_command::units_of("cmd.exe /e:ON /v:OFF /d /c \""@).push(QUOTE)
                        + units).push(QUOTE) + batch_arguments(args, args.len() as int).push(
                        QUOTE,
                    ),
                ),
            }
        },
    }
}

/// The command line of a batch file: it goes to the command interpreter, so
/// arguments that cannot be written exactly for it are refused.
pub fn make_batch_command_line(script: &str, args: &[String]) -> (r: Result<Vec<u16>, String>)
    ensures
        windows_command::units_view(r) == batch_line_of(script@, text::texts(args@)),
{
    let units = match encode_path(script) {
        Err(m) => {
            return Err(m);
        },
        Ok(units) => units,
    };
    if windows_command::holds_unit(&units, QUOTE) || (units.len() > 0 && units[units.len() - 1]
        == BACKSLASH) {
        return Err(
            "Windows file names may not contain quotes or end with a backslash".to_owned(),
        );
    }
    let ghost all = text::texts(args@);
    let ghost head = (windows_command::units_of("cmd.exe /e:ON /v:OFF /d /c \""@).push(QUOTE)
        + units@).push(QUOTE);
    let mut line = windows_command::utf16("cmd.exe /e:ON /v:OFF /d /c \"");
    line.push(QUOTE);
    windows_command::push_units(&mut line, &units);
    line.push(QUOTE);
    assert(line@ =~= head);
    assert(head + batch_arguments(all, 0) =~= head);
    let mut i: usize = 0;
    while i < args.len()
        invariant
            i <= args@.len(),
            all == text::texts(args@),
            path_units(script@) == Ok::<Seq<u16>, Seq<char>>(units@),
            !(units@.contains(QUOTE) || (units@.len() > 0 && units@.last() == BACKSLASH)),
            batch_problem_from(all, 0) == batch_problem_from(all, i as int),
            line@ == head + batch_arguments(all, i as int),
        decreases args.len() - i,
    {
        let arg = args[i].as_str();
        assert(all[i as int] == arg@);
        if text::contains_char(arg, '\r') || text::contains_char(arg, '\n') || text::contains_char(
            arg,
            '"',
        ) || text::ends_with_char(arg, '\\') {
            return Err(
                "batch file argument cannot be represented safely and exactly".to_owned(),
            );
        }
        line.push(SPACE);
        match append_batch_arg(&mut line, arg) {
            Err(m) => {
                return Err(m);
            },
            Ok(_) => {},
        }
        assert(line@ =~= head + batch_arguments(all, i + 1));
        i += 1;
    }
    assert(all.len() == args@.len());
    line.push(QUOTE);
    assert(line@ =~= head + batch_arguments(all, i as int).push(QUOTE));
    Ok(line)
}

/// A variable of an environment.
pub struct Variable {
    pub name: String,
    pub value: String,
}

/// A change to an environment: a new value, or none.
pub struct Change {
    pub name: String,
    pub value: Option<String>,
}

/// The views of a list of variables.
pub open spec fn variable_views(v: Seq<Variable>) -> Seq<(Seq<char>, Seq<char>)> {
    Seq::new(v.len(), |i: int| (v[i].name@, v[i].value@))
}

/// The views of a list of changes.
pub open spec fn change_views(v: Seq<Change>) -> Seq<(Seq<char>, Option<Seq<char>>)> {
    Seq::new(v.len(), |i: int| (v[i].name@, text::opt_text(v[i].value)))
}

/// Whether two names are the same variable.
pub open spec fn same_name(a: Seq<char>, b: Seq<char>) -> bool {
    text::lower_of(a) == text::lower_of(b)
}

/// Those of the first `n` variables that do not go by `name`.
pub open spec fn without(variables: Seq<(Seq<char>, Seq<char>)>, name: Seq<char>, n: int) -> Seq<
    (Seq<char>, Seq<char>),
>
    decreases n,
{
    if n <= 0 {
        seq![]
    } else {
        let rest = without(variables, name, n - 1);
        if same_name(variables[n - 1].0, name) {
            rest
        } else {
            rest.push(variables[n - 1])
        }
    }
}

/// Why a change cannot be made.
pub open spec fn change_problem(change: (Seq<char>, Option<Seq<char>>)) -> Option<Seq<char>> {
    if windows_command::has_nul(change.0) {
        Some("nul byte found in environment variable name"@)
    } else if change.0.len() == 0 || change.0.contains('=') {
        Some("environment variable name must be non-empty and contain no equals sign"@)
    } else if change.1 matches Some(value) && windows_command::has_nul(value) {
        Some("nul byte found in environment variable value"@)
    } else {
        None
    }
}

/// Variables after a change: the old ones of that name are gone, a new value
/// stands last.
pub open spec fn with_change(
    variables: Seq<(Seq<char>, Seq<char>)>,
    change: (Seq<char>, Option<Seq<char>>),
) -> Seq<(Seq<char>, Seq<char>)> {
    let rest = without(variables, change.0, variables.len() as int);
    match change.1 {
        Some(value) => rest.push((change.0, value)),
        None => rest,
    }
}

/// Variables after the changes from the `i`th on.
pub open spec fn with_changes(
    variables: Seq<(Seq<char>, Seq<char>)>,
    changes: Seq<(Seq<char>, Option<Seq<char>>)>,
    i: int,
) -> Result<Seq<(Seq<char>, Seq<char>)>, Seq<char>>
    decreases changes.len() - i,
{
    if i < 0 || i >= changes.len() {
        Ok(variables)
    } else {
        match change_problem(changes[i]) {
            Some(m) => Err(m),
            None => with_changes(with_change(variables, changes[i]), changes, i + 1),
        }
    }
}

/// What a text is in upper case, as the Unicode tables of std have it.
pub uninterp spec fn uppercase(s: Seq<char>) -> Seq<char>;

/// `str::to_uppercase`. The contract says only that the result depends on the
/// text alone.
#[verifier::external_body]
fn to_uppercase(s: &str) -> (out: String)
    ensures
        out@ == uppercase(s@),
{
    s.to_uppercase()
}

/// The first position, from the `i`th on, whose name comes behind `name` in
/// upper case.
pub open spec fn slot_for(variables: Seq<(Seq<char>, Seq<char>)>, name: Seq<char>, i: int) -> int
    decreases variables.len() - i,
{
    if 0 <= i < variables.len() && !paths::text_before(
        uppercase(name),
        uppercase(variables[i].0),
        0,
    ) {
        slot_for(variables, name, i + 1)
    } else {
        i
    }
}

/// The first `n` variables in the order of their names in upper case; those
/// with one name stay in order.
pub open spec fn sorted_to(variables: Seq<(Seq<char>, Seq<char>)>, n: int) -> Seq<
    (Seq<char>, Seq<char>),
>
    decreases n,
{
    if n <= 0 {
        seq![]
    } else {
        let rest = sorted_to(variables, n - 1);
        rest.insert(slot_for(rest, variables[n - 1].0, 0), variables[n - 1])
    }
}

/// Why a variable cannot stand in an environment.
pub open spec fn variable_problem(variable: (Seq<char>, Seq<char>)) -> Option<Seq<char>> {
    let name = variable.0;
    if windows_command::has_nul(name) {
        Some("nul byte found in environment variable name"@)
    } else if windows_command::has_nul(variable.1) {
        Some("nul byte found in environment variable value"@)
    } else if name.len() == 0 || name.skip(
        if name[0] == '=' {
            1
        } else {
            0
        },
    ).contains('=') {
        Some("inherited environment contained an invalid variable name"@)
    } else {
        None
    }
}

/// A variable as an environment block holds it.
pub open spec fn variable_units(variable: (Seq<char>, Seq<char>)) -> Seq<u16> {
    (windows_command::units_of(variable.0).push(windows_command::EQUALS)
        + windows_command::units_of(variable.1)).push(0)
}

/// The variables from the `i`th on as an environment block holds them.
pub open spec fn block_from(variables: Seq<(Seq<char>, Seq<char>)>, i: int) -> Result<
    Seq<u16>,
    Seq<char>,
>
    decreases variables.len() - i,
{
    if i < 0 || i >= variables.len() {
        Ok(seq![])
    } else {
        match variable_problem(variables[i]) {
            Some(m) => Err(m),
            None => match block_from(variables, i + 1) {
                Ok(rest) => Ok(variable_units(variables[i]) + rest),
                Err(m) => Err(m),
            },
        }
    }
}

/// An environment block: the variables, and a zero; two where there are
/// none.
pub open spec fn environment_of(
    inherited: Seq<(Seq<char>, Seq<char>)>,
    changes: Seq<(Seq<char>, Option<Seq<char>>)>,
) -> Result<Seq<u16>, Seq<char>> {
    match with_changes(inherited, changes, 0) {
        Err(m) => Err(m),
        Ok(variables) => match block_from(sorted_to(variables, variables.len() as int), 0) {
            Err(m) => Err(m),
            Ok(block) => if block.len() == 0 {
                Ok(seq![0u16, 0u16])
            } else {
                Ok(block.push(0))
            },
        },
    }
}

fn copy_variable(v: &Variable) -> (r: Variable)
    ensures
        r.name@ == v.name@,
        r.value@ == v.value@,
{
    Variable { name: v.name.clone(), value: v.value.clone() }
}

fn remove_name(variables: &Vec<Variable>, name: &str) -> (out: Vec<Variable>)
    ensures
        variable_views(out@) == without(
            variable_views(variables@),
            name@,
            variables@.len() as int,
        ),
{
    let ghost all = variable_views(variables@);
    let mut out: Vec<Variable> = Vec::new();
    assert(variable_views(out@) =~= seq![]);
    let mut i: usize = 0;
    while i < variables.len()
        invariant
            i <= variables@.len(),
            all == variable_views(variables@),
            variable_views(out@) == without(all, name@, i as int),
        decreases variables.len() - i,
    {
        assert(all[i as int] == (variables@[i as int].name@, variables@[i as int].value@));
        if !text::same_ignoring_case(variables[i].name.as_str(), name) {
            let kept = copy_variable(&variables[i]);
            let ghost before = variable_views(out@);
            out.push(kept);
            assert(variable_views(out@) =~= before.push(all[i as int]));
        }
        i += 1;
    }
    out
}

fn check_change(name: &str, value: &Option<String>) -> (r: Option<String>)
    ensures
        text::opt_text(r) == change_problem((name@, text::opt_text(*value))),
{
    if text::contains_char(name, '\0') {
        return Some("nul byte found in environment variable name".to_owned());
    }
    if name.unicode_len() == 0 || text::contains_char(name, '=') {
        return Some(
            "environment variable name must be non-empty and contain no equals sign".to_owned(),
        );
    }
    match value {
        Some(v) => if text::contains_char(v.as_str(), '\0') {
            return Some("nul byte found in environment variable value".to_owned());
        },
        None => {},
    }
    None
}

fn apply_changes(inherited: &Vec<Variable>, changes: &Vec<Change>) -> (r: Result<
    Vec<Variable>,
    String,
>)
    ensures
        (match r {
            Ok(v) => Ok(variable_views(v@)),
            Err(m) => Err(m@),
        }) == with_changes(variable_views(inherited@), change_views(changes@), 0),
{
    let ghost all = change_views(changes@);
    let ghost start = variable_views(inherited@);
    let mut variables: Vec<Variable> = Vec::new();
    let mut k: usize = 0;
    while k < inherited.len()
        invariant
            k <= inherited@.len(),
            start == variable_views(inherited@),
            variable_views(variables@) =~= start.take(k as int),
        decreases inherited.len() - k,
    {
        let kept = copy_variable(&inherited[k]);
        let ghost before = variable_views(variables@);
        variables.push(kept);
        assert(variable_views(variables@) =~= before.push(start[k as int]));
        k += 1;
    }
    assert(start.take(k as int) =~= start);
    let mut i: usize = 0;
    while i < changes.len()
        invariant
            i <= changes@.len(),
            all == change_views(changes@),
            start == variable_views(inherited@),
            with_changes(start, all, 0) == with_changes(
                variable_views(variables@),
                all,
                i as int,
            ),
        decreases changes.len() - i,
    {
        let change = &changes[i];
        assert(all[i as int] == (change.name@, text::opt_text(change.value)));
        match check_change(change.name.as_str(), &change.value) {
            Some(m) => {
                return Err(m);
            },
            None => {},
        }
        assert(variable_views(variables@).len() == variables@.len());
        variables = remove_name(&variables, change.name.as_str());
        match &change.value {
            Some(value) => {
                let ghost before = variable_views(variables@);
                let new = Variable { name: change.name.clone(), value: value.clone() };
                variables.push(new);
                assert(variable_views(variables@) =~= before.push((change.name@, value@)));
            },
            None => {},
        }
        i += 1;
    }
    assert(all.len() == changes@.len());
    Ok(variables)
}

fn sort_variables(variables: &Vec<Variable>) -> (out: Vec<Variable>)
    ensures
        variable_views(out@) == sorted_to(
            variable_views(variables@),
            variables@.len() as int,
        ),
{
    let ghost all = variable_views(variables@);
    let mut out: Vec<Variable> = Vec::new();
    assert(variable_views(out@) =~= seq![]);
    let mut i: usize = 0;
    while i < variables.len()
        invariant
            i <= variables@.len(),
            all == variable_views(variables@),
            variable_views(out@) == sorted_to(all, i as int),
        decreases variables.len() - i,
    {
        let name = variables[i].name.as_str();
        assert(all[i as int] == (variables@[i as int].name@, variables@[i as int].value@));
        let key = to_uppercase(name);
        let ghost views = variable_views(out@);
        let mut k: usize = 0;
        while k < out.len() && !paths::text_less(
            key.as_str(),
            to_uppercase(out[k].name.as_str()).as_str(),
        )
            invariant
                k <= out@.len(),
                views == variable_views(out@),
                key@ == uppercase(name@),
                slot_for(views, name@, 0) == slot_for(views, name@, k as int),
            decreases out.len() - k,
        {
            assert(views[k as int].0 == out@[k as int].name@);
            k += 1;
        }
        assert(k < out@.len() ==> views[k as int].0 == out@[k as int].name@);
        let kept = copy_variable(&variables[i]);
        out.insert(k, kept);
        assert(variable_views(out@) =~= views.insert(k as int, all[i as int]));
        i += 1;
    }
    out
}

fn check_variable(name: &str, value: &str) -> (r: Option<String>)
    ensures
        text::opt_text(r) == variable_problem((name@, value@)),
{
    if text::contains_char(name, '\0') {
        return Some("nul byte found in environment variable name".to_owned());
    }
    if text::contains_char(value, '\0') {
        return Some("nul byte found in environment variable value".to_owned());
    }
    if name.unicode_len() == 0 {
        return Some("inherited environment contained an invalid variable name".to_owned());
    }
    let rest = if name.get_char(0) == '=' {
        text::skip(name, 1)
    } else {
        text::skip(name, 0)
    };
    if text::contains_char(rest, '=') {
        Some("inherited environment contained an invalid variable name".to_owned())
    } else {
        None
    }
}

/// An environment block of the inherited variables with the changes made.
pub fn make_environment_block(inherited: &Vec<Variable>, changes: &Vec<Change>) -> (r: Result<
    Vec<u16>,
    String,
>)
    ensures
        windows_command::units_view(r) == environment_of(
            variable_views(inherited@),
            change_views(changes@),
        ),
{
    let variables = match apply_changes(inherited, changes) {
        Ok(variables) => variables,
        Err(m) => {
            return Err(m);
        },
    };
    assert(variable_views(variables@).len() == variables@.len());
    let sorted = sort_variables(&variables);
    let ghost all = variable_views(sorted@);
    let mut block: Vec<u16> = Vec::new();
    let mut i: usize = 0;
    proof {
        if let Ok(rest) = block_from(all, 0) {
            assert(block@ + rest =~= rest);
        }
    }
    while i < sorted.len()
        invariant
            i <= sorted@.len(),
            all == variable_views(sorted@),
            with_changes(variable_views(inherited@), change_views(changes@), 0) == Ok::<
                Seq<(Seq<char>, Seq<char>)>,
                Seq<char>,
            >(variable_views(variables@)),
            all == sorted_to(
                variable_views(variables@),
                variable_views(variables@).len() as int,
            ),
            block_from(all, 0) == (match block_from(all, i as int) {
                Ok(rest) => Ok(block@ + rest),
                Err(m) => Err(m),
            }),
        decreases sorted.len() - i,
    {
        let variable = &sorted[i];
        assert(all[i as int] == (variable.name@, variable.value@));
        match check_variable(variable.name.as_str(), variable.value.as_str()) {
            Some(m) => {
                return Err(m);
            },
            None => {},
        }
        let ghost before = block@;
        windows_command::push_units(
            &mut block,
            &windows_command::utf16(variable.name.as_str()),
        );
        block.push(windows_command::EQUALS);
        windows_command::push_units(
            &mut block,
            &windows_command::utf16(variable.value.as_str()),
        );
        block.push(0);
        assert(block@ =~= before + variable_units(all[i as int]));
        proof {
            if let Ok(rest) = block_from(all, i + 1) {
                assert(before + (variable_units(all[i as int]) + rest) =~= block@ + rest);
            }
        }
        i += 1;
    }
    assert(all.len() == sorted@.len());
    assert(block@ + Seq::<u16>::empty() =~= block@);
    assert(block_from(all, 0) == Ok::<Seq<u16>, Seq<char>>(block@));
    let empty = block.len() == 0;
    block.push(0);
    if empty {
        block.push(0);
        assert(block@ =~= seq![0u16, 0u16]);
    }
    Ok(block)
}

/// Whether the file at a path has an extension, in any case. What stands
/// behind the name without being a part of its own does not count.
pub open spec fn has_extension(path: Seq<char>, extension: Seq<char>) -> bool {
    match paths::name_of(paths::path_of(Platform::Windows, path)) {
        Some(name) => match resources::extension_of(name) {
            Some(e) => text::lower_of(e) == text::lower_of(extension),
            None => false,
        },
        None => false,
    }
}

/// Whether the file at a path has an extension, in any case.
pub fn has_ascii_extension(path: &str, extension: &str) -> (r: bool)
    ensures
        r == has_extension(path@, extension@),
{
    match FsPath::parse_on(System::Windows, path).file_name() {
        Some(name) => match resources::split_extension(name.as_str()).1 {
            Some(e) => text::same_ignoring_case(e.as_str(), extension),
            None => false,
        },
        None => false,
    }
}

/// A name in a directory.
pub open spec fn in_directory(directory: Seq<char>, name: Seq<char>) -> Seq<char> {
    paths::joined_text(Platform::Windows, directory, name)
}

fn join_name(directory: &str, name: &str) -> (out: String)
    ensures
        out@ == in_directory(directory@, name@),
{
    paths::join_texts(System::Windows, directory, name)
}

/// The first of the directories, from the `i`th on, that has the file
/// `name`, with the name.
pub open spec fn found_from(
    directories: Seq<Seq<char>>,
    files: Seq<Seq<char>>,
    name: Seq<char>,
    i: int,
) -> Option<Seq<char>>
    decreases directories.len() - i,
{
    if i < 0 || i >= directories.len() {
        None
    } else if files.contains(in_directory(directories[i], name)) {
        Some(in_directory(directories[i], name))
    } else {
        found_from(directories, files, name, i + 1)
    }
}

/// Whether a path is the name of a file and nothing else.
pub open spec fn is_file_name(path: PathModel) -> bool {
    path.relative() && path.parts.len() == 1 && paths::name_of(path) is Some
}

/// The executable that `program` stands for: `files` are the paths that are
/// files.
pub open spec fn executable_of(
    program: Seq<char>,
    directories: Seq<Seq<char>>,
    files: Seq<Seq<char>>,
) -> Result<Seq<char>, Seq<char>> {
    let path = paths::path_of(Platform::Windows, program);
    if windows_command::has_nul(program) {
        Err("nul byte found in provided data"@)
    } else if program.len() == 0 || paths::name_of(path) is None {
        Err("program path has no file name"@)
    } else if !is_file_name(path) {
        if has_extension(program, "exe"@) {
            Ok(program)
        } else if files.contains(program + ".exe"@) {
            Ok(program + ".exe"@)
        } else {
            Ok(program)
        }
    } else {
        let name = if program.contains('.') {
            program
        } else {
            program + ".exe"@
        };
        match found_from(directories, files, name, 0) {
            Some(path) => Ok(path),
            None => Err("program not found"@),
        }
    }
}

/// The executable that `program` stands for.
pub fn resolve_executable(
    program: &str,
    directories: &[String],
    files: &[String],
) -> (r: Result<String, String>)
    ensures
        (match r {
            Ok(path) => Ok(path@),
            Err(m) => Err(m@),
        }) == executable_of(
            program@,
            text::texts(directories@),
            text::texts(files@),
        ),
{
    match windows_command::ensure_no_nul(program) {
        Err(m) => {
            return Err(m);
        },
        Ok(_) => {},
    }
    let path = FsPath::parse_on(System::Windows, program);
    if program.unicode_len() == 0 || path.file_name().is_none() {
        return Err("program path has no file name".to_owned());
    }
    assert(path@.parts.len() == path.parts@.len());
    let plain = !path.rooted && path.prefix.as_str().unicode_len() == 0 && path.parts.len() == 1;
    if !plain {
        if has_ascii_extension(program, "exe") {
            return Ok(program.to_owned());
        }
        let executable = text::cat(program, ".exe");
        return if text::listed(files, executable.as_str()) {
            Ok(executable)
        } else {
            Ok(program.to_owned())
        };
    }
    let name = if text::contains_char(program, '.') {
        program.to_owned()
    } else {
        text::cat(program, ".exe")
    };
    let ghost all = text::texts(directories@);
    let ghost known = text::texts(files@);
    let mut i: usize = 0;
    while i < directories.len()
        invariant
            i <= directories@.len(),
            all == text::texts(directories@),
            known == text::texts(files@),
            found_from(all, known, name@, 0) == found_from(all, known, name@, i as int),
            !windows_command::has_nul(program@),
            program@.len() > 0,
            paths::name_of(paths::path_of(Platform::Windows, program@)) is Some,
            is_file_name(paths::path_of(Platform::Windows, program@)),
            name@ == (if program@.contains('.') {
                program@
            } else {
                program@ + ".exe"@
            }),
        decreases directories.len() - i,
    {
        assert(all[i as int] == directories@[i as int]@);
        let candidate = join_name(directories[i].as_str(), name.as_str());
        if text::listed(files, candidate.as_str()) {
            return Ok(candidate);
        }
        i += 1;
    }
    assert(all.len() == directories@.len());
    Err("program not found".to_owned())
}

/// What a process is started with.
pub struct SpawnPlan {
    pub application: Vec<u16>,
    pub command_line: Vec<u16>,
    pub cwd: Vec<u16>,
    pub environment: Vec<u16>,
}

/// The model of `SpawnPlan`.
#[verifier::ext_equal]
pub struct SpawnModel {
    pub application: Seq<u16>,
    pub command_line: Seq<u16>,
    pub cwd: Seq<u16>,
    pub environment: Seq<u16>,
}

impl View for SpawnPlan {
    type V = SpawnModel;

    open spec fn view(&self) -> SpawnModel {
        SpawnModel {
            application: self.application@,
            command_line: self.command_line@,
            cwd: self.cwd@,
            environment: self.environment@,
        }
    }
}

/// Whether an executable is a batch file.
pub open spec fn is_batch(resolved: Seq<char>) -> bool {
    has_extension(resolved, "cmd"@) || has_extension(resolved, "bat"@)
}

/// What runs, and its command line: a program itself, a batch file through
/// the command interpreter of the system.
pub open spec fn invocation_of(
    program: Seq<char>,
    resolved: Seq<char>,
    args: Seq<Seq<char>>,
    system: Result<Seq<char>, Seq<char>>,
) -> Result<(Seq<char>, Seq<u16>), Seq<char>> {
    if is_batch(resolved) {
        match system {
            Err(m) => Err(m),
            Ok(directory) => match batch_line_of(resolved, args) {
                Ok(line) => Ok((in_directory(directory, "cmd.exe"@), line)),
                Err(m) => Err(m),
            },
        }
    } else {
        match windows_command::command_line_of(program, args) {
            Ok(line) => Ok((resolved, line)),
            Err(m) => Err(m),
        }
    }
}

/// What a process is started with.
pub open spec fn plan_of(
    invocation: Result<(Seq<char>, Seq<u16>), Seq<char>>,
    cwd: Seq<char>,
    environment: Result<Seq<u16>, Seq<char>>,
) -> Result<SpawnModel, Seq<char>> {
    match invocation {
        Err(m) => Err(m),
        Ok((application, line)) => match path_units_nul(application) {
            Err(m) => Err(m),
            Ok(application) => match path_units_nul(cwd) {
                Err(m) => Err(m),
                Ok(cwd) => match environment {
                    Err(m) => Err(m),
                    Ok(environment) => Ok(
                        SpawnModel { application, command_line: line.push(0), cwd, environment },
                    ),
                },
            },
        },
    }
}

fn choose_invocation(
    program: &str,
    resolved: &str,
    args: &[String],
    system: Result<String, String>,
) -> (r: Result<(String, Vec<u16>), String>)
    ensures
        (match r {
            Ok(p) => Ok((p.0@, p.1@)),
            Err(m) => Err(m@),
        }) == invocation_of(
            program@,
            resolved@,
            text::texts(args@),
            match system {
                Ok(s) => Ok(s@),
                Err(m) => Err(m@),
            },
        ),
{
    if has_ascii_extension(resolved, "cmd") || has_ascii_extension(resolved, "bat") {
        match system {
            Err(m) => Err(m),
            Ok(directory) => match make_batch_command_line(resolved, args) {
                Ok(line) => Ok((join_name(directory.as_str(), "cmd.exe"), line)),
                Err(m) => Err(m),
            },
        }
    } else {
        match windows_command::make_command_line(program, args) {
            Ok(line) => Ok((resolved.to_owned(), line)),
            Err(m) => Err(m),
        }
    }
}

/// What a process is started with, or why it cannot be: `system` is what came
/// of asking for the system's directory.
pub fn plan_spawn(
    program: &str,
    resolved: &str,
    args: &[String],
    system: Result<String, String>,
    cwd: &str,
    inherited: &Vec<Variable>,
    changes: &Vec<Change>,
) -> (r: Result<SpawnPlan, String>)
    ensures
        (match r {
            Ok(plan) => Ok(plan@),
            Err(m) => Err(m@),
        }) == plan_of(
            invocation_of(
                program@,
                resolved@,
                text::texts(args@),
                match system {
                    Ok(s) => Ok(s@),
                    Err(m) => Err(m@),
                },
            ),
            cwd@,
            environment_of(variable_views(inherited@), change_views(changes@)),
        ),
{
    let (application, line) = match choose_invocation(program, resolved, args, system) {
        Ok(p) => p,
        Err(m) => {
            return Err(m);
        },
    };
    let mut command_line = line;
    command_line.push(0);
    let application = match encode_path_nul(application.as_str()) {
        Ok(units) => units,
        Err(m) => {
            return Err(m);
        },
    };
    let directory = match encode_path_nul(cwd) {
        Ok(units) => units,
        Err(m) => {
            return Err(m);
        },
    };
    match make_environment_block(inherited, changes) {
        Ok(environment) => Ok(
            SpawnPlan { application, command_line, cwd: directory, environment },
        ),
        Err(m) => Err(m),
    }
}

proof fn lemma_block_ends(variables: Seq<(Seq<char>, Seq<char>)>, i: int)
    requires
        0 <= i,
    ensures
        block_from(variables, i) matches Ok(block) ==> block.len() > 0 ==> block.last() == 0,
    decreases variables.len() - i,
{
    if i < variables.len() {
        lemma_block_ends(variables, i + 1);
    }
}

/// An environment block always ends with two zeros, without variables too.
pub proof fn lemma_environment_ends(
    inherited: Seq<(Seq<char>, Seq<char>)>,
    changes: Seq<(Seq<char>, Option<Seq<char>>)>,
)
    ensures
        environment_of(inherited, changes) matches Ok(block) ==> {
            &&& block.len() >= 2
            &&& block[block.len() - 1] == 0
            &&& block[block.len() - 2] == 0
        },
{
    if let Ok(variables) = with_changes(inherited, changes, 0) {
        lemma_block_ends(sorted_to(variables, variables.len() as int), 0);
    }
}

proof fn lemma_without(variables: Seq<(Seq<char>, Seq<char>)>, name: Seq<char>, n: int, i: int)
    requires
        0 <= n <= variables.len(),
        0 <= i < without(variables, name, n).len(),
    ensures
        !same_name(without(variables, name, n)[i].0, name),
    decreases n,
{
    if n > 0 {
        let rest = without(variables, name, n - 1);
        if i < rest.len() {
            lemma_without(variables, name, n - 1, i);
        }
    }
}

/// A change decides about its variable: a new value is the only one that goes
/// by the name, and without one none does.
pub proof fn lemma_change_decides(
    variables: Seq<(Seq<char>, Seq<char>)>,
    change: (Seq<char>, Option<Seq<char>>),
    i: int,
)
    requires
        0 <= i < with_change(variables, change).len(),
        same_name(with_change(variables, change)[i].0, change.0),
    ensures
        change.1 == Some(with_change(variables, change)[i].1),
        i == with_change(variables, change).len() - 1,
{
    let rest = without(variables, change.0, variables.len() as int);
    if i < rest.len() {
        lemma_without(variables, change.0, variables.len() as int, i);
    }
}

/// A batch file never gets an argument that ends a line, ends the quotation
/// round it, or hides what follows it.
pub proof fn lemma_batch_arguments_are_safe(script: Seq<char>, args: Seq<Seq<char>>, i: int)
    requires
        batch_line_of(script, args) is Ok,
        0 <= i < args.len(),
    ensures
        !args[i].contains('"'),
        !args[i].contains('\n'),
        !args[i].contains('\r'),
        !text::last_is(args[i], '\\'),
{
    lemma_no_problem(args, 0, i);
}

proof fn lemma_no_problem(args: Seq<Seq<char>>, from: int, i: int)
    requires
        0 <= from <= i < args.len(),
        batch_problem_from(args, from) is None,
    ensures
        batch_problem(args[i]) is None,
    decreases i - from,
{
    if from < i {
        lemma_no_problem(args, from + 1, i);
    }
}

} // verus!
