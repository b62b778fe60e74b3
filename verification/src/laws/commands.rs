//! What the package commands understand, and what they do to the settings.

use vstd::prelude::*;

use crate::discovery::SettingModel;
use crate::package_cli;
use crate::package_cli::{
    EditModel, NativeModel, RequestModel, UpdateRequestModel, UpdateScope, UpdateSettings,
};
use crate::packages::{PackageModel, ResourcesModel};
use crate::paths;
use crate::paths::EntryModel;
use crate::stores::{PlacesModel, SourceModel};
use crate::text;
use crate::update;
use crate::update::{JobModel, StepModel};

verus! {

/// Whether an argument says that the project is trusted.
pub open spec fn approves(arg: Seq<char>) -> bool {
    arg == seq!['-', '-', 'a', 'p', 'p', 'r', 'o', 'v', 'e'] || arg == seq!['-', 'a']
}

/// Whether an argument says that the project is not trusted.
pub open spec fn disapproves(arg: Seq<char>) -> bool {
    arg == seq!['-', '-', 'n', 'o', '-', 'a', 'p', 'p', 'r', 'o', 'v', 'e'] || arg == seq![
        '-',
        'n',
        'a',
    ]
}

/// Whether an argument asks for JSON.
pub open spec fn asks_json(arg: Seq<char>) -> bool {
    arg == seq!['-', '-', 'j', 's', 'o', 'n']
}

proof fn lemma_option(arg: Seq<char>)
    ensures
        package_cli::trust_option(arg) == Ok::<Option<bool>, Seq<char>>(Some(true)) <==> approves(
            arg,
        ),
        package_cli::trust_option(arg) == Ok::<Option<bool>, Seq<char>>(Some(false))
            <==> disapproves(arg),
        package_cli::trust_option(arg) == Ok::<Option<bool>, Seq<char>>(None) <==> asks_json(arg),
        package_cli::trust_option(arg) is Err <==> !approves(arg) && !disapproves(arg)
            && !asks_json(arg),
{
    reveal_strlit("--approve");
    reveal_strlit("-a");
    reveal_strlit("--no-approve");
    reveal_strlit("-na");
    reveal_strlit("--json");
    assert("--approve"@ =~= seq!['-', '-', 'a', 'p', 'p', 'r', 'o', 'v', 'e']);
    assert("-a"@ =~= seq!['-', 'a']);
    assert("--no-approve"@ =~= seq![
        '-',
        '-',
        'n',
        'o',
        '-',
        'a',
        'p',
        'p',
        'r',
        'o',
        'v',
        'e',
    ]);
    assert("-na"@ =~= seq!['-', 'n', 'a']);
    assert("--json"@ =~= seq!['-', '-', 'j', 's', 'o', 'n']);
    assert("--approve"@.len() == 9 && "-a"@.len() == 2 && "--no-approve"@.len() == 12
        && "-na"@.len() == 3 && "--json"@.len() == 6);
}

proof fn lemma_only_json(
    args: Seq<Seq<char>>,
    i: int,
    given: Option<bool>,
    decision: Result<Option<bool>, Seq<char>>,
)
    requires
        0 <= i <= args.len(),
        forall|k: int| i <= k < args.len() ==> asks_json(#[trigger] args[k]),
    ensures
        package_cli::trust_from(args, i, given, decision) == package_cli::trust_from(
            args,
            args.len() as int,
            given,
            decision,
        ),
    decreases args.len() - i,
{
    if i < args.len() {
        lemma_option(args[i]);
        lemma_only_json(args, i + 1, given, decision);
    }
}

/// One argument for or against trust decides, wherever it stands.
pub proof fn lemma_given_trust_decides(
    args: Seq<Seq<char>>,
    decision: Result<Option<bool>, Seq<char>>,
    k: int,
)
    requires
        0 <= k < args.len(),
        approves(args[k]) || disapproves(args[k]),
        forall|j: int| 0 <= j < args.len() && j != k ==> asks_json(#[trigger] args[j]),
    ensures
        package_cli::trust_from(args, 0, None, decision) == Ok::<bool, Seq<char>>(
            approves(args[k]),
        ),
{
    lemma_up_to(args, 0, k, decision);
    lemma_option(args[k]);
    lemma_only_json(args, k + 1, Some(approves(args[k])), decision);
}

proof fn lemma_up_to(
    args: Seq<Seq<char>>,
    i: int,
    k: int,
    decision: Result<Option<bool>, Seq<char>>,
)
    requires
        0 <= i <= k <= args.len(),
        forall|j: int| i <= j < k ==> asks_json(#[trigger] args[j]),
    ensures
        package_cli::trust_from(args, i, None, decision) == package_cli::trust_from(
            args,
            k,
            None,
            decision,
        ),
    decreases k - i,
{
    if i < k {
        lemma_option(args[i]);
        lemma_up_to(args, i + 1, k, decision);
    }
}

/// Without an argument for or against trust the stored decision counts; where
/// none is stored the project is trusted.
pub proof fn lemma_stored_trust_counts(
    args: Seq<Seq<char>>,
    decision: Result<Option<bool>, Seq<char>>,
)
    requires
        forall|j: int| 0 <= j < args.len() ==> asks_json(#[trigger] args[j]),
    ensures
        package_cli::trust_from(args, 0, None, decision) == (match decision {
            Ok(Some(v)) => Ok(v),
            Ok(None) => Ok(true),
            Err(m) => Err(m),
        }),
{
    lemma_only_json(args, 0, None, decision);
}

proof fn lemma_bad_options(
    args: Seq<Seq<char>>,
    i: int,
    given: Option<bool>,
    decision: Result<Option<bool>, Seq<char>>,
    k: int,
)
    requires
        0 <= i <= k < args.len(),
        ({
            ||| !approves(args[k]) && !disapproves(args[k]) && !asks_json(args[k])
            ||| (approves(args[k]) || disapproves(args[k])) && given is Some
        }),
    ensures
        package_cli::trust_from(args, i, given, decision) is Err,
    decreases k - i,
{
    lemma_option(args[i]);
    if i < k {
        if let Ok(Some(v)) = package_cli::trust_option(args[i]) {
            if given is None {
                lemma_bad_options(args, i + 1, Some(v), decision, k);
            }
        } else {
            lemma_bad_options(args, i + 1, given, decision, k);
        }
    }
}

/// An argument that is not known is refused, and so is a second one for or
/// against trust.
pub proof fn lemma_bad_options_are_refused(
    args: Seq<Seq<char>>,
    decision: Result<Option<bool>, Seq<char>>,
    j: int,
    k: int,
)
    requires
        0 <= j <= k < args.len(),
        ({
            ||| !approves(args[k]) && !disapproves(args[k]) && !asks_json(args[k])
            ||| j < k && (approves(args[j]) || disapproves(args[j])) && (approves(args[k])
                || disapproves(args[k]))
        }),
    ensures
        package_cli::trust_from(args, 0, None, decision) is Err,
{
    if !approves(args[k]) && !disapproves(args[k]) && !asks_json(args[k]) {
        lemma_bad_options(args, 0, None, decision, k);
    } else {
        lemma_repeated(args, 0, None, decision, j, k);
    }
}

proof fn lemma_repeated(
    args: Seq<Seq<char>>,
    i: int,
    given: Option<bool>,
    decision: Result<Option<bool>, Seq<char>>,
    j: int,
    k: int,
)
    requires
        0 <= i <= j < k < args.len(),
        approves(args[j]) || disapproves(args[j]),
        approves(args[k]) || disapproves(args[k]),
    ensures
        package_cli::trust_from(args, i, given, decision) is Err,
    decreases j - i,
{
    lemma_option(args[i]);
    if i == j {
        if given is None {
            lemma_bad_options(args, i + 1, Some(approves(args[j])), decision, k);
        }
    } else {
        if let Ok(Some(v)) = package_cli::trust_option(args[i]) {
            if given is None {
                lemma_repeated(args, i + 1, Some(v), decision, j, k);
            }
        } else {
            lemma_repeated(args, i + 1, given, decision, j, k);
        }
    }
}

proof fn lemma_online(args: Seq<Seq<char>>, n: int)
    requires
        0 <= n <= args.len(),
    ensures
        forall|k: int|
            0 <= k < package_cli::online_args(args, n).len() ==> args.contains(
                #[trigger] package_cli::online_args(args, n)[k],
            ) && package_cli::online_args(args, n)[k] != "--offline"@,
        forall|i: int|
            0 <= i < n && #[trigger] args[i] != "--offline"@ ==> package_cli::online_args(
                args,
                n,
            ).contains(args[i]),
        (forall|i: int| 0 <= i < n ==> #[trigger] args[i] != "--offline"@)
            ==> package_cli::online_args(args, n) == args.take(n),
    decreases n,
{
    if n > 0 {
        lemma_online(args, n - 1);
        let rest = package_cli::online_args(args, n - 1);
        let out = package_cli::online_args(args, n);
        assert(args.contains(args[n - 1]));
        assert forall|i: int| 0 <= i < n && #[trigger] args[i] != "--offline"@ implies out.contains(
            args[i],
        ) by {
            if i < n - 1 {
                assert(rest.contains(args[i]));
                let k = choose|k: int| 0 <= k < rest.len() && rest[k] == args[i];
                assert(out[k] == args[i]);
            } else {
                assert(out[rest.len() as int] == args[i]);
            }
        }
        if forall|i: int| 0 <= i < n ==> #[trigger] args[i] != "--offline"@ {
            assert(args.take(n) =~= args.take(n - 1).push(args[n - 1]));
        }
    } else {
        assert(args.take(0) =~= seq![]);
    }
}

/// The commands see every argument but `--offline`.
pub proof fn lemma_offline_is_taken_out(args: Seq<Seq<char>>, arg: Seq<char>)
    ensures
        package_cli::online_args(args, args.len() as int).contains(arg) <==> args.contains(arg)
            && arg != "--offline"@,
        !args.contains("--offline"@) ==> package_cli::online_args(args, args.len() as int) == args,
{
    let n = args.len() as int;
    lemma_online(args, n);
    let out = package_cli::online_args(args, n);
    if out.contains(arg) {
        let k = choose|k: int| 0 <= k < out.len() && out[k] == arg;
        assert(args.contains(out[k]));
    }
    if args.contains(arg) {
        let i = choose|i: int| 0 <= i < args.len() && args[i] == arg;
        assert(args[i] == arg);
    }
    if !args.contains("--offline"@) {
        assert(args.take(n) =~= args);
    }
}

/// What each command asks for. `add` and `remove` need a package that does
/// not begin with a hyphen.
pub proof fn lemma_commands_ask(
    args: Seq<Seq<char>>,
    decision: Result<Option<bool>, Seq<char>>,
)
    requires
        args.len() > 0,
    ensures
        args[0] == seq!['a', 'd', 'd'] && args.len() > 1 && !(args[1].len() > 0 && args[1][0]
            == '-') ==> package_cli::request_of(args, decision) == (RequestModel::Add {
            spec: args[1],
        }),
        (args[0] == seq!['r', 'e', 'm', 'o', 'v', 'e'] || args[0] == seq!['r', 'm']) && args.len()
            > 1 && !(args[1].len() > 0 && args[1][0] == '-') ==> package_cli::request_of(
            args,
            decision,
        ) == (RequestModel::Remove { spec: args[1] }),
        (args[0] == seq!['a', 'd', 'd'] || args[0] == seq!['r', 'e', 'm', 'o', 'v', 'e'] || args[0]
            == seq!['r', 'm']) && (args.len() == 1 || (args[1].len() > 0 && args[1][0] == '-'))
            ==> package_cli::request_of(args, decision) is Refuse,
        args[0] == seq!['l', 'i', 's', 't'] ==> (match package_cli::trust_from(
            args.skip(1),
            0,
            None,
            decision,
        ) {
            Ok(trusted) => package_cli::request_of(args, decision) == (RequestModel::List {
                json: args.contains("--json"@),
                trusted,
            }),
            Err(_) => package_cli::request_of(args, decision) is Refuse,
        }),
        args[0] == seq!['u', 'p', 'd', 'a', 't', 'e'] ==> (if args.contains("--help"@)
            || args.contains("-h"@) {
            package_cli::request_of(args, decision) is UpdateHelp
        } else {
            match package_cli::trust_from(args.skip(1), 0, None, decision) {
                Ok(trusted) => package_cli::request_of(args, decision) == (RequestModel::Update {
                    trusted,
                }),
                Err(_) => package_cli::request_of(args, decision) is Refuse,
            }
        }),
        args[0] == seq!['h', 'e', 'l', 'p'] ==> package_cli::request_of(args, decision) is Help,
        args[0].len() == 0 || args[0][0] == 'x' ==> package_cli::request_of(args, decision)
            is Refuse,
{
    reveal_strlit("list");
    reveal_strlit("add");
    reveal_strlit("remove");
    reveal_strlit("rm");
    reveal_strlit("update");
    reveal_strlit("help");
    reveal_strlit("--help");
    reveal_strlit("-h");
    assert("list"@ =~= seq!['l', 'i', 's', 't']);
    assert("add"@ =~= seq!['a', 'd', 'd']);
    assert("remove"@ =~= seq!['r', 'e', 'm', 'o', 'v', 'e']);
    assert("rm"@ =~= seq!['r', 'm']);
    assert("update"@ =~= seq!['u', 'p', 'd', 'a', 't', 'e']);
    assert("help"@ =~= seq!['h', 'e', 'l', 'p']);
    assert("list"@.len() == 4 && "add"@.len() == 3 && "remove"@.len() == 6 && "rm"@.len() == 2
        && "update"@.len() == 6 && "help"@.len() == 4);
    assert("list"@[0] == 'l' && "add"@[0] == 'a' && "remove"@[0] == 'r' && "rm"@[0] == 'r'
        && "update"@[0] == 'u' && "help"@[0] == 'h' && "--help"@[0] == '-' && "-h"@[0] == '-');
}

/// The update of native packages takes no options; that of Pi packages takes
/// those for trust.
pub proof fn lemma_update_asks(
    args: Seq<Seq<char>>,
    scope: UpdateScope,
    decision: Result<Option<bool>, Seq<char>>,
)
    requires
        !args.contains("--help"@),
        !args.contains("-h"@),
    ensures
        scope == UpdateScope::Native ==> (package_cli::update_request_of(args, scope, decision)
            is Run <==> args.len() == 0),
        scope == UpdateScope::Pi ==> (match package_cli::trust_from(args, 0, None, decision) {
            Ok(trusted) => package_cli::update_request_of(args, scope, decision) == (
            UpdateRequestModel::Run { trusted }),
            Err(message) => package_cli::update_request_of(args, scope, decision) == (
            UpdateRequestModel::Refuse { message }),
        }),
{
}

/// Whether some entry is for `spec`.
pub open spec fn lists_source(entries: Option<Seq<SettingModel>>, spec: Seq<char>) -> bool {
    entries matches Some(list) && exists|i: int|
        0 <= i < list.len() && (#[trigger] list[i]).source == spec
}

/// To enable a package adds one entry for it behind the others, without a
/// filter; a package that is enabled stays as it is, with its filter.
pub proof fn lemma_enable_adds_one(entries: Option<Seq<SettingModel>>, spec: Seq<char>)
    ensures
        lists_source(package_cli::enabled(entries, spec).0, spec),
        package_cli::enabled(entries, spec).1 == !lists_source(entries, spec),
        lists_source(entries, spec) ==> package_cli::enabled(entries, spec).0 == entries,
        !lists_source(entries, spec) ==> {
            let list = entries.unwrap_or(seq![]);
            package_cli::enabled(entries, spec).0 == Some(
                list.push(SettingModel { source: spec, filter: None }),
            )
        },
{
    let list = match entries {
        Some(list) => list,
        None => seq![],
    };
    if package_cli::names_source(list, spec) {
        let i = choose|i: int| 0 <= i < list.len() && (#[trigger] list[i]).source == spec;
        assert(list[i].source == spec);
    } else {
        let more = list.push(SettingModel { source: spec, filter: None });
        assert(more[list.len() as int].source == spec);
        assert(!lists_source(entries, spec)) by {
            if lists_source(entries, spec) {
                let i = choose|i: int| 0 <= i < list.len() && (#[trigger] list[i]).source == spec;
                assert(list[i].source == spec);
            }
        }
    }
}

proof fn lemma_others(list: Seq<SettingModel>, n: int, spec: Seq<char>)
    requires
        0 <= n <= list.len(),
    ensures
        package_cli::other_entries(list, n, spec).len() <= n,
        package_cli::other_entries(list, n, spec).len() == n <==> forall|i: int|
            0 <= i < n ==> (#[trigger] list[i]).source != spec,
        forall|k: int|
            0 <= k < package_cli::other_entries(list, n, spec).len() ==> list.contains(
                #[trigger] package_cli::other_entries(list, n, spec)[k],
            ) && package_cli::other_entries(list, n, spec)[k].source != spec,
        forall|i: int|
            0 <= i < n && (#[trigger] list[i]).source != spec ==> package_cli::other_entries(
                list,
                n,
                spec,
            ).contains(list[i]),
    decreases n,
{
    if n > 0 {
        lemma_others(list, n - 1, spec);
        let rest = package_cli::other_entries(list, n - 1, spec);
        let out = package_cli::other_entries(list, n, spec);
        assert(list.contains(list[n - 1]));
        assert forall|i: int| 0 <= i < n && (#[trigger] list[i]).source != spec implies out.contains(
            list[i],
        ) by {
            if i < n - 1 {
                assert(rest.contains(list[i]));
                let k = choose|k: int| 0 <= k < rest.len() && rest[k] == list[i];
                assert(out[k] == list[i]);
            } else {
                assert(out[rest.len() as int] == list[i]);
            }
        }
    }
}

/// To disable a package takes out every entry for it and no other, and says
/// whether there was one.
pub proof fn lemma_disable_takes_out_all(
    entries: Option<Seq<SettingModel>>,
    spec: Seq<char>,
    other: SettingModel,
)
    ensures
        !lists_source(package_cli::disabled(entries, spec).0, spec),
        package_cli::disabled(entries, spec).1 == lists_source(entries, spec),
        other.source != spec ==> ((entries matches Some(list) && list.contains(other)) <==> (
        package_cli::disabled(entries, spec).0 matches Some(list) && list.contains(other))),
{
    if let Some(list) = entries {
        let n = list.len() as int;
        lemma_others(list, n, spec);
        let rest = package_cli::other_entries(list, n, spec);
        if list.contains(other) && other.source != spec {
            let i = choose|i: int| 0 <= i < list.len() && list[i] == other;
            assert(list[i].source != spec);
            assert(rest.contains(other));
        }
        if rest.contains(other) {
            let k = choose|k: int| 0 <= k < rest.len() && rest[k] == other;
            assert(list.contains(rest[k]));
        }
        if lists_source(entries, spec) {
            let i = choose|i: int| 0 <= i < list.len() && (#[trigger] list[i]).source == spec;
            assert(list[i].source == spec);
            assert(rest.len() != n);
        }
    }
}

/// Settings that cannot be read are not changed, nor are any for a package
/// that cannot be added; what is saved is the list with the package in it,
/// or without it.
pub proof fn lemma_only_readable_settings_are_saved(
    spec: Seq<char>,
    problem: Option<Seq<char>>,
    settings: Result<Option<Seq<SettingModel>>, Seq<char>>,
)
    ensures
        settings is Err || problem is Some ==> (package_cli::added(
            spec,
            problem,
            settings,
        ) matches EditModel::Done { line, code } && code == 1 && line.error),
        settings is Err ==> (package_cli::removed(spec, settings) matches EditModel::Done {
            line,
            code,
        } && code == 1 && line.error),
        package_cli::added(spec, problem, settings) matches EditModel::Save { packages, line }
            ==> lists_source(packages, spec) && !lists_source(settings->Ok_0, spec) && !line.error,
        package_cli::removed(spec, settings) matches EditModel::Save { packages, line }
            ==> !lists_source(packages, spec) && lists_source(settings->Ok_0, spec) && !line.error,
        problem is None && settings is Ok && !lists_source(settings->Ok_0, spec)
            ==> package_cli::added(spec, problem, settings) is Save,
        settings is Ok && lists_source(settings->Ok_0, spec) ==> package_cli::removed(
            spec,
            settings,
        ) is Save,
{
    if let Ok(entries) = settings {
        lemma_enable_adds_one(entries, spec);
        lemma_disable_takes_out_all(entries, spec, SettingModel { source: seq![], filter: None });
    }
}

/// The list names every package with its version and place, Pi packages
/// first, then every native one, then what could not be loaded.
pub proof fn lemma_list_names_all(r: ResourcesModel, native: Seq<NativeModel>, i: int)
    requires
        0 <= i < r.packages.len() + native.len() + r.diagnostics.len(),
        r.packages.len() + native.len() > 0,
    ensures
        ({
            let lines = package_cli::list_lines_of(r, native);
            let n = r.packages.len() as int;
            let m = n + native.len();
            &&& lines.len() == r.packages.len() + native.len() + r.diagnostics.len()
            &&& lines[i].error == (i >= m)
            &&& i < n ==> lines[i].text == r.packages[i].name + "@"@ + r.packages[i].version.unwrap_or(
                "-"@,
            ) + " "@ + paths::path_text(r.packages[i].root)
            &&& n <= i < m ==> lines[i].text == native[i - n].name + "@"@ + native[i - n].version
                + " [rust] "@ + native[i - n].source.unwrap_or("crates.io"@)
            &&& i >= m ==> lines[i].text == "warning: package "@ + r.diagnostics[i - m].spec + ": "@
                + r.diagnostics[i - m].message
        }),
{
}

/// With nothing enabled, that is what the list says.
pub proof fn lemma_empty_list_says_so(r: ResourcesModel)
    requires
        r.packages.len() == 0,
    ensures
        package_cli::list_lines_of(r, seq![]).len() == 1 + r.diagnostics.len(),
        package_cli::list_lines_of(r, seq![])[0].text == "no Pi packages enabled"@,
        !package_cli::list_lines_of(r, seq![])[0].error,
{
}

/// A registry package is updated unless it is pinned and there.
pub proof fn lemma_unpinned_is_updated(p: PackageModel)
    ensures
        p.source matches SourceModel::Npm { name, spec, pinned, .. } ==> (if !pinned
            || p.missing_install {
            update::updateable_npm(p) == Some((name, spec))
        } else {
            update::updateable_npm(p) is None
        }),
        !(p.source is Npm) ==> update::updateable_npm(p) is None,
{
}

proof fn lemma_native(native: Seq<NativeModel>, n: int)
    requires
        0 <= n <= native.len(),
    ensures
        update::native_steps(native, n).0.len() == n,
        update::native_steps(native, n).1 <= n,
        forall|i: int|
            0 <= i < n ==> (if (#[trigger] native[i]).source is Some {
                update::native_steps(native, n).0[i] is Say
            } else {
                update::native_steps(native, n).0[i] == StepModel::Run(
                    JobModel::Native { name: native[i].name },
                )
            }),
    decreases n,
{
    if n > 0 {
        lemma_native(native, n - 1);
    }
}

/// Every native package from the registry is updated, in order; one with a
/// source of its own is skipped.
pub proof fn lemma_native_from_registry_is_updated(native: Seq<NativeModel>, i: int)
    requires
        0 <= i < native.len(),
    ensures
        ({
            let steps = update::native_steps(native, native.len() as int).0;
            &&& steps.len() == native.len()
            &&& native[i].source is None ==> steps[i] == StepModel::Run(
                JobModel::Native { name: native[i].name },
            )
            &&& native[i].source is Some ==> steps[i] is Say
        }),
{
    lemma_native(native, native.len() as int);
}

/// Offline nothing is updated, and that is no failure; where the packages
/// cannot be told, or a command is missing, it is one.
pub proof fn lemma_update_ends_early(
    fs: Seq<EntryModel>,
    places: PlacesModel,
    trusted: bool,
    offline: bool,
    native: Result<Seq<NativeModel>, Seq<char>>,
    pi: Result<(ResourcesModel, bool), Seq<char>>,
)
    ensures
        offline ==> update::update_plan_of(fs, places, trusted, offline, native, pi).code == Some(
            0i32,
        ),
        !offline && (native is Err || pi is Err) ==> update::update_plan_of(
            fs,
            places,
            trusted,
            offline,
            native,
            pi,
        ).code == Some(1i32),
        !offline && native is Ok && (pi matches Ok((resources, _)) && exists|i: int|
            0 <= i < resources.diagnostics.len() && (
            #[trigger] resources.diagnostics[i]).blocks_update) ==> update::update_plan_of(
            fs,
            places,
            trusted,
            offline,
            native,
            pi,
        ).code == Some(1i32),
        !offline && (native matches Ok(n) && n.len() == 0) && (pi matches Ok((resources, _))
            && resources.packages.len() == 0 && resources.diagnostics.len() == 0)
            ==> update::update_plan_of(fs, places, trusted, offline, native, pi).code == Some(0i32),
{
    if let Ok((resources, _)) = pi {
        if exists|i: int|
            0 <= i < resources.diagnostics.len() && (
            #[trigger] resources.diagnostics[i]).blocks_update {
            let i = choose|i: int|
                0 <= i < resources.diagnostics.len() && (
                #[trigger] resources.diagnostics[i]).blocks_update;
            assert(resources.diagnostics[i].blocks_update);
        }
    }
}

/// A repository that is there is updated in its store; one outside of every
/// store is refused; one that is missing is fetched.
pub proof fn lemma_repository_is_updated_in_its_store(
    fs: Seq<EntryModel>,
    places: PlacesModel,
    p: PackageModel,
)
    ensures
        p.missing_install ==> update::git_step(fs, places, p).0 is Run && !update::git_step(
            fs,
            places,
            p,
        ).1,
        !p.missing_install && p.git_store_root is Some ==> update::git_step(fs, places, p) == (
            StepModel::Run(
                JobModel::Git {
                    root: p.root,
                    store_root: p.git_store_root->0,
                    spec: p.spec,
                    name: p.name,
                },
            ),
            false,
        ),
        !p.missing_install && update::safe_store(fs, places, p) is None ==> update::git_step(
            fs,
            places,
            p,
        ).1 && update::git_step(fs, places, p).0 is Say,
{
}

/// The package manager that a project names is taken where the project is
/// trusted; where it is not, or names none, the user's is.
pub proof fn lemma_untrusted_manager_is_not_run<'a>(
    a: UpdateSettings<'a>,
    b: UpdateSettings<'a>,
    trusted: bool,
)
    requires
        a.user == b.user,
    ensures
        package_cli::update_argv(a, false) == package_cli::update_argv(b, false),
        !(b.project matches Ok(Some(_))) ==> package_cli::update_argv(a, false)
            == package_cli::update_argv(b, trusted),
        (a.project matches Ok(Some(settings)) && settings.npm_command is Some)
            ==> package_cli::update_argv(a, true) == Some(
            text::texts((a.project->Ok_0->0).npm_command->0@),
        ),
{
}

} // verus!
