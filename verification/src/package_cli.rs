//! The package commands: what a command line asks for, what it changes, and
//! what an update does in which order.

use vstd::prelude::*;

use crate::discovery;
use crate::discovery::{Lookup, PackageSetting, RecoveryFailure, SettingModel, Settings};
use crate::npm_command;
use crate::npm_command::{CommandModel, NpmCommand, Platform};
use crate::packages;
use crate::packages::{
    DiagnosticModel, LegacyPackage, PackageModel, PackageResources, PackageRoot, ResourcesModel,
};
use crate::paths;
use crate::paths::{EntryModel, FsPath, FsTree, PathModel};
use crate::resources;
use crate::stores::{Places, PlacesModel, ResolveScope};
use crate::text;

verus! {

/// The arguments among the first `n` other than `--offline`.
pub open spec fn online_args(args: Seq<Seq<char>>, n: int) -> Seq<Seq<char>>
    decreases n,
{
    if n <= 0 {
        seq![]
    } else if args[n - 1] == "--offline"@ {
        online_args(args, n - 1)
    } else {
        online_args(args, n - 1).push(args[n - 1])
    }
}

/// The arguments other than `--offline`.
pub fn without_offline_flag(args: &[String]) -> (out: Vec<String>)
    ensures
        text::texts(out@) == online_args(text::texts(args@), args@.len() as int),
{
    let mut out: Vec<String> = Vec::new();
    assert(text::texts(out@) =~= seq![]);
    let mut i: usize = 0;
    while i < args.len()
        invariant
            i <= args@.len(),
            text::texts(out@) == online_args(text::texts(args@), i as int),
        decreases args.len() - i,
    {
        assert(text::texts(args@)[i as int] == args@[i as int]@);
        if !text::same(args[i].as_str(), "--offline") {
            text::push_text(&mut out, args[i].as_str());
        }
        i += 1;
    }
    out
}

/// What an option says of the project's packages; `Err` for an option that
/// is not known.
pub open spec fn trust_option(arg: Seq<char>) -> Result<Option<bool>, Seq<char>> {
    if arg == "--approve"@ || arg == "-a"@ {
        Ok(Some(true))
    } else if arg == "--no-approve"@ || arg == "-na"@ {
        Ok(Some(false))
    } else if arg == "--json"@ {
        Ok(None)
    } else {
        Err("unknown package option `"@ + arg + "`"@)
    }
}

fn read_trust_option(arg: &str) -> (r: Result<Option<bool>, String>)
    ensures
        (match r {
            Ok(v) => Ok(v),
            Err(m) => Err(m@),
        }) == trust_option(arg@),
{
    if text::same(arg, "--approve") || text::same(arg, "-a") {
        Ok(Some(true))
    } else if text::same(arg, "--no-approve") || text::same(arg, "-na") {
        Ok(Some(false))
    } else if text::same(arg, "--json") {
        Ok(None)
    } else {
        Err(text::cat3("unknown package option `", arg, "`"))
    }
}

/// The view of a stored trust decision.
pub open spec fn decision_view(d: Result<Option<bool>, String>) -> Result<Option<bool>, Seq<char>> {
    match d {
        Ok(v) => Ok(v),
        Err(m) => Err(m@),
    }
}

/// Whether the project's packages take part: as the options from the `i`th
/// on say, else as was decided before, else yes.
pub open spec fn trust_from(
    args: Seq<Seq<char>>,
    i: int,
    given: Option<bool>,
    decision: Result<Option<bool>, Seq<char>>,
) -> Result<bool, Seq<char>>
    decreases args.len() - i,
{
    if i < 0 || i >= args.len() {
        match given {
            Some(v) => Ok(v),
            None => match decision {
                Ok(Some(v)) => Ok(v),
                Ok(None) => Ok(true),
                Err(m) => Err(m),
            },
        }
    } else {
        match trust_option(args[i]) {
            Err(m) => Err(m),
            Ok(None) => trust_from(args, i + 1, given, decision),
            Ok(Some(v)) => if given is Some {
                Err("--approve and --no-approve cannot be combined or repeated"@)
            } else {
                trust_from(args, i + 1, Some(v), decision)
            },
        }
    }
}

/// The view of a flag or of a message.
pub open spec fn flag_view(r: Result<bool, String>) -> Result<bool, Seq<char>> {
    match r {
        Ok(v) => Ok(v),
        Err(m) => Err(m@),
    }
}

/// Whether the project's packages take part, as the options say; where they
/// say nothing, as was decided before.
pub fn package_command_project_trusted(
    args: &[String],
    decision: Result<Option<bool>, String>,
) -> (r: Result<bool, String>)
    ensures
        flag_view(r) == trust_from(text::texts(args@), 0, None, decision_view(decision)),
{
    let ghost all = text::texts(args@);
    let ghost decided = decision_view(decision);
    let mut given: Option<bool> = None;
    let mut i: usize = 0;
    while i < args.len()
        invariant
            i <= args@.len(),
            all == text::texts(args@),
            decided == decision_view(decision),
            trust_from(all, 0, None, decided) == trust_from(all, i as int, given, decided),
        decreases args.len() - i,
    {
        assert(all[i as int] == args@[i as int]@);
        match read_trust_option(args[i].as_str()) {
            Ok(Some(v)) => {
                if given.is_some() {
                    return Err(
                        "--approve and --no-approve cannot be combined or repeated".to_owned(),
                    );
                }
                given = Some(v);
            },
            Ok(None) => {},
            Err(m) => {
                return Err(m);
            },
        }
        i += 1;
    }
    match given {
        Some(v) => Ok(v),
        None => match decision {
            Ok(Some(v)) => Ok(v),
            Ok(None) => Ok(true),
            Err(m) => Err(m),
        },
    }
}

/// What a package command line asks for.
pub enum CliRequest {
    List { json: bool, trusted: bool },
    Add { spec: String },
    Remove { spec: String },
    Update { trusted: bool },
    UpdateHelp,
    Help,
    /// The command line is wrong: the message, and whether the help is
    /// shown. The exit code is 2.
    Refuse { message: String, help: bool },
}

/// The model of `CliRequest`.
pub enum RequestModel {
    List { json: bool, trusted: bool },
    Add { spec: Seq<char> },
    Remove { spec: Seq<char> },
    Update { trusted: bool },
    UpdateHelp,
    Help,
    Refuse { message: Seq<char>, help: bool },
}

impl View for CliRequest {
    type V = RequestModel;

    open spec fn view(&self) -> RequestModel {
        match self {
            CliRequest::List { json, trusted } => RequestModel::List {
                json: *json,
                trusted: *trusted,
            },
            CliRequest::Add { spec } => RequestModel::Add { spec: spec@ },
            CliRequest::Remove { spec } => RequestModel::Remove { spec: spec@ },
            CliRequest::Update { trusted } => RequestModel::Update { trusted: *trusted },
            CliRequest::UpdateHelp => RequestModel::UpdateHelp,
            CliRequest::Help => RequestModel::Help,
            CliRequest::Refuse { message, help } => RequestModel::Refuse {
                message: message@,
                help: *help,
            },
        }
    }
}

/// The package that a command names: its first argument, unless that is an
/// option.
pub open spec fn named_spec(args: Seq<Seq<char>>) -> Option<Seq<char>> {
    if args.len() > 1 && !text::first_is(args[1], '-') {
        Some(args[1])
    } else {
        None
    }
}

/// Whether the arguments ask for help.
pub open spec fn asks_help(args: Seq<Seq<char>>) -> bool {
    args.contains("--help"@) || args.contains("-h"@)
}

/// What the arguments, without `--offline`, ask for.
pub open spec fn request_of(
    args: Seq<Seq<char>>,
    decision: Result<Option<bool>, Seq<char>>,
) -> RequestModel {
    let command = args[0];
    let options = args.skip(1);
    if command == "list"@ {
        match trust_from(options, 0, None, decision) {
            Ok(trusted) => RequestModel::List { json: args.contains("--json"@), trusted },
            Err(message) => RequestModel::Refuse { message, help: false },
        }
    } else if command == "add"@ {
        match named_spec(args) {
            Some(spec) => RequestModel::Add { spec },
            None => RequestModel::Refuse {
                message: "missing package path or name"@,
                help: true,
            },
        }
    } else if command == "remove"@ || command == "rm"@ {
        match named_spec(args) {
            Some(spec) => RequestModel::Remove { spec },
            None => RequestModel::Refuse {
                message: "missing package path or name"@,
                help: true,
            },
        }
    } else if command == "update"@ {
        if asks_help(args) {
            RequestModel::UpdateHelp
        } else {
            match trust_from(options, 0, None, decision) {
                Ok(trusted) => RequestModel::Update { trusted },
                Err(message) => RequestModel::Refuse { message, help: false },
            }
        }
    } else if command == "help"@ || command == "--help"@ || command == "-h"@ {
        RequestModel::Help
    } else {
        RequestModel::Refuse {
            message: "unknown package command `"@ + command + "`"@,
            help: true,
        }
    }
}

fn get_named_spec(args: &Vec<String>) -> (r: Option<String>)
    ensures
        text::opt_text(r) == named_spec(text::texts(args@)),
{
    assert(text::texts(args@).len() == args@.len());
    if args.len() > 1 {
        assert(text::texts(args@)[1] == args@[1]@);
        if !text::starts_with_char(args[1].as_str(), '-') {
            return Some(args[1].clone());
        }
    }
    None
}

fn tail_of(args: &Vec<String>) -> (out: Vec<String>)
    requires
        args@.len() > 0,
    ensures
        text::texts(out@) == text::texts(args@).skip(1),
{
    let mut out: Vec<String> = Vec::new();
    let mut i: usize = 1;
    while i < args.len()
        invariant
            1 <= i <= args@.len(),
            text::texts(out@) =~= text::texts(args@).subrange(1, i as int),
        decreases args.len() - i,
    {
        text::push_text(&mut out, args[i].as_str());
        i += 1;
    }
    assert(text::texts(out@) =~= text::texts(args@).skip(1));
    out
}

fn wants_help(args: &Vec<String>) -> (r: bool)
    ensures
        r == asks_help(text::texts(args@)),
{
    text::listed(args.as_slice(), "--help") || text::listed(args.as_slice(), "-h")
}

/// What the arguments of `rpi package` ask for. `decision` is the trust
/// decision on record for the project.
pub fn run_cli(args: &[String], decision: Result<Option<bool>, String>) -> (r: CliRequest)
    requires
        online_args(text::texts(args@), args@.len() as int).len() > 0,
    ensures
        r@ == request_of(
            online_args(text::texts(args@), args@.len() as int),
            decision_view(decision),
        ),
{
    let args = without_offline_flag(args);
    assert(text::texts(args@).len() == args@.len());
    assert(text::texts(args@)[0] == args@[0]@);
    let command = args[0].as_str();
    if text::same(command, "list") {
        let options = tail_of(&args);
        match package_command_project_trusted(options.as_slice(), decision) {
            Ok(trusted) => CliRequest::List {
                json: text::listed(args.as_slice(), "--json"),
                trusted,
            },
            Err(message) => CliRequest::Refuse { message, help: false },
        }
    } else if text::same(command, "add") {
        match get_named_spec(&args) {
            Some(spec) => CliRequest::Add { spec },
            None => CliRequest::Refuse {
                message: "missing package path or name".to_owned(),
                help: true,
            },
        }
    } else if text::same(command, "remove") || text::same(command, "rm") {
        match get_named_spec(&args) {
            Some(spec) => CliRequest::Remove { spec },
            None => CliRequest::Refuse {
                message: "missing package path or name".to_owned(),
                help: true,
            },
        }
    } else if text::same(command, "update") {
        if wants_help(&args) {
            return CliRequest::UpdateHelp;
        }
        let options = tail_of(&args);
        match package_command_project_trusted(options.as_slice(), decision) {
            Ok(trusted) => CliRequest::Update { trusted },
            Err(message) => CliRequest::Refuse { message, help: false },
        }
    } else if text::same(command, "help") || text::same(command, "--help") || text::same(
        command,
        "-h",
    ) {
        CliRequest::Help
    } else {
        CliRequest::Refuse {
            message: text::cat3("unknown package command `", command, "`"),
            help: true,
        }
    }
}

/// Which packages an update is for.
#[derive(Debug, Clone, Copy, PartialEq, Eq, Structural)]
pub enum UpdateScope {
    Native,
    Pi,
}

/// What a top-level update command asks for.
pub enum UpdateRequest {
    Help,
    /// The command line is wrong; the exit code is 2.
    Refuse { message: String },
    Run { trusted: bool },
}

/// The model of `UpdateRequest`.
pub enum UpdateRequestModel {
    Help,
    Refuse { message: Seq<char> },
    Run { trusted: bool },
}

impl View for UpdateRequest {
    type V = UpdateRequestModel;

    open spec fn view(&self) -> UpdateRequestModel {
        match self {
            UpdateRequest::Help => UpdateRequestModel::Help,
            UpdateRequest::Refuse { message } => UpdateRequestModel::Refuse { message: message@ },
            UpdateRequest::Run { trusted } => UpdateRequestModel::Run { trusted: *trusted },
        }
    }
}

/// What the arguments of a top-level update, without `--offline`, ask for. A
/// native update takes no options; it never reads the project.
pub open spec fn update_request_of(
    args: Seq<Seq<char>>,
    scope: UpdateScope,
    decision: Result<Option<bool>, Seq<char>>,
) -> UpdateRequestModel {
    if asks_help(args) {
        UpdateRequestModel::Help
    } else if scope == UpdateScope::Pi {
        match trust_from(args, 0, None, decision) {
            Ok(trusted) => UpdateRequestModel::Run { trusted },
            Err(message) => UpdateRequestModel::Refuse { message },
        }
    } else if args.len() > 0 {
        UpdateRequestModel::Refuse {
            message: "unknown native update option `"@ + args[0] + "`"@,
        }
    } else {
        UpdateRequestModel::Run { trusted: false }
    }
}

fn run_top_level_update(
    args: &[String],
    scope: UpdateScope,
    decision: Result<Option<bool>, String>,
) -> (r: UpdateRequest)
    ensures
        r@ == update_request_of(
            online_args(text::texts(args@), args@.len() as int),
            scope,
            decision_view(decision),
        ),
{
    let args = without_offline_flag(args);
    assert(text::texts(args@).len() == args@.len());
    if wants_help(&args) {
        return UpdateRequest::Help;
    }
    if scope == UpdateScope::Pi {
        match package_command_project_trusted(args.as_slice(), decision) {
            Ok(trusted) => UpdateRequest::Run { trusted },
            Err(message) => UpdateRequest::Refuse { message },
        }
    } else if args.len() > 0 {
        assert(text::texts(args@)[0] == args@[0]@);
        UpdateRequest::Refuse {
            message: text::cat3("unknown native update option `", args[0].as_str(), "`"),
        }
    } else {
        UpdateRequest::Run { trusted: false }
    }
}

/// What the arguments of an update of the native packages ask for.
pub fn run_native_update(args: &[String]) -> (r: UpdateRequest)
    ensures
        r@ == update_request_of(
            online_args(text::texts(args@), args@.len() as int),
            UpdateScope::Native,
            Ok(None),
        ),
{
    run_top_level_update(args, UpdateScope::Native, Ok(None))
}

/// The arguments without the `update` that may stand first.
pub open spec fn after_update_word(args: Seq<Seq<char>>) -> Seq<Seq<char>> {
    if args.len() > 0 && args[0] == "update"@ {
        args.skip(1)
    } else {
        args
    }
}

/// What the arguments of `rpi pi-package` ask for: an update of the
/// configured npm and git packages.
pub fn run_pi_package_update(args: &[String], decision: Result<Option<bool>, String>) -> (r:
    UpdateRequest)
    ensures
        r@ == ({
            let options = after_update_word(text::texts(args@));
            update_request_of(
                online_args(options, options.len() as int),
                UpdateScope::Pi,
                decision_view(decision),
            )
        }),
{
    let copy = text::clone_all(args);
    assert(text::texts(copy@).len() == copy@.len());
    if copy.len() > 0 {
        assert(text::texts(args@)[0] == copy@[0]@);
        if text::same(copy[0].as_str(), "update") {
            let options = tail_of(&copy);
            assert(text::texts(options@).len() == options@.len());
            return run_top_level_update(options.as_slice(), UpdateScope::Pi, decision);
        }
    }
    run_top_level_update(args, UpdateScope::Pi, decision)
}

/// A list of entries with one for `spec`, and whether that is new.
pub open spec fn enabled(entries: Option<Seq<SettingModel>>, spec: Seq<char>) -> (
    Option<Seq<SettingModel>>,
    bool,
) {
    let list = match entries {
        Some(list) => list,
        None => seq![],
    };
    if names_source(list, spec) {
        (Some(list), false)
    } else {
        (Some(list.push(SettingModel { source: spec, filter: None })), true)
    }
}

/// Whether some entry has the source `spec`.
pub open spec fn names_source(list: Seq<SettingModel>, spec: Seq<char>) -> bool {
    exists|i: int| 0 <= i < list.len() && (#[trigger] list[i]).source == spec
}

/// The entries among the first `n` with another source than `spec`.
pub open spec fn other_entries(list: Seq<SettingModel>, n: int, spec: Seq<char>) -> Seq<SettingModel>
    decreases n,
{
    if n <= 0 {
        seq![]
    } else if list[n - 1].source == spec {
        other_entries(list, n - 1, spec)
    } else {
        other_entries(list, n - 1, spec).push(list[n - 1])
    }
}

/// A list of entries without those for `spec`, and whether there were any. A
/// list that becomes empty is taken out.
pub open spec fn disabled(entries: Option<Seq<SettingModel>>, spec: Seq<char>) -> (
    Option<Seq<SettingModel>>,
    bool,
) {
    match entries {
        None => (None, false),
        Some(list) => {
            let rest = other_entries(list, list.len() as int, spec);
            if rest.len() == list.len() {
                (Some(list), false)
            } else if rest.len() == 0 {
                (None, true)
            } else {
                (Some(rest), true)
            }
        },
    }
}

/// The view of the entries of a settings file.
pub open spec fn list_view(s: Settings) -> Option<Seq<SettingModel>> {
    match s.packages {
        Some(v) => Some(discovery::setting_views(v@)),
        None => None,
    }
}

fn has_source(list: &Vec<PackageSetting>, spec: &str) -> (r: bool)
    ensures
        r == names_source(discovery::setting_views(list@), spec@),
{
    let mut i: usize = 0;
    while i < list.len()
        invariant
            i <= list@.len(),
            forall|j: int|
                0 <= j < i ==> (#[trigger] discovery::setting_views(list@)[j]).source != spec@,
        decreases list.len() - i,
    {
        assert(discovery::setting_views(list@)[i as int] == list@[i as int]@);
        if text::same(list[i].source(), spec) {
            return true;
        }
        i += 1;
    }
    false
}

/// Enables the package `spec` in a settings file, and says whether that
/// changes it.
pub fn enable_package(settings: &mut Settings, spec: &str) -> (changed: bool)
    ensures
        (list_view(*final(settings)), changed) == enabled(list_view(*old(settings)), spec@),
        final(settings).npm_command == old(settings).npm_command,
{
    let mut list: Vec<PackageSetting> = match settings.packages.take() {
        Some(list) => list,
        None => {
            let none: Vec<PackageSetting> = Vec::new();
            assert(discovery::setting_views(none@) =~= seq![]);
            none
        },
    };
    let ghost before = discovery::setting_views(list@);
    if has_source(&list, spec) {
        settings.packages = Some(list);
        return false;
    }
    let entry = PackageSetting::Source(spec.to_owned());
    let ghost added = entry@;
    list.push(entry);
    assert(discovery::setting_views(list@) =~= before.push(added));
    settings.packages = Some(list);
    true
}

/// Disables the package `spec` in a settings file, and says whether that
/// changes it.
pub fn disable_package(settings: &mut Settings, spec: &str) -> (changed: bool)
    ensures
        (list_view(*final(settings)), changed) == disabled(list_view(*old(settings)), spec@),
        final(settings).npm_command == old(settings).npm_command,
{
    let list = match settings.packages.take() {
        Some(list) => list,
        None => {
            return false;
        },
    };
    let ghost all = discovery::setting_views(list@);
    let mut rest: Vec<PackageSetting> = Vec::new();
    assert(discovery::setting_views(rest@) =~= seq![]);
    let mut i: usize = 0;
    while i < list.len()
        invariant
            i <= list@.len(),
            all == discovery::setting_views(list@),
            discovery::setting_views(rest@) == other_entries(all, i as int, spec@),
        decreases list.len() - i,
    {
        assert(all[i as int] == list@[i as int]@);
        if !text::same(list[i].source(), spec) {
            let copy = list[i].copy();
            let ghost before = discovery::setting_views(rest@);
            let ghost added = copy@;
            rest.push(copy);
            assert(discovery::setting_views(rest@) =~= before.push(added));
        }
        i += 1;
    }
    assert(discovery::setting_views(rest@).len() == rest@.len());
    assert(all.len() == list@.len());
    if rest.len() == list.len() {
        settings.packages = Some(list);
        false
    } else {
        if rest.len() == 0 {
            settings.packages = None;
        } else {
            settings.packages = Some(rest);
        }
        true
    }
}

proof fn lemma_others_of_none(list: Seq<SettingModel>, n: int, spec: Seq<char>)
    requires
        0 <= n <= list.len(),
        !names_source(list, spec),
    ensures
        other_entries(list, n, spec) == list.take(n),
    decreases n,
{
    if n > 0 {
        lemma_others_of_none(list, n - 1, spec);
        assert(list.take(n) =~= list.take(n - 1).push(list[n - 1]));
    } else {
        assert(list.take(0) =~= seq![]);
    }
}

proof fn lemma_others_prefix(a: Seq<SettingModel>, b: Seq<SettingModel>, n: int, spec: Seq<char>)
    requires
        0 <= n <= a.len(),
        n <= b.len(),
        a.take(n) == b.take(n),
    ensures
        other_entries(a, n, spec) == other_entries(b, n, spec),
    decreases n,
{
    if n > 0 {
        assert(a.take(n)[n - 1] == b.take(n)[n - 1]);
        assert(a.take(n - 1) =~= a.take(n).take(n - 1));
        assert(b.take(n - 1) =~= b.take(n).take(n - 1));
        lemma_others_prefix(a, b, n - 1, spec);
    }
}

/// Enabling a package twice is enabling it once, and what was enabled
/// before stays as it was.
pub proof fn lemma_enable_is_idempotent(entries: Option<Seq<SettingModel>>, spec: Seq<char>)
    ensures
        enabled(enabled(entries, spec).0, spec) == (enabled(entries, spec).0, false),
        entries matches Some(list) ==> enabled(entries, spec).0 matches Some(more) && more.take(
            list.len() as int,
        ) == list,
{
    let list = match entries {
        Some(list) => list,
        None => seq![],
    };
    let more = enabled(entries, spec).0->0;
    if !names_source(list, spec) {
        assert(more[list.len() as int].source == spec);
        assert(more.take(list.len() as int) =~= list);
    } else {
        assert(list.take(list.len() as int) =~= list);
    }
}

/// Disabling takes back what enabling added: the entries are those from
/// before. A list that was empty is then taken out.
pub proof fn lemma_disable_undoes_enable(entries: Option<Seq<SettingModel>>, spec: Seq<char>)
    requires
        entries matches Some(list) ==> !names_source(list, spec),
    ensures
        disabled(enabled(entries, spec).0, spec).1,
        disabled(enabled(entries, spec).0, spec).0 == (match entries {
            Some(list) => if list.len() == 0 {
                None
            } else {
                Some(list)
            },
            None => None,
        }),
{
    let list = match entries {
        Some(list) => list,
        None => seq![],
    };
    let more = enabled(entries, spec).0->0;
    let n = list.len() as int;
    lemma_others_of_none(list, n, spec);
    assert(list.take(n) =~= list);
    assert(more.take(n) =~= list);
    lemma_others_prefix(more, list, n, spec);
    assert(more[n].source == spec);
    assert(other_entries(more, n + 1, spec) == list);
}

/// A line that a command prints.
pub struct Line {
    /// Whether the line goes to the error stream.
    pub error: bool,
    pub text: String,
}

/// The model of `Line`.
#[verifier::ext_equal]
pub struct LineModel {
    pub error: bool,
    pub text: Seq<char>,
}

impl View for Line {
    type V = LineModel;

    open spec fn view(&self) -> LineModel {
        LineModel { error: self.error, text: self.text@ }
    }
}

/// The views of a list of lines.
pub open spec fn line_views(v: Seq<Line>) -> Seq<LineModel> {
    Seq::new(v.len(), |i: int| v[i]@)
}

/// A line to the output.
pub open spec fn said(text: Seq<char>) -> LineModel {
    LineModel { error: false, text }
}

/// A line to the error stream.
pub open spec fn warned(text: Seq<char>) -> LineModel {
    LineModel { error: true, text }
}

pub(crate) fn push_line(out: &mut Vec<Line>, error: bool, text: String)
    ensures
        line_views(final(out)@) == line_views(old(out)@).push(LineModel { error, text: text@ }),
{
    let line = Line { error, text };
    let ghost added = line@;
    out.push(line);
    assert(line_views(out@) =~= line_views(old(out)@).push(added));
}

/// What `add` and `remove` do to the user's settings.
pub enum Edit {
    /// Nothing is written: the line to print, and the exit code.
    Done { line: Line, code: i32 },
    /// The settings to write, and the line to print once they are.
    Save { settings: Settings, line: Line },
}

/// The model of `Edit`.
pub enum EditModel {
    Done { line: LineModel, code: i32 },
    Save { packages: Option<Seq<SettingModel>>, line: LineModel },
}

impl View for Edit {
    type V = EditModel;

    open spec fn view(&self) -> EditModel {
        match self {
            Edit::Done { line, code } => EditModel::Done { line: line@, code: *code },
            Edit::Save { settings, line } => EditModel::Save {
                packages: list_view(*settings),
                line: line@,
            },
        }
    }
}

/// Whether an edit writes back the command of the settings as it was.
pub open spec fn keeps_command(r: Edit, settings: Result<Settings, String>) -> bool {
    r matches Edit::Save { settings: changed, .. } ==> settings matches Ok(given)
        && changed.npm_command == given.npm_command
}

/// The view of the user's settings.
pub open spec fn list_result(s: Result<Settings, String>) -> Result<
    Option<Seq<SettingModel>>,
    Seq<char>,
> {
    match s {
        Ok(settings) => Ok(list_view(settings)),
        Err(m) => Err(m@),
    }
}

/// Settings that cannot be read are not written.
pub open spec fn unreadable(error: Seq<char>) -> EditModel {
    EditModel::Done {
        line: warned("error: refusing to change unreadable package settings: "@ + error),
        code: 1,
    }
}

/// What adding the package `spec` does: `problem` is why it cannot be
/// resolved.
pub open spec fn added(
    spec: Seq<char>,
    problem: Option<Seq<char>>,
    settings: Result<Option<Seq<SettingModel>>, Seq<char>>,
) -> EditModel {
    match problem {
        Some(error) => EditModel::Done { line: warned("error: "@ + error), code: 1 },
        None => match settings {
            Err(error) => unreadable(error),
            Ok(entries) => if enabled(entries, spec).1 {
                EditModel::Save {
                    packages: enabled(entries, spec).0,
                    line: said("enabled Pi package "@ + spec),
                }
            } else {
                EditModel::Done {
                    line: said("Pi package already enabled: "@ + spec),
                    code: 0,
                }
            },
        },
    }
}

/// What removing the package `spec` does.
pub open spec fn removed(
    spec: Seq<char>,
    settings: Result<Option<Seq<SettingModel>>, Seq<char>>,
) -> EditModel {
    match settings {
        Err(error) => unreadable(error),
        Ok(entries) => if disabled(entries, spec).1 {
            EditModel::Save {
                packages: disabled(entries, spec).0,
                line: said("disabled Pi package "@ + spec),
            }
        } else {
            EditModel::Done { line: said("Pi package is not enabled: "@ + spec), code: 0 }
        },
    }
}

fn refuse_unreadable(error: &str) -> (r: Edit)
    ensures
        r@ == unreadable(error@),
        r is Done,
{
    let text = text::cat("error: refusing to change unreadable package settings: ", error);
    Edit::Done { line: Line { error: true, text }, code: 1 }
}

/// What adding the package `spec` does. `problem` is why it cannot be
/// resolved, and `settings` are the user's, or why they cannot be read.
pub fn add_package(
    spec: &str,
    problem: &Option<String>,
    settings: Result<Settings, String>,
) -> (r: Edit)
    ensures
        r@ == added(spec@, text::opt_text(*problem), list_result(settings)),
        keeps_command(r, settings),
{
    match problem {
        Some(error) => {
            let text = text::cat("error: ", error.as_str());
            return Edit::Done { line: Line { error: true, text }, code: 1 };
        },
        None => {},
    }
    match settings {
        Err(error) => refuse_unreadable(error.as_str()),
        Ok(settings) => {
            let mut settings = settings;
            if enable_package(&mut settings, spec) {
                let text = text::cat("enabled Pi package ", spec);
                Edit::Save { settings, line: Line { error: false, text } }
            } else {
                let text = text::cat("Pi package already enabled: ", spec);
                Edit::Done { line: Line { error: false, text }, code: 0 }
            }
        },
    }
}

/// What removing the package `spec` does. `settings` are the user's, or why
/// they cannot be read.
pub fn remove_package(spec: &str, settings: Result<Settings, String>) -> (r: Edit)
    ensures
        r@ == removed(spec@, list_result(settings)),
        keeps_command(r, settings),
{
    match settings {
        Err(error) => refuse_unreadable(error.as_str()),
        Ok(settings) => {
            let mut settings = settings;
            if disable_package(&mut settings, spec) {
                let text = text::cat("disabled Pi package ", spec);
                Edit::Save { settings, line: Line { error: false, text } }
            } else {
                let text = text::cat("Pi package is not enabled: ", spec);
                Edit::Done { line: Line { error: false, text }, code: 0 }
            }
        },
    }
}

/// What is printed once settings were written, or could not be, and the exit
/// code.
pub fn report_saved(line: Line, problem: &Option<String>) -> (r: (Line, i32))
    ensures
        (r.0@, r.1) == (match *problem {
            None => (line@, 0i32),
            Some(error) => (warned("error: could not save package settings: "@ + error@), 1i32),
        }),
{
    match problem {
        None => (line, 0),
        Some(error) => {
            let text = text::cat("error: could not save package settings: ", error.as_str());
            (Line { error: true, text }, 1)
        },
    }
}

/// An installed native package.
pub struct NativePackage {
    pub name: String,
    pub version: String,
    pub source: Option<String>,
}

/// The model of `NativePackage`.
#[verifier::ext_equal]
pub struct NativeModel {
    pub name: Seq<char>,
    pub version: Seq<char>,
    pub source: Option<Seq<char>>,
}

impl View for NativePackage {
    type V = NativeModel;

    open spec fn view(&self) -> NativeModel {
        NativeModel {
            name: self.name@,
            version: self.version@,
            source: text::opt_text(self.source),
        }
    }
}

/// The views of a list of native packages.
pub open spec fn native_views(v: Seq<NativePackage>) -> Seq<NativeModel> {
    Seq::new(v.len(), |i: int| v[i]@)
}

/// How a package is listed.
pub open spec fn package_line(p: PackageModel) -> LineModel {
    let version = match p.version {
        Some(v) => v,
        None => "-"@,
    };
    said(p.name + "@"@ + version + " "@ + paths::path_text(p.root))
}

/// How a native package is listed.
pub open spec fn native_line(p: NativeModel) -> LineModel {
    let source = match p.source {
        Some(s) => s,
        None => "crates.io"@,
    };
    said(p.name + "@"@ + p.version + " [rust] "@ + source)
}

/// How a diagnostic is shown after a list.
pub open spec fn diagnostic_line(d: DiagnosticModel) -> LineModel {
    warned("warning: package "@ + d.spec + ": "@ + d.message)
}

/// The lines of a list of packages.
pub open spec fn list_lines_of(r: ResourcesModel, native: Seq<NativeModel>) -> Seq<LineModel> {
    let body = if r.packages.len() == 0 && native.len() == 0 {
        seq![said("no Pi packages enabled"@)]
    } else {
        Seq::new(r.packages.len(), |i: int| package_line(r.packages[i])) + Seq::new(
            native.len(),
            |i: int| native_line(native[i]),
        )
    };
    body + diagnostic_lines(r.diagnostics)
}

/// The lines of the diagnostics after a list.
pub open spec fn diagnostic_lines(list: Seq<DiagnosticModel>) -> Seq<LineModel> {
    Seq::new(list.len(), |i: int| diagnostic_line(list[i]))
}

/// Adds the lines of the diagnostics.
pub(crate) fn push_diagnostics(out: &mut Vec<Line>, r: &PackageResources)
    ensures
        line_views(final(out)@) == line_views(old(out)@) + diagnostic_lines(r@.diagnostics),
{
    let ghost body = line_views(out@);
    let ghost third = diagnostic_lines(r@.diagnostics);
    assert(r@.diagnostics.len() == r.diagnostics@.len());
    let mut j: usize = 0;
    while j < r.diagnostics.len()
        invariant
            j <= r.diagnostics@.len(),
            third == diagnostic_lines(r@.diagnostics),
            line_views(out@) =~= body + third.take(j as int),
        decreases r.diagnostics.len() - j,
    {
        let d = &r.diagnostics[j];
        assert(r@.diagnostics[j as int] == d@);
        push_line(
            out,
            true,
            text::cat4("warning: package ", d.spec.as_str(), ": ", d.message.as_str()),
        );
        assert(line_views(out@).last() == diagnostic_line(d@));
        j += 1;
    }
    assert(third.take(j as int) =~= third);
}

/// The lines of a list of packages.
pub fn list_lines(r: &PackageResources, native: &[NativePackage]) -> (out: Vec<Line>)
    ensures
        line_views(out@) == list_lines_of(r@, native_views(native@)),
{
    let mut out: Vec<Line> = Vec::new();
    assert(line_views(out@) =~= seq![]);
    assert(r@.packages.len() == r.packages@.len());
    assert(r@.diagnostics.len() == r.diagnostics@.len());
    let ghost mut body: Seq<LineModel> = seq![said("no Pi packages enabled"@)];
    if r.packages.len() == 0 && native.len() == 0 {
        push_line(&mut out, false, "no Pi packages enabled".to_owned());
        assert(line_views(out@) =~= body);
    } else {
        let ghost first = Seq::new(
            r@.packages.len(),
            |i: int| package_line(r@.packages[i]),
        );
        let mut i: usize = 0;
        while i < r.packages.len()
            invariant
                i <= r.packages@.len(),
                first == Seq::new(r@.packages.len(), |i: int| package_line(r@.packages[i])),
                line_views(out@) =~= first.take(i as int),
            decreases r.packages.len() - i,
        {
            let p = &r.packages[i];
            assert(r@.packages[i as int] == p@);
            let version = match &p.version {
                Some(v) => v.as_str(),
                None => "-",
            };
            let root = p.root.to_text();
            push_line(
                &mut out,
                false,
                text::cat5(p.name.as_str(), "@", version, " ", root.as_str()),
            );
            assert(line_views(out@).last() == package_line(p@));
            i += 1;
        }
        assert(first.take(i as int) =~= first);
        let ghost second = Seq::new(native@.len(), |i: int| native_line(native_views(native@)[i]));
        let mut k: usize = 0;
        while k < native.len()
            invariant
                k <= native@.len(),
                second == Seq::new(
                    native@.len(),
                    |i: int| native_line(native_views(native@)[i]),
                ),
                line_views(out@) =~= first + second.take(k as int),
            decreases native.len() - k,
        {
            let p = &native[k];
            assert(native_views(native@)[k as int] == p@);
            let source = match &p.source {
                Some(s) => s.as_str(),
                None => "crates.io",
            };
            push_line(
                &mut out,
                false,
                text::cat5(p.name.as_str(), "@", p.version.as_str(), " [rust] ", source),
            );
            assert(line_views(out@).last() == native_line(p@));
            k += 1;
        }
        proof {
            assert(second.take(k as int) =~= second);
            body = first + second;
        }
    }
    push_diagnostics(&mut out, r);
    assert(line_views(out@) =~= list_lines_of(r@, native_views(native@)));
    out
}

/// The names among the first `n` that are theme files of the directory.
pub open spec fn theme_files_in(
    fs: Seq<EntryModel>,
    dir: PathModel,
    names: Seq<Seq<char>>,
    n: int,
) -> Seq<PathModel>
    decreases n,
{
    if n <= 0 {
        seq![]
    } else {
        let rest = theme_files_in(fs, dir, names, n - 1);
        let p = paths::below(dir, names[n - 1]);
        if paths::file_at(fs, p) && resources::resource_file(
            p,
            resources::FilterResourceKind::Themes,
        ) {
            paths::with_path(rest, p)
        } else {
            rest
        }
    }
}

/// The themes of a package as they are listed: the files of a single
/// directory, else the themes themselves.
pub open spec fn shown_themes(fs: Seq<EntryModel>, themes: Seq<PathModel>) -> Seq<PathModel> {
    if themes.len() == 1 && paths::dir_at(fs, themes[0]) {
        theme_files_in(
            fs,
            themes[0],
            paths::children_at(fs, themes[0]),
            paths::children_at(fs, themes[0]).len() as int,
        )
    } else {
        themes
    }
}

/// The themes of a package as they are listed.
pub fn theme_files_for_display(fs: &FsTree, p: &PackageRoot) -> (out: Vec<FsPath>)
    ensures
        paths::path_views(out@) == shown_themes(fs@, p@.themes),
{
    assert(p@.themes.len() == p.themes@.len());
    if p.themes.len() == 1 {
        assert(p@.themes[0] == p.themes@[0]@);
        let dir = &p.themes[0];
        if fs.is_dir(dir) {
            let names = fs.read_dir(dir);
            let ghost all = text::texts(names@);
            let mut out: Vec<FsPath> = Vec::new();
            assert(paths::path_views(out@) =~= seq![]);
            let mut i: usize = 0;
            while i < names.len()
                invariant
                    i <= names@.len(),
                    all == text::texts(names@),
                    paths::path_views(out@) == theme_files_in(fs@, dir@, all, i as int),
                decreases names.len() - i,
            {
                assert(all[i as int] == names@[i as int]@);
                let file = dir.below(names[i].as_str());
                if fs.is_file(&file) && resources::valid_resource_file(
                    &file,
                    resources::FilterResourceKind::Themes,
                ) {
                    paths::insert_path(&mut out, file);
                }
                i += 1;
            }
            assert(all.len() == names@.len());
            return out;
        }
    }
    paths::copy_paths(p.themes.as_slice())
}

/// The settings that an update reads.
pub struct UpdateSettings<'a> {
    /// The active settings of the project, where it has any.
    pub project: Result<Option<&'a Settings>, String>,
    pub user: Result<&'a Settings, String>,
}

/// The project's active settings, where it is trusted and has any.
pub open spec fn active_project<'a>(s: UpdateSettings<'a>, trusted: bool) -> Option<Settings> {
    match s.project {
        Ok(Some(settings)) => if trusted {
            Some(*settings)
        } else {
            None
        },
        _ => None,
    }
}

/// The entries of the project's active settings.
pub open spec fn active_entries<'a>(s: UpdateSettings<'a>, trusted: bool) -> Seq<SettingModel> {
    match active_project(s, trusted) {
        Some(settings) => discovery::entries_of(settings),
        None => seq![],
    }
}

/// The command that the settings of an update configure.
pub open spec fn update_argv<'a>(s: UpdateSettings<'a>, trusted: bool) -> Option<Seq<Seq<char>>> {
    match active_project(s, trusted) {
        Some(settings) => match settings.npm_command {
            Some(v) => Some(text::texts(v@)),
            None => user_argv(s),
        },
        None => user_argv(s),
    }
}

/// The command that the user's settings configure.
pub open spec fn user_argv<'a>(s: UpdateSettings<'a>) -> Option<Seq<Seq<char>>> {
    match s.user {
        Ok(settings) => match settings.npm_command {
            Some(v) => Some(text::texts(v@)),
            None => None,
        },
        Err(_) => None,
    }
}

/// How an update looks for packages.
pub open spec fn update_lookup(
    fs: Seq<EntryModel>,
    places: PlacesModel,
    scope: ResolveScope,
    failures: Seq<(PathModel, Seq<char>)>,
    legacy: Seq<(Seq<char>, PathModel)>,
) -> discovery::LookupModel {
    discovery::LookupModel {
        fs,
        places,
        scope,
        recover: true,
        recovery_failures: failures,
        legacy,
    }
}

/// The packages of both scopes, one after the other: an update brings both
/// installations of a package up to date.
pub open spec fn both_scopes(a: ResourcesModel, b: ResourcesModel) -> ResourcesModel {
    ResourcesModel {
        packages: a.packages + b.packages,
        diagnostics: a.diagnostics + b.diagnostics,
    }
}

/// The command of an update, where packages are configured at all; or why
/// the settings cannot be used.
pub open spec fn update_command_of<'a>(s: UpdateSettings<'a>, trusted: bool, platform: Platform) -> Result<
    Option<CommandModel>,
    Seq<char>,
> {
    if trusted && s.project is Err {
        Err("could not load project package settings: "@ + s.project->Err_0@)
    } else if s.user is Err {
        Err("could not load global package settings: "@ + s.user->Err_0@)
    } else if active_entries(s, trusted).len() == 0 && discovery::entries_of(
        *s.user->Ok_0,
    ).len() == 0 {
        Ok(None)
    } else {
        match npm_command::command_of(platform, update_argv(s, trusted)) {
            Ok(command) => Ok(Some(command)),
            Err(m) => Err("invalid npmCommand in active package settings: "@ + m),
        }
    }
}

/// The command of an update, where packages are configured at all; or why
/// the settings cannot be used. Every settings file is read before anything
/// is changed.
pub fn update_command(s: &UpdateSettings, project_trusted: bool, platform: Platform) -> (r: Result<
    Option<NpmCommand>,
    String,
>)
    ensures
        (match r {
            Ok(Some(c)) => Ok(Some(c@)),
            Ok(None) => Ok(None),
            Err(m) => Err(m@),
        }) == update_command_of(*s, project_trusted, platform),
{
    let mut project: Option<&Settings> = None;
    if project_trusted {
        match &s.project {
            Ok(active) => {
                project = *active;
            },
            Err(m) => {
                return Err(text::cat("could not load project package settings: ", m.as_str()));
            },
        }
    }
    let user: &Settings = match &s.user {
        Ok(user) => *user,
        Err(m) => {
            return Err(text::cat("could not load global package settings: ", m.as_str()));
        },
    };
    let project_empty = match project {
        Some(settings) => match &settings.packages {
            Some(v) => {
                assert(discovery::setting_views(v@).len() == v@.len());
                v.len() == 0
            },
            None => true,
        },
        None => true,
    };
    let user_empty = match &user.packages {
        Some(v) => {
            assert(discovery::setting_views(v@).len() == v@.len());
            v.len() == 0
        },
        None => true,
    };
    if project_empty && user_empty {
        return Ok(None);
    }
    let own: Option<&[String]> = match project {
        Some(settings) => match &settings.npm_command {
            Some(v) => Some(v.as_slice()),
            None => None,
        },
        None => None,
    };
    let argv: Option<&[String]> = match own {
        Some(v) => Some(v),
        None => match &user.npm_command {
            Some(v) => Some(v.as_slice()),
            None => None,
        },
    };
    match NpmCommand::from_argv_on(platform, argv) {
        Ok(command) => Ok(Some(command)),
        Err(m) => Err(text::cat("invalid npmCommand in active package settings: ", m.as_str())),
    }
}

/// The packages that an update of the configured packages concerns.
pub open spec fn update_packages_of<'a>(
    s: UpdateSettings<'a>,
    trusted: bool,
    fs: Seq<EntryModel>,
    places: PlacesModel,
    failures: Seq<(PathModel, Seq<char>)>,
    legacy: Seq<(Seq<char>, PathModel)>,
) -> ResourcesModel {
    both_scopes(
        discovery::discovered(
            update_lookup(fs, places, ResolveScope::Project, failures, legacy),
            active_entries(s, trusted),
        ),
        discovery::discovered(
            update_lookup(fs, places, ResolveScope::User, failures, legacy),
            discovery::entries_of(*s.user->Ok_0),
        ),
    )
}

fn copy_entries(s: Option<&Settings>) -> (out: Vec<PackageSetting>)
    ensures
        discovery::setting_views(out@) == (match s {
            Some(settings) => discovery::entries_of(*settings),
            None => seq![],
        }),
{
    let mut out: Vec<PackageSetting> = Vec::new();
    assert(discovery::setting_views(out@) =~= seq![]);
    match s {
        Some(settings) => {
            discovery::push_entries(&mut out, settings);
            assert(discovery::setting_views(out@) =~= discovery::entries_of(*settings));
        },
        None => {},
    }
    out
}

/// The packages that an update of the configured packages concerns.
pub fn discover_from_settings_for_update(
    s: &UpdateSettings,
    project_trusted: bool,
    fs: &FsTree,
    places: &Places,
    recovery_failures: &[RecoveryFailure],
    legacy: &[LegacyPackage],
) -> (out: PackageResources)
    requires
        s.user is Ok,
    ensures
        out@ == update_packages_of(
            *s,
            project_trusted,
            fs@,
            places@,
            discovery::recovery_views(recovery_failures@),
            packages::legacy_views(legacy@),
        ),
{
    let mut project: Option<&Settings> = None;
    if project_trusted {
        match &s.project {
            Ok(active) => {
                project = *active;
            },
            Err(_) => {},
        }
    }
    let project_specs = copy_entries(project);
    let user_specs = match &s.user {
        Ok(user) => copy_entries(Some(*user)),
        Err(_) => copy_entries(None),
    };
    let project_lookup = Lookup {
        fs,
        places,
        scope: ResolveScope::Project,
        recover: true,
        recovery_failures,
        legacy,
    };
    let user_lookup = Lookup {
        fs,
        places,
        scope: ResolveScope::User,
        recover: true,
        recovery_failures,
        legacy,
    };
    let mut a = discovery::discover_with_scope_and_command(&project_lookup, &project_specs);
    let mut b = discovery::discover_with_scope_and_command(&user_lookup, &user_specs);
    let ghost left = a@;
    let ghost right = b@;
    a.packages.append(&mut b.packages);
    a.diagnostics.append(&mut b.diagnostics);
    assert(a@.packages =~= left.packages + right.packages);
    assert(a@.diagnostics =~= left.diagnostics + right.diagnostics);
    a
}

/// Where a project is not trusted, its settings take no part in an update:
/// neither its packages nor its command are used, and it does not matter
/// whether they can be read.
pub proof fn lemma_untrusted_update_ignores_project<'a>(
    s: UpdateSettings<'a>,
    other: UpdateSettings<'a>,
    platform: Platform,
    fs: Seq<EntryModel>,
    places: PlacesModel,
    failures: Seq<(PathModel, Seq<char>)>,
    legacy: Seq<(Seq<char>, PathModel)>,
)
    requires
        s.user == other.user,
    ensures
        update_command_of(s, false, platform) == update_command_of(other, false, platform),
        update_packages_of(s, false, fs, places, failures, legacy) == update_packages_of(
            other,
            false,
            fs,
            places,
            failures,
            legacy,
        ),
{
}

/// Settings that cannot be read leave an update without a command, whatever
/// the others say.
pub proof fn lemma_unreadable_settings_stop_update<'a>(
    s: UpdateSettings<'a>,
    trusted: bool,
    platform: Platform,
)
    requires
        s.user is Err || (trusted && s.project is Err),
    ensures
        update_command_of(s, trusted, platform) is Err,
{
}

} // verus!
