//! Where a package is looked for, and what is read of it there.

use vstd::prelude::*;

use crate::discovery;
use crate::discovery::SettingModel;
use crate::json;
use crate::laws::inventories;
use crate::laws::npm_sources;
use crate::laws::texts;
use crate::laws::words;
use crate::npm_spec;
use crate::packages;
use crate::packages::{PackageModel, ResourceList, SpecModel};
use crate::paths;
use crate::paths::{EntryModel, PathModel};
use crate::resources;
use crate::resources::{FilterModel, FilterResourceKind};
use crate::stores;
use crate::stores::{PlacesModel, ResolveScope, SourceModel};
use crate::text;
use crate::version;

verus! {

/// Where a package of the project is looked for does not depend on the user's
/// directories, and where one of the user is looked for does not depend on the
/// project's.
pub proof fn lemma_scopes_look_apart(
    a: PlacesModel,
    b: PlacesModel,
    entry: Seq<char>,
    spec: SpecModel,
)
    requires
        a.cwd.platform == b.cwd.platform,
    ensures
        a.cwd == b.cwd ==> packages::places_of(a, entry, spec, ResolveScope::Project)
            == packages::places_of(b, entry, spec, ResolveScope::Project),
        a.agent == b.agent && a.home == b.home ==> packages::places_of(
            a,
            entry,
            spec,
            ResolveScope::User,
        ) == packages::places_of(b, entry, spec, ResolveScope::User),
{
    assert(a.cwd == b.cwd ==> stores::git_roots(a, ResolveScope::Project) =~= stores::git_roots(
        b,
        ResolveScope::Project,
    ));
    assert(a.agent == b.agent && a.home == b.home ==> stores::git_roots(a, ResolveScope::User)
        =~= stores::git_roots(b, ResolveScope::User));
}

/// Whether `p` is one of the places.
pub open spec fn looked_at(list: Seq<PathModel>, p: PathModel) -> bool {
    exists|i: int| 0 <= i < list.len() && #[trigger] list[i] == p
}

proof fn lemma_looked_at_either(a: Seq<PathModel>, b: Seq<PathModel>, p: PathModel)
    ensures
        looked_at(a + b, p) <==> (looked_at(a, p) || looked_at(b, p)),
{
    if looked_at(a, p) {
        let i = choose|i: int| 0 <= i < a.len() && #[trigger] a[i] == p;
        assert((a + b)[i] == p);
    }
    if looked_at(b, p) {
        let i = choose|i: int| 0 <= i < b.len() && #[trigger] b[i] == p;
        assert((a + b)[a.len() + i] == p);
    }
    if looked_at(a + b, p) {
        let i = choose|i: int| 0 <= i < (a + b).len() && #[trigger] (a + b)[i] == p;
        if i < a.len() {
            assert(a[i] == p);
        } else {
            assert(b[i - a.len()] == p);
        }
    }
}

/// The checkouts that are looked at for an entry.
spec fn checkouts(places: PlacesModel, entry: Seq<char>, scope: ResolveScope) -> Seq<PathModel> {
    match crate::git_source::git_source_of(entry) {
        Some(git) => packages::git_places(stores::git_roots(places, scope), git.host, git.path),
        None => seq![],
    }
}

#[verifier::opaque]
spec fn parts_of_places(
    places: PlacesModel,
    entry: Seq<char>,
    spec: SpecModel,
    scope: ResolveScope,
    p: PathModel,
) -> bool {
    ||| looked_at(checkouts(places, entry, scope), p)
    ||| looked_at(packages::project_places(places, scope, spec), p)
    ||| looked_at(packages::user_places(places, scope, spec.name), p)
    ||| scope == ResolveScope::Any && !spec.is_npm && p == paths::below(places.cwd, spec.name)
}

proof fn lemma_parts_of_places(
    places: PlacesModel,
    entry: Seq<char>,
    spec: SpecModel,
    scope: ResolveScope,
    p: PathModel,
)
    requires
        !packages::explicit_relative(spec),
        !paths::path_of(places.cwd.platform, spec.body).absolute(),
    ensures
        looked_at(packages::places_of(places, entry, spec, scope), p) <==> parts_of_places(
            places,
            entry,
            spec,
            scope,
            p,
        ),
{
    reveal(parts_of_places);
    let none: Seq<PathModel> = seq![];
    let git = checkouts(places, entry, scope);
    let inner = packages::project_places(places, scope, spec);
    let own = packages::user_places(places, scope, spec.name);
    let plain = if scope == ResolveScope::Any && !spec.is_npm {
        seq![paths::below(places.cwd, spec.name)]
    } else {
        seq![]
    };
    assert(packages::places_of(places, entry, spec, scope) == none + git + inner + own + plain);
    lemma_looked_at_either(none, git, p);
    lemma_looked_at_either(none + git, inner, p);
    lemma_looked_at_either(none + git + inner, own, p);
    lemma_looked_at_either(none + git + inner + own, plain, p);
    if plain.len() > 0 {
        assert(plain[0] == paths::below(places.cwd, spec.name));
    }
}

proof fn lemma_checkouts_of_any(
    places: PlacesModel,
    entry: Seq<char>,
    scope: ResolveScope,
    p: PathModel,
)
    requires
        looked_at(checkouts(places, entry, scope), p),
    ensures
        looked_at(checkouts(places, entry, ResolveScope::Any), p),
{
    let some = checkouts(places, entry, scope);
    let all = checkouts(places, entry, ResolveScope::Any);
    let i = choose|i: int| 0 <= i < some.len() && #[trigger] some[i] == p;
    let roots = stores::git_roots(places, scope);
    let wide = stores::git_roots(places, ResolveScope::Any);
    let k = if scope == ResolveScope::User {
        i + 2
    } else {
        i
    };
    assert(wide[k] == roots[i]);
    assert(all[k] == p);
}

proof fn lemma_stores_of_any(
    places: PlacesModel,
    spec: SpecModel,
    scope: ResolveScope,
    p: PathModel,
)
    ensures
        looked_at(packages::project_places(places, scope, spec), p) ==> looked_at(
            packages::project_places(places, ResolveScope::Any, spec),
            p,
        ),
        looked_at(packages::user_places(places, scope, spec.name), p) ==> looked_at(
            packages::user_places(places, ResolveScope::Any, spec.name),
            p,
        ),
{
    let some = packages::project_places(places, scope, spec);
    let all = packages::project_places(places, ResolveScope::Any, spec);
    if looked_at(some, p) {
        let i = choose|i: int| 0 <= i < some.len() && #[trigger] some[i] == p;
        assert(all[i] == p);
    }
}

/// Without a restriction every place is looked at that is looked at for the
/// project or for the user.
pub proof fn lemma_any_scope_looks_everywhere(
    places: PlacesModel,
    entry: Seq<char>,
    spec: SpecModel,
    scope: ResolveScope,
    p: PathModel,
)
    requires
        !packages::explicit_relative(spec),
        looked_at(packages::places_of(places, entry, spec, scope), p),
    ensures
        looked_at(packages::places_of(places, entry, spec, ResolveScope::Any), p),
{
    if !paths::path_of(places.cwd.platform, spec.body).absolute() {
        lemma_parts_of_places(places, entry, spec, scope, p);
        lemma_parts_of_places(places, entry, spec, ResolveScope::Any, p);
        reveal(parts_of_places);
        lemma_stores_of_any(places, spec, scope, p);
        if looked_at(checkouts(places, entry, scope), p) {
            lemma_checkouts_of_any(places, entry, scope, p);
        }
    }
}

/// An entry that says `npm:` names the package that its specification names;
/// one that says `file:` is a path, and what stands behind it is looked for.
pub proof fn lemma_entry_reads(body: Seq<char>)
    ensures
        ({
            let spec = packages::read_spec(seq!['n', 'p', 'm', ':'] + body);
            match npm_spec::npm_spec_of(body) {
                Some(parsed) => spec matches Some(s) && s.is_npm && !s.is_file && s.body == body
                    && s.name == parsed.install_name,
                None => spec is None,
            }
        }),
        !text::begins(body, seq!['n', 'p', 'm', ':']) ==> (packages::read_spec(
            seq!['f', 'i', 'l', 'e', ':'] + body,
        ) matches Some(s) && s.is_file && !s.is_npm && s.body == body),
        !text::begins(body, seq!['n', 'p', 'm', ':']) && !text::begins(
            body,
            seq!['f', 'i', 'l', 'e', ':'],
        ) ==> (packages::read_spec(body) matches Some(s) && !s.is_file && !s.is_npm && s.body
            == body),
{
    reveal_strlit("npm:");
    reveal_strlit("file:");
    assert("npm:"@ =~= seq!['n', 'p', 'm', ':']);
    assert("file:"@ =~= seq!['f', 'i', 'l', 'e', ':']);
    let npm = seq!['n', 'p', 'm', ':'] + body;
    let file = seq!['f', 'i', 'l', 'e', ':'] + body;
    assert(npm.subrange(0, 4) =~= "npm:"@);
    assert(npm.skip(4) =~= body);
    assert(file.subrange(0, 5) =~= "file:"@);
    assert(file.skip(5) =~= body);
    assert(!text::begins(npm, "file:"@)) by {
        if text::begins(npm, "file:"@) {
            assert(npm.subrange(0, 5)[0] == npm[0]);
        }
    }
}

/// A package without a scope keeps its name in a flat store; one with a scope
/// loses its `@` and has two underscores for the slash.
pub proof fn lemma_flat_name(scope: Seq<char>, name: Seq<char>)
    requires
        !scope.contains('/'),
        !name.contains('/'),
        name.len() > 0 && name[0] != '@',
    ensures
        packages::flat_name(name) == name,
        packages::flat_name(seq!['@'] + scope + seq!['/'] + name) == scope + seq!['_', '_'] + name,
{
    reveal_strlit("/");
    reveal_strlit("__");
    assert("/"@ =~= seq!['/']);
    assert("__"@ =~= seq!['_', '_']);
    let none: Seq<char> = seq![];
    words::lemma_replaced_where_found(name, "/"@, none, "__"@);
    words::lemma_replaced_where_found(scope, "/"@, name, "__"@);
    let full = seq!['@'] + scope + seq!['/'] + name;
    assert(full.skip(1) =~= scope + "/"@ + name);
}

/// A package that is loaded is the one at its root, as it was asked for. One
/// asked for by an npm specification bears the name that was asked for.
pub proof fn lemma_loaded_is_what_was_asked_for(
    fs: Seq<EntryModel>,
    places: PlacesModel,
    root: PathModel,
    spec: Seq<char>,
    scope: ResolveScope,
    filter: Option<FilterModel>,
    global: Option<PathModel>,
)
    ensures
        packages::loaded(fs, places, root, spec, scope, filter, global) matches Ok(p) ==> {
            &&& p.root == root
            &&& p.spec == spec
            &&& p.scope == scope
            &&& p.filter == filter
            &&& p.legacy_npm_root == global
            &&& !p.missing_install
            &&& p.npm_install_root is Some ==> p.source is Npm
            &&& p.git_store_root is Some ==> p.source is Git
            &&& p.git_revision is Some ==> p.source is Git
            &&& text::begins(spec, seq!['n', 'p', 'm', ':']) ==> (npm_spec::npm_spec_of(
                spec,
            ) is Some && (stores::npm_source_of(spec) matches Some(asked)
                && stores::source_matches(asked, p.name)))
        },
{
    reveal_strlit("npm:");
    assert("npm:"@ =~= seq!['n', 'p', 'm', ':']);
    if text::begins(spec, "npm:"@) {
        assert(spec[0] == spec.subrange(0, 4)[0]);
        assert(spec[0] == 'n');
        assert(text::past_space(spec, 0) == 0);
        assert(text::trim_start_of(spec) =~= spec);
    }
}

/// The resources of all packages are those of each, one package after another:
/// none is lost and none is added.
pub proof fn lemma_all_are_gathered(packages: Seq<PackageModel>, list: ResourceList, n: int)
    requires
        0 <= n <= packages.len(),
    ensures
        forall|i: int, k: int|
            0 <= i < n && 0 <= k < packages::list_in(packages[i], list).len() ==> looked_at(
                packages::gathered(packages, list, n),
                #[trigger] packages::list_in(packages[i], list)[k],
            ),
        forall|p: PathModel| #[trigger]
            looked_at(packages::gathered(packages, list, n), p) ==> exists|i: int|
                0 <= i < n && looked_at(#[trigger] packages::list_in(packages[i], list), p),
    decreases n,
{
    if n > 0 {
        lemma_all_are_gathered(packages, list, n - 1);
        let before = packages::gathered(packages, list, n - 1);
        let last = packages::list_in(packages[n - 1], list);
        let all = packages::gathered(packages, list, n);
        assert(all == before + last);
        assert forall|i: int, k: int|
            0 <= i < n && 0 <= k < packages::list_in(packages[i], list).len() implies looked_at(
            all,
            #[trigger] packages::list_in(packages[i], list)[k],
        ) by {
            let p = packages::list_in(packages[i], list)[k];
            if i == n - 1 {
                assert(all[before.len() + k] == p);
            } else {
                assert(looked_at(before, p));
                let j = choose|j: int| 0 <= j < before.len() && #[trigger] before[j] == p;
                assert(all[j] == p);
            }
        }
        assert forall|p: PathModel| #[trigger] looked_at(all, p) implies exists|i: int|
            0 <= i < n && looked_at(#[trigger] packages::list_in(packages[i], list), p) by {
            let j = choose|j: int| 0 <= j < all.len() && #[trigger] all[j] == p;
            if j < before.len() {
                assert(before[j] == p);
                assert(looked_at(before, p));
                let i = choose|i: int|
                    0 <= i < n - 1 && looked_at(#[trigger] packages::list_in(packages[i], list), p);
                assert(looked_at(packages::list_in(packages[i], list), p));
            } else {
                assert(last[j - before.len()] == p);
                assert(looked_at(packages::list_in(packages[n - 1], list), p));
            }
        }
    }
}

/// A package that says `npm:` and lies where no manager put it is of unknown
/// origin; one that lies in a manager's directory is what it says, if its name
/// is.
pub proof fn lemma_npm_origin(
    fs: Seq<EntryModel>,
    places: PlacesModel,
    root: PathModel,
    body: Seq<char>,
    name: Seq<char>,
    scope: ResolveScope,
)
    ensures
        ({
            let spec = seq!['n', 'p', 'm', ':'] + body;
            let source = stores::classified(fs, places, root, spec, name, scope);
            let asked = stores::npm_source_of(spec);
            &&& source is Unknown || Some(source) == asked
            &&& !(asked matches Some(s) && stores::source_matches(s, name)) ==> source is Unknown
            &&& stores::npm_root_of(fs, places, root, scope) is None && !stores::managed(
                fs,
                places,
                root,
                scope,
            ) ==> source is Unknown
            &&& stores::npm_root_of(fs, places, root, scope) is Some && (asked matches Some(s)
                && stores::source_matches(s, name)) ==> Some(source) == asked
        }),
{
    reveal_strlit("npm:");
    assert("npm:"@ =~= seq!['n', 'p', 'm', ':']);
    let spec = seq!['n', 'p', 'm', ':'] + body;
    assert(spec.subrange(0, 4) =~= "npm:"@);
}

/// A local path that lies in none of the stores is a local package, whatever
/// stands in it.
pub proof fn lemma_local_origin(
    fs: Seq<EntryModel>,
    places: PlacesModel,
    root: PathModel,
    spec: Seq<char>,
    name: Seq<char>,
    scope: ResolveScope,
)
    requires
        spec.len() > 0 && spec[0] == '.',
        crate::git_source::git_source_of(spec) is None,
        stores::npm_root_of(fs, places, root, scope) is None,
        !stores::managed(fs, places, root, scope),
        stores::git_root_of(fs, places, root, scope) is None,
        stores::direct_store_of(fs, places, root, scope) is None,
    ensures
        stores::classified(fs, places, root, spec, name, scope) == SourceModel::Local,
{
    reveal_strlit("npm:");
    if text::begins(spec, "npm:"@) {
        assert(spec.subrange(0, 4)[0] == spec[0]);
    }
}

/// A setting filters each list of resources by its own patterns: what it says
/// of one list does not touch another. Nothing else of the package changes.
pub proof fn lemma_filters_do_not_mix(
    fs: Seq<EntryModel>,
    p: PackageModel,
    f: FilterModel,
    g: FilterModel,
)
    requires
        f.autoload == g.autoload,
    ensures
        ({
            let a = packages::with_filter(fs, PackageModel { filter: Some(f), ..p });
            let b = packages::with_filter(fs, PackageModel { filter: Some(g), ..p });
            &&& f.extensions == g.extensions ==> a.extensions == b.extensions
            &&& f.skills == g.skills ==> a.skills == b.skills
            &&& f.prompts == g.prompts ==> a.prompts == b.prompts
            &&& f.themes == g.themes ==> a.themes == b.themes
            &&& f.skills is None && f.autoload != Some(false) ==> a.skills == p.skills
            &&& f.extensions is None && f.autoload != Some(false) ==> a.extensions == p.extensions
            &&& f.prompts is None && f.autoload != Some(false) ==> a.prompts == p.prompts
            &&& f.themes is None && f.autoload != Some(false) ==> a.themes == p.themes
            &&& a.system_prompts == p.system_prompts
            &&& a.append_system_prompts == p.append_system_prompts
            &&& a.root == p.root && a.name == p.name && a.version == p.version && a.source
                == p.source
        }),
        packages::with_filter(fs, PackageModel { filter: None, ..p }) == (PackageModel {
            filter: None,
            ..p
        }),
{
    inventories::lemma_setting_without_patterns(
        fs,
        p.root,
        p.skills,
        f.autoload,
        FilterResourceKind::Skills,
    );
    inventories::lemma_setting_without_patterns(
        fs,
        p.root,
        p.extensions,
        f.autoload,
        FilterResourceKind::Extensions,
    );
    inventories::lemma_setting_without_patterns(
        fs,
        p.root,
        p.prompts,
        f.autoload,
        FilterResourceKind::Prompts,
    );
    inventories::lemma_setting_without_patterns(
        fs,
        p.root,
        p.themes,
        f.autoload,
        FilterResourceKind::Themes,
    );
}

/// A setting that changes what another loads touches the lists that it has
/// patterns for, and changes nothing unless it is meant as a change.
pub proof fn lemma_changes_do_not_mix(fs: Seq<EntryModel>, p: PackageModel, f: FilterModel)
    ensures
        f.autoload != Some(false) ==> discovery::with_delta(fs, p, f) == p,
        f.extensions is None ==> discovery::with_delta(fs, p, f).extensions == p.extensions,
        f.skills is None ==> discovery::with_delta(fs, p, f).skills == p.skills,
        f.prompts is None ==> discovery::with_delta(fs, p, f).prompts == p.prompts,
        f.themes is None ==> discovery::with_delta(fs, p, f).themes == p.themes,
        discovery::with_delta(fs, p, f).root == p.root,
        discovery::with_delta(fs, p, f).system_prompts == p.system_prompts,
        f.autoload == Some(false) ==> (f.skills matches Some(patterns) ==> discovery::with_delta(
            fs,
            p,
            f,
        ).skills == resources::changed(fs, p.root, p.skills, patterns, FilterResourceKind::Skills)),
{
}

/// Each npm package that the entries name is asked for once, and no other.
pub proof fn lemma_npm_names(entries: Seq<SettingModel>, n: int)
    requires
        0 <= n <= entries.len(),
    ensures
        forall|i: int|
            0 <= i < n ==> (stores::npm_source_of((#[trigger] entries[i]).source) matches Some(
                SourceModel::Npm { name, .. },
            ) ==> discovery::npm_names_among(entries, n).contains(name)),
        forall|i: int, j: int|
            0 <= i < j < discovery::npm_names_among(entries, n).len() ==> (
            #[trigger] discovery::npm_names_among(entries, n)[i]) != (
            #[trigger] discovery::npm_names_among(entries, n)[j]),
    decreases n,
{
    if n > 0 {
        lemma_npm_names(entries, n - 1);
        let rest = discovery::npm_names_among(entries, n - 1);
        let all = discovery::npm_names_among(entries, n);
        assert forall|i: int| 0 <= i < n implies (stores::npm_source_of(
            (#[trigger] entries[i]).source,
        ) matches Some(SourceModel::Npm { name, .. }) ==> all.contains(name)) by {
            if let Some(SourceModel::Npm { name, .. }) = stores::npm_source_of(entries[i].source) {
                if i == n - 1 {
                    if !rest.contains(name) {
                        assert(all[all.len() - 1] == name);
                    }
                } else {
                    assert(rest.contains(name));
                    let k = choose|k: int| 0 <= k < rest.len() && rest[k] == name;
                    assert(all[k] == name);
                }
            }
        }
        assert forall|i: int, j: int| 0 <= i < j < all.len() implies (#[trigger] all[i]) != (
        #[trigger] all[j]) by {
            if j < rest.len() {
                assert(all[i] == rest[i] && all[j] == rest[j]);
            } else {
                assert(all[i] == rest[i]);
                assert(rest.contains(rest[i]));
            }
        }
    }
}

/// A specification with a version names its package and what is requested of
/// it, is pinned where that is an exact version, and is met by a package of
/// that name and by no other.
pub proof fn lemma_source_is_told_by_name(
    name: Seq<char>,
    selector: Seq<char>,
    other: Seq<char>,
)
    requires
        npm_sources::slug(name),
        npm_sources::slug(selector),
    ensures
        ({
            let spec = seq!['n', 'p', 'm', ':'] + (name + seq!['@'] + selector);
            let source = stores::npm_source_of(spec);
            &&& source matches Some(SourceModel::Npm { name: n, spec: s, requested, pinned }) && n
                == name && s == spec && requested == Some(selector) && pinned
                == version::exact_version(selector)
            &&& stores::source_matches(source->0, other) <==> other == name
        }),
{
    reveal_strlit("npm:");
    let prefix = seq!['n', 'p', 'm', ':'];
    assert("npm:"@ =~= prefix);
    let raw = name + seq!['@'] + selector;
    let spec = prefix + raw;
    npm_sources::lemma_slug(name);
    npm_sources::lemma_slug(selector);
    npm_sources::lemma_selector_behind_name(name, selector);
    texts::lemma_prefix_goes(prefix, raw);
    assert(raw[0] == name[0] && raw.last() == selector.last());
    texts::lemma_trimmed(raw);
    assert(!text::begins(raw, prefix)) by {
        if text::begins(raw, prefix) {
            assert(raw.subrange(0, 4)[3] == raw[3]);
            if 3 < name.len() {
                assert(name.contains(name[3]));
            } else if 3 > name.len() {
                assert(selector.contains(selector[3 - name.len() - 1]));
            }
        }
    }
    npm_sources::lemma_npm_in_front_says_nothing(raw);
}

/// A package of another name than the specification asks for is not loaded.
pub proof fn lemma_other_package_is_refused(
    fs: Seq<EntryModel>,
    places: PlacesModel,
    root: PathModel,
    name: Seq<char>,
    selector: Seq<char>,
    scope: ResolveScope,
    filter: Option<FilterModel>,
    global: Option<PathModel>,
    manifest: Option<Seq<char>>,
)
    requires
        npm_sources::slug(name),
        npm_sources::slug(selector),
        packages::manifest_of(fs, root) == Ok::<Option<Seq<char>>, Seq<char>>(manifest),
        packages::manifest_string(manifest, "name"@) != Some(name),
    ensures
        packages::loaded(
            fs,
            places,
            root,
            seq!['n', 'p', 'm', ':'] + (name + seq!['@'] + selector),
            scope,
            filter,
            global,
        ) is Err,
{
    let spec = seq!['n', 'p', 'm', ':'] + (name + seq!['@'] + selector);
    let found = packages::manifest_string(manifest, "name"@);
    lemma_source_is_told_by_name(name, selector, name);
    if let Some(actual) = found {
        lemma_source_is_told_by_name(name, selector, actual);
    }
    reveal_strlit("npm:");
    assert("npm:"@ =~= seq!['n', 'p', 'm', ':']);
    assert(spec.subrange(0, 4) =~= "npm:"@);
    assert(spec[0] == 'n');
    assert(text::past_space(spec, 0) == 0);
    assert(text::trim_start_of(spec) =~= spec);
}

/// A package is called what its manifest calls it, or else what its directory
/// is called, and has the version that its manifest states. Without a manifest
/// its system prompts are the files of the usual names, where they are there.
pub proof fn lemma_loaded_tells_its_manifest(
    fs: Seq<EntryModel>,
    places: PlacesModel,
    root: PathModel,
    spec: Seq<char>,
    scope: ResolveScope,
    filter: Option<FilterModel>,
    global: Option<PathModel>,
    manifest: Option<Seq<char>>,
)
    requires
        packages::manifest_of(fs, root) == Ok::<Option<Seq<char>>, Seq<char>>(manifest),
    ensures
        packages::loaded(fs, places, root, spec, scope, filter, global) matches Ok(p) ==> {
            &&& packages::manifest_string(manifest, "name"@) matches Some(name) ==> p.name == name
            &&& packages::manifest_string(manifest, "name"@) is None ==> (paths::name_of(
                root,
            ) matches Some(name) ==> p.name == name)
            &&& p.version == packages::manifest_string(manifest, "version"@)
            &&& p.manifest is Some <==> manifest is Some
            &&& manifest is None && paths::file_at(fs, paths::below(root, "SYSTEM.md"@))
                ==> p.system_prompts == seq![paths::below(root, "SYSTEM.md"@)]
            &&& manifest is None && !paths::file_at(fs, paths::below(root, "SYSTEM.md"@))
                ==> p.system_prompts.len() == 0
            &&& manifest is None && paths::file_at(fs, paths::below(root, "APPEND_SYSTEM.md"@))
                ==> p.append_system_prompts == seq![paths::below(root, "APPEND_SYSTEM.md"@)]
        },
{
}

/// A manifest that cannot be read or that is no document is an error; a
/// package without one is none.
pub proof fn lemma_manifest_is_read(fs: Seq<EntryModel>, root: PathModel)
    ensures
        ({
            let at = paths::below(root, "package.json"@);
            &&& paths::text_at(fs, at) is None && paths::unreadable_at(fs, at) is None
                ==> packages::manifest_of(fs, root) == Ok::<Option<Seq<char>>, Seq<char>>(None)
            &&& paths::text_at(fs, at) is None && paths::unreadable_at(fs, at) is Some
                ==> packages::manifest_of(fs, root) is Err
            &&& paths::text_at(fs, at) matches Some(raw) ==> (packages::manifest_of(fs, root) is Err
                <==> json::document_of(raw) is Err)
            &&& paths::text_at(fs, at) matches Some(raw) ==> (json::json_read(raw) is Ok
                ==> packages::manifest_of(fs, root) == Ok::<Option<Seq<char>>, Seq<char>>(
                Some(raw),
            ))
        }),
{
}

} // verus!
