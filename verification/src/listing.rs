//! The list of packages as a JSON document.

use vstd::prelude::*;

use crate::json;
use crate::package_cli;
use crate::package_cli::{Line, LineModel, NativeModel, NativePackage};
use crate::packages::{PackageModel, PackageResources, PackageRoot, ResourcesModel};
use crate::paths;
use crate::paths::{EntryModel, FsPath, FsTree, PathModel};
use crate::text;

verus! {

/// A string or nothing as JSON.
pub open spec fn opt_json(s: Option<Seq<char>>) -> Seq<char> {
    match s {
        Some(s) => json::json_quoted(s),
        None => "null"@,
    }
}

/// A list of paths as JSON.
pub open spec fn paths_json(list: Seq<PathModel>) -> Seq<char> {
    "["@ + text::joined(
        Seq::new(list.len(), |i: int| json::json_quoted(paths::path_text(list[i]))),
        ","@,
    ) + "]"@
}

/// A package as JSON.
pub open spec fn package_json(fs: Seq<EntryModel>, p: PackageModel) -> Seq<char> {
    "{\"name\":"@ + json::json_quoted(p.name) + ",\"version\":"@ + opt_json(p.version)
        + ",\"type\":\"ts\",\"root\":"@ + json::json_quoted(paths::path_text(p.root))
        + ",\"manifest\":"@ + opt_json(
        match p.manifest {
            Some(at) => Some(paths::path_text(at)),
            None => None,
        },
    ) + ",\"skills\":"@ + paths_json(p.skills) + ",\"prompts\":"@ + paths_json(p.prompts)
        + ",\"themes\":"@ + paths_json(package_cli::shown_themes(fs, p.themes)) + "}"@
}

/// A native package as JSON.
pub open spec fn native_json(p: NativeModel) -> Seq<char> {
    "{\"name\":"@ + json::json_quoted(p.name) + ",\"version\":"@ + json::json_quoted(p.version)
        + ",\"type\":\"rust\",\"source\":"@ + opt_json(p.source) + "}"@
}

/// All packages as one JSON document, without line breaks.
pub open spec fn list_document(
    fs: Seq<EntryModel>,
    r: ResourcesModel,
    native: Seq<NativeModel>,
) -> Seq<char> {
    "["@ + text::joined(
        Seq::new(r.packages.len(), |i: int| package_json(fs, r.packages[i])) + Seq::new(
            native.len(),
            |i: int| native_json(native[i]),
        ),
        ","@,
    ) + "]"@
}

/// All packages as one JSON document, as it is printed.
pub open spec fn list_json_of(
    fs: Seq<EntryModel>,
    r: ResourcesModel,
    native: Seq<NativeModel>,
) -> Seq<char> {
    match json::json_pretty(list_document(fs, r, native)) {
        Some(shown) => shown,
        None => "[]"@,
    }
}

fn write_opt(s: &Option<String>) -> (out: String)
    ensures
        out@ == opt_json(text::opt_text(*s)),
{
    match s {
        Some(s) => json::quote_json(s.as_str()),
        None => "null".to_owned(),
    }
}

fn write_paths(list: &[FsPath]) -> (out: String)
    ensures
        out@ == paths_json(paths::path_views(list@)),
{
    let ghost model = paths::path_views(list@);
    let ghost all = Seq::new(model.len(), |i: int| json::json_quoted(paths::path_text(model[i])));
    let mut parts: Vec<String> = Vec::new();
    let mut i: usize = 0;
    while i < list.len()
        invariant
            i <= list@.len(),
            model == paths::path_views(list@),
            all == Seq::new(
                model.len(),
                |i: int| json::json_quoted(paths::path_text(model[i])),
            ),
            text::texts(parts@) =~= all.take(i as int),
        decreases list.len() - i,
    {
        assert(model[i as int] == list@[i as int]@);
        let shown = list[i].to_text();
        let quoted = json::quote_json(shown.as_str());
        text::push_text(&mut parts, quoted.as_str());
        i += 1;
    }
    assert(all.take(i as int) =~= all);
    let inner = text::join(parts.as_slice(), ",");
    text::cat3("[", inner.as_str(), "]")
}

fn write_package(fs: &FsTree, p: &PackageRoot) -> (out: String)
    ensures
        out@ == package_json(fs@, p@),
{
    let name = json::quote_json(p.name.as_str());
    let version = write_opt(&p.version);
    let at = p.root.to_text();
    let root = json::quote_json(at.as_str());
    let manifest = match &p.manifest {
        Some(at) => {
            let shown = at.to_text();
            json::quote_json(shown.as_str())
        },
        None => "null".to_owned(),
    };
    let skills = write_paths(p.skills.as_slice());
    let prompts = write_paths(p.prompts.as_slice());
    let shown = package_cli::theme_files_for_display(fs, p);
    let themes = write_paths(shown.as_slice());
    let mut out = text::cat4("{\"name\":", name.as_str(), ",\"version\":", version.as_str());
    out.append(",\"type\":\"ts\",\"root\":");
    out.append(root.as_str());
    out.append(",\"manifest\":");
    out.append(manifest.as_str());
    out.append(",\"skills\":");
    out.append(skills.as_str());
    out.append(",\"prompts\":");
    out.append(prompts.as_str());
    out.append(",\"themes\":");
    out.append(themes.as_str());
    out.append("}");
    out
}

fn write_native(p: &NativePackage) -> (out: String)
    ensures
        out@ == native_json(p@),
{
    let name = json::quote_json(p.name.as_str());
    let version = json::quote_json(p.version.as_str());
    let source = write_opt(&p.source);
    let mut out = text::cat4("{\"name\":", name.as_str(), ",\"version\":", version.as_str());
    out.append(",\"type\":\"rust\",\"source\":");
    out.append(source.as_str());
    out.append("}");
    out
}

/// All packages as one JSON document.
pub fn list_json(fs: &FsTree, r: &PackageResources, native: &[NativePackage]) -> (out: String)
    ensures
        out@ == list_json_of(fs@, r@, package_cli::native_views(native@)),
{
    let ghost natives = package_cli::native_views(native@);
    let ghost first = Seq::new(r@.packages.len(), |i: int| package_json(fs@, r@.packages[i]));
    let ghost second = Seq::new(natives.len(), |i: int| native_json(natives[i]));
    assert(r@.packages.len() == r.packages@.len());
    let mut parts: Vec<String> = Vec::new();
    let mut i: usize = 0;
    while i < r.packages.len()
        invariant
            i <= r.packages@.len(),
            first == Seq::new(r@.packages.len(), |i: int| package_json(fs@, r@.packages[i])),
            text::texts(parts@) =~= first.take(i as int),
        decreases r.packages.len() - i,
    {
        assert(r@.packages[i as int] == r.packages@[i as int]@);
        let part = write_package(fs, &r.packages[i]);
        text::push_text(&mut parts, part.as_str());
        i += 1;
    }
    assert(first.take(i as int) =~= first);
    let mut k: usize = 0;
    while k < native.len()
        invariant
            k <= native@.len(),
            natives == package_cli::native_views(native@),
            second == Seq::new(natives.len(), |i: int| native_json(natives[i])),
            text::texts(parts@) =~= first + second.take(k as int),
        decreases native.len() - k,
    {
        assert(natives[k as int] == native@[k as int]@);
        let part = write_native(&native[k]);
        text::push_text(&mut parts, part.as_str());
        k += 1;
    }
    assert(second.take(k as int) =~= second);
    let inner = text::join(parts.as_slice(), ",");
    let document = text::cat3("[", inner.as_str(), "]");
    match json::pretty_json(document.as_str()) {
        Some(shown) => shown,
        None => "[]".to_owned(),
    }
}

/// What `list` prints: the document or the lines, and then the diagnostics.
pub open spec fn report_of(
    fs: Seq<EntryModel>,
    r: ResourcesModel,
    native: Seq<NativeModel>,
    as_json: bool,
) -> Seq<LineModel> {
    if as_json {
        seq![package_cli::said(list_json_of(fs, r, native))] + package_cli::diagnostic_lines(
            r.diagnostics,
        )
    } else {
        package_cli::list_lines_of(r, native)
    }
}

/// What `list` prints.
pub fn list_report(
    fs: &FsTree,
    r: &PackageResources,
    native: &[NativePackage],
    as_json: bool,
) -> (out: Vec<Line>)
    ensures
        package_cli::line_views(out@) == report_of(
            fs@,
            r@,
            package_cli::native_views(native@),
            as_json,
        ),
{
    if !as_json {
        return package_cli::list_lines(r, native);
    }
    let mut out: Vec<Line> = Vec::new();
    assert(package_cli::line_views(out@) =~= seq![]);
    package_cli::push_line(&mut out, false, list_json(fs, r, native));
    assert(package_cli::line_views(out@) =~= seq![
        package_cli::said(list_json_of(fs@, r@, package_cli::native_views(native@))),
    ]);
    package_cli::push_diagnostics(&mut out, r);
    out
}

} // verus!
