//! The resource files of a package: where they are found, and which of them
//! a manifest or a setting selects.

use vstd::prelude::*;

use crate::json;
use crate::npm_command::{Platform, System, Unix};
use crate::paths;
use crate::paths::{EntryModel, FsPath, FsTree, PathModel};
use crate::text;

verus! {

/// The kinds of resources that a setting can filter.
#[derive(Debug, Clone, Copy, PartialEq, Eq, Structural)]
pub enum FilterResourceKind {
    Extensions,
    Skills,
    Prompts,
    Themes,
}

/// What a pattern does to the files that it matches.
#[derive(Debug, Clone, Copy, PartialEq, Eq, Structural)]
pub enum PatternMode {
    Include,
    Exclude,
    ForceInclude,
    ForceExclude,
}

/// What a pattern does, and the pattern without its mark.
pub open spec fn mode_and_target(pattern: Seq<char>) -> (PatternMode, Seq<char>) {
    if text::first_is(pattern, '+') {
        (PatternMode::ForceInclude, pattern.skip(1))
    } else if text::first_is(pattern, '-') {
        (PatternMode::ForceExclude, pattern.skip(1))
    } else if text::first_is(pattern, '!') {
        (PatternMode::Exclude, pattern.skip(1))
    } else {
        (PatternMode::Include, pattern)
    }
}

/// What a pattern does, and the pattern without its mark.
pub fn pattern_mode<'a>(pattern: &'a str) -> (r: (PatternMode, &'a str))
    ensures
        (r.0, r.1@) == mode_and_target(pattern@),
{
    if text::starts_with_char(pattern, '+') {
        (PatternMode::ForceInclude, text::skip(pattern, 1))
    } else if text::starts_with_char(pattern, '-') {
        (PatternMode::ForceExclude, text::skip(pattern, 1))
    } else if text::starts_with_char(pattern, '!') {
        (PatternMode::Exclude, text::skip(pattern, 1))
    } else {
        (PatternMode::Include, pattern)
    }
}

/// Whether a manifest entry changes what other entries select.
pub open spec fn override_pattern(pattern: Seq<char>) -> bool {
    mode_and_target(pattern).0 != PatternMode::Include
}

/// Whether a manifest entry changes what other entries select.
pub fn is_override_pattern(pattern: &str) -> (r: bool)
    ensures
        r == override_pattern(pattern@),
{
    pattern_mode(pattern).0 != PatternMode::Include
}

/// Whether a manifest entry is a glob.
pub fn has_glob_pattern(pattern: &str) -> (r: bool)
    ensures
        r == (pattern@.contains('*') || pattern@.contains('?')),
{
    text::contains_char(pattern, '*') || text::contains_char(pattern, '?')
}

/// A pattern without white space around it, with `/` for `\`, and without
/// `./` in front.
pub open spec fn plain_pattern(pattern: Seq<char>) -> Seq<char> {
    let slashed = text::replaced(text::trim_of(pattern), "\\"@, "/"@);
    match text::after_prefix(slashed, "./"@) {
        Some(rest) => rest,
        None => slashed,
    }
}

/// A pattern in the form in which it is compared.
pub fn normalize_pattern(pattern: &str) -> (out: String)
    ensures
        out@ == plain_pattern(pattern@),
{
    proof {
        reveal_strlit("\\");
    }
    let slashed = text::replace(text::trim(pattern), "\\", "/");
    match text::strip_prefix(slashed.as_str(), "./") {
        Some(rest) => rest.to_owned(),
        None => slashed,
    }
}

/// A path as patterns see it.
pub open spec fn pattern_text(p: PathModel) -> Seq<char> {
    text::replaced(paths::path_text(p), "\\"@, "/"@)
}

/// A path as patterns see it.
pub fn path_to_pattern(p: &FsPath) -> (out: String)
    ensures
        out@ == pattern_text(p@),
{
    proof {
        reveal_strlit("\\");
    }
    text::replace(p.to_text().as_str(), "\\", "/")
}

/// A text in which every `\` was replaced has none.
proof fn lemma_slashed(s: Seq<char>)
    ensures
        !text::replaced(s, "\\"@, "/"@).contains('\\'),
    decreases s.len(),
{
    reveal_strlit("\\");
    reveal_strlit("/");
    text::lemma_index_from(s, "\\"@, 0);
    let out = text::replaced(s, "\\"@, "/"@);
    match text::index_of(s, "\\"@) {
        Some(i) => {
            let rest = text::replaced(s.skip(i + 1), "\\"@, "/"@);
            lemma_slashed(s.skip(i + 1));
            if out.contains('\\') {
                let k = choose|k: int| 0 <= k < out.len() && out[k] == '\\';
                if k < i {
                    assert(s.subrange(k, k + 1) =~= "\\"@);
                    assert(text::stands_at(s, "\\"@, k));
                } else if k > i {
                    assert(rest[k - i - 1] == '\\');
                }
            }
        },
        None => {
            if s.contains('\\') {
                let k = choose|k: int| 0 <= k < s.len() && s[k] == '\\';
                assert(s.subrange(k, k + 1) =~= "\\"@);
                assert(text::stands_at(s, "\\"@, k));
            }
        },
    }
}

/// Neither a pattern in the form in which it is compared nor a path as
/// patterns see it holds a `\`.
proof fn lemma_patterns_are_slashed(pattern: Seq<char>, p: PathModel)
    ensures
        !plain_pattern(pattern).contains('\\'),
        !pattern_text(p).contains('\\'),
{
    let slashed = text::replaced(text::trim_of(pattern), "\\"@, "/"@);
    lemma_slashed(text::trim_of(pattern));
    lemma_slashed(paths::path_text(p));
    let plain = plain_pattern(pattern);
    if plain.contains('\\') {
        let k = choose|k: int| 0 <= k < plain.len() && plain[k] == '\\';
        assert(slashed[k + slashed.len() - plain.len()] == '\\');
    }
}

/// Whether a glob without a `\` matches a text, or `None` where it is no glob.
/// A `\` in the text is an ordinary character.
pub uninterp spec fn glob_verdict(pattern: Seq<char>, candidate: Seq<char>) -> Option<bool>;

/// `globset`: the pattern is built with `literal_separator(true)` and
/// `backslash_escape(false)` and compiled as a set of one, which reports a
/// pattern that grows too large as an error; then `is_match`. Where `\` is a
/// separator it stands for `/` there, so a text may hold one only where `host`
/// shows that it is an ordinary character.
#[verifier::external_body]
fn glob_match(host: Option<Unix>, pattern: &str, candidate: &str) -> (r: Option<bool>)
    requires
        !pattern@.contains('\\'),
        candidate@.contains('\\') ==> host is Some,
    ensures
        r == glob_verdict(pattern@, candidate@),
{
    let mut builder = globset::GlobBuilder::new(pattern);
    let glob = builder.literal_separator(true).backslash_escape(false).build().ok()?;
    let mut set = globset::GlobSetBuilder::new();
    set.add(glob);
    set.build().ok().map(|matcher| matcher.is_match(candidate))
}

/// Whether `candidate` is the pattern itself.
pub open spec fn same_pattern(candidate: Seq<char>, pattern: Seq<char>) -> bool {
    candidate == pattern || plain_pattern(candidate) == pattern
}

/// Whether a pattern matches a text, as a glob or letter for letter.
pub open spec fn pattern_hits(pattern: Seq<char>, candidate: Seq<char>, exact: bool) -> bool {
    (!exact && glob_verdict(pattern, candidate) == Some(true)) || same_pattern(candidate, pattern)
}

fn is_same_pattern(candidate: &str, pattern: &str) -> (r: bool)
    ensures
        r == same_pattern(candidate@, pattern@),
{
    if text::same(candidate, pattern) {
        return true;
    }
    let plain = normalize_pattern(candidate);
    text::same(plain.as_str(), pattern)
}

fn hits(host: Option<Unix>, pattern: &str, candidate: &str, exact: bool) -> (r: bool)
    requires
        !pattern@.contains('\\'),
        candidate@.contains('\\') ==> host is Some,
    ensures
        r == pattern_hits(pattern@, candidate@, exact),
{
    if !exact {
        match glob_match(host, pattern, candidate) {
            Some(true) => {
                return true;
            },
            _ => {},
        }
    }
    is_same_pattern(candidate, pattern)
}

/// `p` with its links followed, or as it stands where it leads nowhere, in
/// its plain form.
pub open spec fn resolved(fs: Seq<EntryModel>, p: PathModel) -> PathModel {
    match paths::canonical_at(fs, p) {
        Some(c) => paths::plain_path(c),
        None => paths::plain_path(p),
    }
}

/// `p` with its links followed, or as it stands where it leads nowhere, in
/// its plain form.
pub fn resolve_links(fs: &FsTree, p: &FsPath) -> (r: FsPath)
    ensures
        r@ == resolved(fs@, p@),
{
    match fs.resolve(p) {
        Some(c) => c,
        None => p.plain(),
    }
}

/// Whether `pattern` matches the file `path` of a package at `root`: by its
/// way from the root, by its whole path and, unless `exact` is set, by its
/// name; a skill also by the directory that holds it.
pub open spec fn matched(
    fs: Seq<EntryModel>,
    path: PathModel,
    root: PathModel,
    pattern: Seq<char>,
    exact: bool,
    kind: FilterResourceKind,
) -> bool {
    let plain = plain_pattern(pattern);
    let top = resolved(fs, root);
    let rel = match paths::relative_to(path, top) {
        Some(r) => pattern_text(r),
        None => seq![],
    };
    let name = match paths::name_of(path) {
        Some(n) => n,
        None => seq![],
    };
    &&& plain.len() > 0
    &&& {
        ||| pattern_hits(plain, rel, exact)
        ||| !exact && (if path.platform == Platform::Windows && name.contains('\\') {
            same_pattern(name, plain)
        } else {
            pattern_hits(plain, name, exact)
        })
        ||| pattern_hits(plain, pattern_text(path), exact)
        ||| kind == FilterResourceKind::Skills && (paths::parent_of(path) matches Some(parent) && (
        pattern_hits(plain, pattern_text(parent), exact) || (paths::relative_to(
            parent,
            top,
        ) matches Some(r) && pattern_hits(plain, pattern_text(r), exact))))
    }
}

/// Whether `pattern` matches the file `path` of a package at `root`.
pub fn matches_resource_pattern(
    fs: &FsTree,
    path: &FsPath,
    root: &FsPath,
    pattern: &str,
    exact: bool,
    kind: FilterResourceKind,
) -> (r: bool)
    ensures
        r == matched(fs@, path@, root@, pattern@, exact, kind),
{
    let normalized = normalize_pattern(pattern);
    let plain = normalized.as_str();
    if plain.is_empty() {
        return false;
    }
    proof {
        assert forall|p: PathModel| !(#[trigger] pattern_text(p)).contains('\\') by {
            lemma_patterns_are_slashed(pattern@, p);
        }
        lemma_patterns_are_slashed(pattern@, path@);
    }
    let top = resolve_links(fs, root);
    let rel = match path.strip_prefix(&top) {
        Some(r) => path_to_pattern(&r),
        None => String::new(),
    };
    if hits(None, plain, rel.as_str(), exact) {
        return true;
    }
    if !exact {
        let name = match path.file_name() {
            Some(n) => n,
            None => String::new(),
        };
        let host = match path.system {
            System::Unix(unix) => Some(unix),
            System::Windows => None,
        };
        if host.is_none() && text::contains_char(name.as_str(), '\\') {
            if is_same_pattern(name.as_str(), plain) {
                return true;
            }
        } else if hits(host, plain, name.as_str(), exact) {
            return true;
        }
    }
    if hits(None, plain, path_to_pattern(path).as_str(), exact) {
        return true;
    }
    if kind == FilterResourceKind::Skills {
        match path.parent() {
            Some(parent) => {
                if hits(None, plain, path_to_pattern(&parent).as_str(), exact) {
                    return true;
                }
                match parent.strip_prefix(&top) {
                    Some(r) => {
                        return hits(None, plain, path_to_pattern(&r).as_str(), exact);
                    },
                    None => {},
                }
            },
            None => {},
        }
    }
    false
}

/// Whether some pattern of the mode `mode` matches `path`.
pub open spec fn some_pattern(
    fs: Seq<EntryModel>,
    path: PathModel,
    patterns: Seq<Seq<char>>,
    root: PathModel,
    mode: PatternMode,
    exact: bool,
    kind: FilterResourceKind,
) -> bool {
    exists|i: int|
        0 <= i < patterns.len() && mode_and_target(#[trigger] patterns[i]).0 == mode && matched(
            fs,
            path,
            root,
            mode_and_target(patterns[i]).1,
            exact,
            kind,
        )
}

fn any_pattern(
    fs: &FsTree,
    path: &FsPath,
    patterns: &[String],
    root: &FsPath,
    mode: PatternMode,
    exact: bool,
    kind: FilterResourceKind,
) -> (r: bool)
    ensures
        r == some_pattern(fs@, path@, text::texts(patterns@), root@, mode, exact, kind),
{
    let mut i: usize = 0;
    while i < patterns.len()
        invariant
            i <= patterns@.len(),
            forall|j: int|
                0 <= j < i ==> !(mode_and_target(#[trigger] text::texts(patterns@)[j]).0 == mode
                    && matched(
                    fs@,
                    path@,
                    root@,
                    mode_and_target(text::texts(patterns@)[j]).1,
                    exact,
                    kind,
                )),
        decreases patterns.len() - i,
    {
        let (found, target) = pattern_mode(patterns[i].as_str());
        assert(text::texts(patterns@)[i as int] == patterns@[i as int]@);
        if found == mode && matches_resource_pattern(fs, path, root, target, exact, kind) {
            return true;
        }
        i += 1;
    }
    false
}

/// Whether no pattern includes files: then all files are included.
pub open spec fn no_includes(patterns: Seq<Seq<char>>) -> bool {
    forall|i: int|
        0 <= i < patterns.len() ==> mode_and_target(#[trigger] patterns[i]).0
            != PatternMode::Include
}

fn lacks_includes(patterns: &[String]) -> (r: bool)
    ensures
        r == no_includes(text::texts(patterns@)),
{
    let mut i: usize = 0;
    while i < patterns.len()
        invariant
            i <= patterns@.len(),
            forall|j: int|
                0 <= j < i ==> mode_and_target(#[trigger] text::texts(patterns@)[j]).0
                    != PatternMode::Include,
        decreases patterns.len() - i,
    {
        assert(text::texts(patterns@)[i as int] == patterns@[i as int]@);
        if pattern_mode(patterns[i].as_str()).0 == PatternMode::Include {
            return false;
        }
        i += 1;
    }
    true
}

/// Whether the patterns select `path`: it is included and not excluded, or
/// it is forced in; and it is not forced out.
pub open spec fn selected(
    fs: Seq<EntryModel>,
    path: PathModel,
    patterns: Seq<Seq<char>>,
    root: PathModel,
    kind: FilterResourceKind,
) -> bool {
    let included = no_includes(patterns) || some_pattern(
        fs,
        path,
        patterns,
        root,
        PatternMode::Include,
        false,
        kind,
    );
    let excluded = some_pattern(fs, path, patterns, root, PatternMode::Exclude, false, kind);
    let forced_in = some_pattern(fs, path, patterns, root, PatternMode::ForceInclude, true, kind);
    let forced_out = some_pattern(fs, path, patterns, root, PatternMode::ForceExclude, true, kind);
    ((included && !excluded) || forced_in) && !forced_out
}

/// The sorted list of those of the first `n` of `all` that the patterns
/// select.
pub open spec fn selection(
    fs: Seq<EntryModel>,
    all: Seq<PathModel>,
    n: int,
    patterns: Seq<Seq<char>>,
    root: PathModel,
    kind: FilterResourceKind,
) -> Seq<PathModel>
    decreases n,
{
    if n <= 0 {
        seq![]
    } else {
        let rest = selection(fs, all, n - 1, patterns, root, kind);
        if selected(fs, all[n - 1], patterns, root, kind) {
            paths::with_path(rest, all[n - 1])
        } else {
            rest
        }
    }
}

/// The sorted list of those of `all` that the patterns select.
pub fn apply_resource_patterns(
    fs: &FsTree,
    all: &[FsPath],
    patterns: &[String],
    base: &FsPath,
    kind: FilterResourceKind,
) -> (out: Vec<FsPath>)
    ensures
        paths::path_views(out@) == selection(
            fs@,
            paths::path_views(all@),
            all@.len() as int,
            text::texts(patterns@),
            base@,
            kind,
        ),
{
    let mut out: Vec<FsPath> = Vec::new();
    let everything = lacks_includes(patterns);
    assert(paths::path_views(out@) =~= seq![]);
    let mut i: usize = 0;
    while i < all.len()
        invariant
            i <= all@.len(),
            everything == no_includes(text::texts(patterns@)),
            paths::path_views(out@) == selection(
                fs@,
                paths::path_views(all@),
                i as int,
                text::texts(patterns@),
                base@,
                kind,
            ),
        decreases all.len() - i,
    {
        let path = &all[i];
        assert(paths::path_views(all@)[i as int] == path@);
        let included = everything || any_pattern(
            fs,
            path,
            patterns,
            base,
            PatternMode::Include,
            false,
            kind,
        );
        let kept = included && !any_pattern(
            fs,
            path,
            patterns,
            base,
            PatternMode::Exclude,
            false,
            kind,
        );
        if (kept || any_pattern(fs, path, patterns, base, PatternMode::ForceInclude, true, kind))
            && !any_pattern(fs, path, patterns, base, PatternMode::ForceExclude, true, kind) {
            paths::insert_path(&mut out, path.copy());
        }
        i += 1;
    }
    out
}

/// Whether `path` is on after the first `n` patterns are applied in turn:
/// the last pattern that matches decides, and `start` where none does.
pub open spec fn toggled(
    fs: Seq<EntryModel>,
    path: PathModel,
    patterns: Seq<Seq<char>>,
    n: int,
    root: PathModel,
    kind: FilterResourceKind,
    start: bool,
) -> bool
    decreases n,
{
    if n <= 0 {
        start
    } else {
        let (mode, target) = mode_and_target(patterns[n - 1]);
        let exact = mode == PatternMode::ForceInclude || mode == PatternMode::ForceExclude;
        if matched(fs, path, root, target, exact, kind) {
            mode == PatternMode::Include || mode == PatternMode::ForceInclude
        } else {
            toggled(fs, path, patterns, n - 1, root, kind, start)
        }
    }
}

fn toggle(
    fs: &FsTree,
    path: &FsPath,
    patterns: &[String],
    root: &FsPath,
    kind: FilterResourceKind,
    start: bool,
) -> (r: bool)
    ensures
        r == toggled(
            fs@,
            path@,
            text::texts(patterns@),
            patterns@.len() as int,
            root@,
            kind,
            start,
        ),
{
    let mut n: usize = patterns.len();
    while n > 0
        invariant
            n <= patterns@.len(),
            toggled(
                fs@,
                path@,
                text::texts(patterns@),
                patterns@.len() as int,
                root@,
                kind,
                start,
            ) == toggled(fs@, path@, text::texts(patterns@), n as int, root@, kind, start),
        decreases n,
    {
        let (mode, target) = pattern_mode(patterns[n - 1].as_str());
        assert(text::texts(patterns@)[n - 1] == patterns@[n - 1]@);
        let exact = mode == PatternMode::ForceInclude || mode == PatternMode::ForceExclude;
        if matches_resource_pattern(fs, path, root, target, exact, kind) {
            return mode == PatternMode::Include || mode == PatternMode::ForceInclude;
        }
        n -= 1;
    }
    start
}

/// The sorted list of those of the first `n` of `all` that the patterns turn
/// on, where each is on before exactly if `initial` has it.
pub open spec fn turned_on(
    fs: Seq<EntryModel>,
    all: Seq<PathModel>,
    n: int,
    patterns: Seq<Seq<char>>,
    root: PathModel,
    kind: FilterResourceKind,
    initial: Seq<PathModel>,
) -> Seq<PathModel>
    decreases n,
{
    if n <= 0 {
        seq![]
    } else {
        let rest = turned_on(fs, all, n - 1, patterns, root, kind, initial);
        if toggled(
            fs,
            all[n - 1],
            patterns,
            patterns.len() as int,
            root,
            kind,
            paths::lists(initial, all[n - 1]),
        ) {
            paths::with_path(rest, all[n - 1])
        } else {
            rest
        }
    }
}

fn turn_on(
    fs: &FsTree,
    all: &[FsPath],
    patterns: &[String],
    root: &FsPath,
    kind: FilterResourceKind,
    initial: &[FsPath],
) -> (out: Vec<FsPath>)
    ensures
        paths::path_views(out@) == turned_on(
            fs@,
            paths::path_views(all@),
            all@.len() as int,
            text::texts(patterns@),
            root@,
            kind,
            paths::path_views(initial@),
        ),
{
    let mut out: Vec<FsPath> = Vec::new();
    assert(paths::path_views(out@) =~= seq![]);
    let mut i: usize = 0;
    while i < all.len()
        invariant
            i <= all@.len(),
            paths::path_views(out@) == turned_on(
                fs@,
                paths::path_views(all@),
                i as int,
                text::texts(patterns@),
                root@,
                kind,
                paths::path_views(initial@),
            ),
        decreases all.len() - i,
    {
        let path = &all[i];
        assert(paths::path_views(all@)[i as int] == path@);
        let start = paths::path_listed(initial, path);
        assert(text::texts(patterns@).len() == patterns@.len());
        if toggle(fs, path, patterns, root, kind, start) {
            paths::insert_path(&mut out, path.copy());
        }
        i += 1;
    }
    out
}

/// `candidate` with its links followed, where that lies within `boundary`.
pub open spec fn contained(
    fs: Seq<EntryModel>,
    boundary: PathModel,
    candidate: PathModel,
) -> Option<PathModel> {
    match (paths::plain_at(fs, boundary), paths::plain_at(fs, candidate)) {
        (Some(top), Some(found)) => if paths::lies_in(found, top) {
            Some(found)
        } else {
            None
        },
        _ => None,
    }
}

/// `candidate` with its links followed, where that lies within `boundary`.
pub fn validated_resource_path(fs: &FsTree, boundary: &FsPath, candidate: &FsPath) -> (r: Option<
    FsPath,
>)
    ensures
        paths::opt_path(r) == contained(fs@, boundary@, candidate@),
{
    match fs.resolve(boundary) {
        Some(top) => match fs.resolve(candidate) {
            Some(found) => if found.is_in(&top) {
                Some(found)
            } else {
                None
            },
            None => None,
        },
        None => None,
    }
}

/// The path that a manifest entry names below `base`, where it leads within
/// `boundary`.
pub open spec fn entry_path(
    fs: Seq<EntryModel>,
    boundary: PathModel,
    base: PathModel,
    value: Seq<char>,
) -> Option<PathModel> {
    let trimmed = text::trim_of(value);
    if trimmed.len() == 0 || paths::path_of(base.platform, trimmed).absolute() {
        None
    } else {
        match paths::plain_at(fs, base) {
            None => None,
            Some(top) => {
                let candidate = paths::plain_path(paths::below(top, trimmed));
                if contained(fs, boundary, candidate) is Some {
                    Some(candidate)
                } else {
                    None
                }
            },
        }
    }
}

/// The path that a manifest entry names below `base`, where it leads within
/// `boundary`.
pub fn safe_resource_path_from(fs: &FsTree, boundary: &FsPath, base: &FsPath, value: &str) -> (r:
    Option<FsPath>)
    ensures
        paths::opt_path(r) == entry_path(fs@, boundary@, base@, value@),
{
    let trimmed = text::trim(value);
    let relative = FsPath::parse_on(base.system, trimmed);
    if trimmed.is_empty() || relative.is_absolute() {
        return None;
    }
    match fs.resolve(base) {
        Some(top) => {
            let candidate = top.below(trimmed).plain();
            match validated_resource_path(fs, boundary, &candidate) {
                Some(_) => Some(candidate),
                None => None,
            }
        },
        None => None,
    }
}

/// What follows the last dot of a file name that does not start with it.
pub open spec fn extension_of(name: Seq<char>) -> Option<Seq<char>> {
    match text::last_index_of(name, "."@) {
        Some(i) => if i > 0 {
            Some(name.skip(i + 1))
        } else {
            None
        },
        None => None,
    }
}

/// A file name without its extension.
pub open spec fn stem_of(name: Seq<char>) -> Seq<char> {
    match text::last_index_of(name, "."@) {
        Some(i) => if i > 0 {
            name.take(i)
        } else {
            name
        },
        None => name,
    }
}

/// A file name's stem and extension.
pub fn split_extension(name: &str) -> (r: (String, Option<String>))
    ensures
        r.0@ == stem_of(name@),
        text::opt_text(r.1) == extension_of(name@),
{
    proof {
        reveal_strlit(".");
    }
    match text::rfind(name, ".") {
        Some(i) => {
            if i > 0 {
                (text::take(name, i).to_owned(), Some(text::skip(name, i + 1).to_owned()))
            } else {
                (name.to_owned(), None)
            }
        },
        None => (name.to_owned(), None),
    }
}

/// Whether a file is one of the kind, by its extension.
pub open spec fn resource_file(path: PathModel, kind: FilterResourceKind) -> bool {
    match paths::name_of(path) {
        None => false,
        Some(name) => match extension_of(name) {
            None => false,
            Some(extension) => match kind {
                FilterResourceKind::Extensions => extension == "js"@ || extension == "ts"@,
                FilterResourceKind::Skills => extension == "md"@,
                FilterResourceKind::Prompts => extension == "md"@,
                FilterResourceKind::Themes => extension == "json"@,
            },
        },
    }
}

/// Whether a file is one of the kind, by its extension.
pub fn valid_resource_file(path: &FsPath, kind: FilterResourceKind) -> (r: bool)
    ensures
        r == resource_file(path@, kind),
{
    let name = match path.file_name() {
        Some(name) => name,
        None => {
            return false;
        },
    };
    match split_extension(name.as_str()).1 {
        Some(extension) => {
            let e = extension.as_str();
            match kind {
                FilterResourceKind::Extensions => text::same(e, "js") || text::same(e, "ts"),
                FilterResourceKind::Skills => text::same(e, "md"),
                FilterResourceKind::Prompts => text::same(e, "md"),
                FilterResourceKind::Themes => text::same(e, "json"),
            }
        },
        None => false,
    }
}

/// Those of the first `n` names that are not hidden and, where `all` is not
/// set, not `node_modules`.
pub open spec fn visible_names(names: Seq<Seq<char>>, n: int, all: bool) -> Seq<Seq<char>>
    decreases n,
{
    if n <= 0 {
        seq![]
    } else {
        let rest = visible_names(names, n - 1, all);
        if !text::first_is(names[n - 1], '.') && (all || names[n - 1] != "node_modules"@) {
            rest.push(names[n - 1])
        } else {
            rest
        }
    }
}

/// The entries of a directory that are looked at.
pub open spec fn visible_at(fs: Seq<EntryModel>, dir: PathModel, all: bool) -> Seq<Seq<char>> {
    visible_names(
        paths::children_at(fs, dir),
        paths::children_at(fs, dir).len() as int,
        all,
    )
}

/// The entries of a directory that are looked at: those that are not hidden
/// and, where `all` is not set, not `node_modules`.
pub fn visible_directory_entries(fs: &FsTree, dir: &FsPath, all: bool) -> (out: Vec<String>)
    ensures
        text::texts(out@) == visible_at(fs@, dir@, all),
{
    let names = fs.read_dir(dir);
    let mut out: Vec<String> = Vec::new();
    assert(text::texts(out@) =~= seq![]);
    let mut i: usize = 0;
    while i < names.len()
        invariant
            i <= names@.len(),
            text::texts(names@) == paths::children_at(fs@, dir@),
            text::texts(out@) == visible_names(text::texts(names@), i as int, all),
        decreases names.len() - i,
    {
        let name = names[i].as_str();
        assert(text::texts(names@)[i as int] == name@);
        if !text::starts_with_char(name, '.') && (all || !text::same(name, "node_modules")) {
            text::push_text(&mut out, name);
        }
        i += 1;
    }
    assert(text::texts(names@).len() == names@.len());
    out
}

/// What a manifest has under `key`: its own `rpi` section first, then its
/// `pi` section, then the manifest itself.
pub open spec fn keyed(manifest: Option<Seq<char>>, key: Seq<char>) -> Option<Seq<char>> {
    match manifest {
        None => None,
        Some(doc) => match section_value(doc, "rpi"@, key) {
            Some(value) => Some(value),
            None => match section_value(doc, "pi"@, key) {
                Some(value) => Some(value),
                None => json::get_of(doc, key),
            },
        },
    }
}

/// What a section of a manifest has under `key`.
pub open spec fn section_value(doc: Seq<char>, section: Seq<char>, key: Seq<char>) -> Option<
    Seq<char>,
> {
    match json::get_of(doc, section) {
        Some(part) => json::get_of(part, key),
        None => None,
    }
}

fn in_section(doc: &str, section: &str, key: &str) -> (r: Option<String>)
    ensures
        text::opt_text(r) == section_value(doc@, section@, key@),
{
    match json::get(doc, section) {
        Some(part) => json::get(part.as_str(), key),
        None => None,
    }
}

/// What a manifest has under `key`.
pub fn manifest_value(manifest: &Option<String>, key: &str) -> (r: Option<String>)
    ensures
        text::opt_text(r) == keyed(text::opt_text(*manifest), key@),
{
    match manifest {
        Some(doc) => {
            match in_section(doc.as_str(), "rpi", key) {
                Some(value) => {
                    return Some(value);
                },
                None => {},
            }
            match in_section(doc.as_str(), "pi", key) {
                Some(value) => {
                    return Some(value);
                },
                None => {},
            }
            json::get(doc.as_str(), key)
        },
        None => None,
    }
}

/// The extension entries that the manifest of a directory lists.
pub open spec fn listed_extensions(fs: Seq<EntryModel>, dir: PathModel) -> Option<Seq<Seq<char>>> {
    match paths::text_at(fs, paths::below(dir, "package.json"@)) {
        None => None,
        Some(raw) => match json::document_of(raw) {
            Err(_) => None,
            Ok(doc) => match keyed(Some(doc), "extensions"@) {
                None => None,
                Some(value) => if json::strings_in(value).len() > 0 {
                    Some(json::strings_in(value))
                } else {
                    None
                },
            },
        },
    }
}

/// The extension entries that the manifest of a directory lists.
pub fn extension_manifest_entries(fs: &FsTree, dir: &FsPath) -> (r: Option<Vec<String>>)
    ensures
        (match r {
            Some(v) => Some(text::texts(v@)),
            None => None,
        }) == listed_extensions(fs@, dir@),
{
    let raw = match fs.read_text(&dir.below("package.json")) {
        Some(raw) => raw,
        None => {
            return None;
        },
    };
    let doc = match json::parse_json_with_comments(raw.as_str()) {
        Ok(doc) => doc,
        Err(_) => {
            return None;
        },
    };
    match manifest_value(&Some(doc), "extensions") {
        Some(value) => {
            let entries = json::string_values(value.as_str());
            assert(text::texts(entries@).len() == entries@.len());
            if entries.len() > 0 {
                Some(entries)
            } else {
                None
            }
        },
        None => None,
    }
}

/// What a search has found, and the directories that it has been in.
pub struct Walk {
    pub out: Vec<FsPath>,
    pub visited: Vec<FsPath>,
}

/// The model of `Walk`.
#[verifier::ext_equal]
pub struct WalkModel {
    pub out: Seq<PathModel>,
    pub visited: Seq<PathModel>,
}

impl View for Walk {
    type V = WalkModel;

    open spec fn view(&self) -> WalkModel {
        WalkModel {
            out: paths::path_views(self.out@),
            visited: paths::path_views(self.visited@),
        }
    }
}

impl Walk {
    fn find(&mut self, p: FsPath)
        ensures
            final(self)@ == found(old(self)@, p@),
    {
        paths::insert_path(&mut self.out, p);
    }

    fn visit(&mut self, p: FsPath)
        ensures
            final(self)@ == entered(old(self)@, p@),
    {
        self.visited.push(p);
        assert(paths::path_views(self.visited@) =~= paths::path_views(old(self).visited@).push(
            p@,
        ));
    }
}

/// A search that has found `p`.
pub open spec fn found(w: WalkModel, p: PathModel) -> WalkModel {
    WalkModel { out: paths::with_path(w.out, p), ..w }
}

/// A search that has entered the directory `p`.
pub open spec fn entered(w: WalkModel, p: PathModel) -> WalkModel {
    WalkModel { visited: w.visited.push(p), ..w }
}

/// The glob search below `base`, over the entries of `dir` from the `i`th
/// on. Directories that were entered are not entered again, so no way down
/// is longer than the tree has entries; `depth` counts that down.
pub open spec fn globbed(
    fs: Seq<EntryModel>,
    boundary: PathModel,
    base: PathModel,
    dir: PathModel,
    names: Seq<Seq<char>>,
    i: int,
    pattern: Seq<char>,
    w: WalkModel,
    depth: nat,
) -> WalkModel
    decreases depth, names.len() - i,
{
    if i < 0 || i >= names.len() {
        w
    } else {
        let path = paths::plain_path(paths::below(dir, names[i]));
        let next = match contained(fs, boundary, path) {
            None => w,
            Some(canonical) => match paths::relative_to(path, base) {
                None => w,
                Some(way) => {
                    let relative = pattern_text(way);
                    let is_dir = paths::dir_at(fs, path);
                    let hit = glob_verdict(pattern, relative) == Some(true) || (is_dir
                        && glob_verdict(pattern, relative + "/"@) == Some(true));
                    let w1 = if hit {
                        found(w, path)
                    } else {
                        w
                    };
                    if is_dir && !paths::lists(w1.visited, canonical) && depth > 0 {
                        let inner = visible_at(fs, path, true);
                        globbed(
                            fs,
                            boundary,
                            base,
                            path,
                            inner,
                            0,
                            pattern,
                            entered(w1, canonical),
                            (depth - 1) as nat,
                        )
                    } else {
                        w1
                    }
                },
            },
        };
        globbed(fs, boundary, base, dir, names, i + 1, pattern, next, depth)
    }
}

proof fn lemma_slash_behind(s: Seq<char>)
    requires
        !s.contains('\\'),
    ensures
        !(s + "/"@).contains('\\'),
{
    reveal_strlit("/");
    if (s + "/"@).contains('\\') {
        let k = choose|k: int| 0 <= k < s.len() + 1 && (s + "/"@)[k] == '\\';
        assert(k < s.len() && s[k] == '\\');
    }
}

fn walk_resource_glob(
    fs: &FsTree,
    boundary: &FsPath,
    base: &FsPath,
    dir: &FsPath,
    pattern: &str,
    w: &mut Walk,
    depth: usize,
)
    requires
        !pattern@.contains('\\'),
    ensures
        final(w)@ == globbed(
            fs@,
            boundary@,
            base@,
            dir@,
            visible_at(fs@, dir@, true),
            0,
            pattern@,
            old(w)@,
            depth as nat,
        ),
    decreases depth,
{
    let names = visible_directory_entries(fs, dir, true);
    let ghost all = text::texts(names@);
    let mut i: usize = 0;
    while i < names.len()
        invariant
            i <= names@.len(),
            !pattern@.contains('\\'),
            all == text::texts(names@),
            all == visible_at(fs@, dir@, true),
            globbed(fs@, boundary@, base@, dir@, all, 0, pattern@, old(w)@, depth as nat)
                == globbed(
                fs@,
                boundary@,
                base@,
                dir@,
                all,
                i as int,
                pattern@,
                w@,
                depth as nat,
            ),
        decreases names.len() - i,
    {
        assert(all[i as int] == names@[i as int]@);
        let path = dir.below(names[i].as_str()).plain();
        match validated_resource_path(fs, boundary, &path) {
            Some(canonical) => {
                match path.strip_prefix(base) {
                    Some(way) => {
                        let relative = path_to_pattern(&way);
                        let is_dir = fs.is_dir(&path);
                        proof {
                            lemma_patterns_are_slashed(pattern@, way@);
                            lemma_slash_behind(pattern_text(way@));
                        }
                        let mut hit = glob_match(None, pattern, relative.as_str()) == Some(true);
                        if !hit && is_dir {
                            hit = glob_match(None, pattern, text::cat(relative.as_str(), "/").as_str())
                                == Some(true);
                        }
                        if hit {
                            w.find(path.copy());
                        }
                        if is_dir && !paths::path_listed(w.visited.as_slice(), &canonical) && depth
                            > 0 {
                            w.visit(canonical);
                            walk_resource_glob(fs, boundary, base, &path, pattern, w, depth - 1);
                        }
                    },
                    None => {},
                }
            },
            None => {},
        }
        i += 1;
    }
    assert(all.len() == names@.len());
}

/// The paths below `base` that a glob entry of a manifest names.
pub open spec fn glob_paths(
    fs: Seq<EntryModel>,
    boundary: PathModel,
    base: PathModel,
    pattern: Seq<char>,
) -> Seq<PathModel> {
    let plain = plain_pattern(pattern);
    let spelled = paths::path_of(base.platform, plain);
    if plain.len() == 0 || spelled.absolute() || spelled.parts.contains(".."@) || glob_verdict(
        plain,
        ""@,
    ) is None {
        seq![]
    } else {
        match contained(fs, boundary, base) {
            None => seq![],
            Some(top) => if !paths::dir_at(fs, top) {
                seq![]
            } else {
                globbed(
                    fs,
                    boundary,
                    base,
                    base,
                    visible_at(fs, base, true),
                    0,
                    plain,
                    WalkModel { out: seq![], visited: seq![top] },
                    fs.len(),
                ).out
            },
        }
    }
}

fn names_parent(p: &FsPath) -> (r: bool)
    ensures
        r == p@.parts.contains(".."@),
{
    text::listed(p.parts.as_slice(), "..")
}

/// The paths below `base` that a glob entry of a manifest names.
pub fn expand_resource_glob(fs: &FsTree, boundary: &FsPath, base: &FsPath, pattern: &str) -> (out:
    Vec<FsPath>)
    ensures
        paths::path_views(out@) == glob_paths(fs@, boundary@, base@, pattern@),
{
    let nothing: Vec<FsPath> = Vec::new();
    assert(paths::path_views(nothing@) =~= seq![]);
    let plain = normalize_pattern(pattern);
    proof {
        reveal_strlit("");
        lemma_patterns_are_slashed(pattern@, base@);
    }
    let spelled = FsPath::parse_on(base.system, plain.as_str());
    if plain.as_str().is_empty() || spelled.is_absolute() || names_parent(&spelled) || glob_match(
        None,
        plain.as_str(),
        "",
    ).is_none() {
        return nothing;
    }
    let top = match validated_resource_path(fs, boundary, base) {
        Some(top) => top,
        None => {
            return nothing;
        },
    };
    if !fs.is_dir(&top) {
        return nothing;
    }
    let mut visited: Vec<FsPath> = Vec::new();
    visited.push(top);
    let mut w = Walk { out: nothing, visited };
    assert(w@.visited =~= seq![top@]);
    walk_resource_glob(fs, boundary, base, base, plain.as_str(), &mut w, fs.entries.len());
    w.out
}

/// The paths that one entry of a manifest names.
pub open spec fn sources_of(
    fs: Seq<EntryModel>,
    boundary: PathModel,
    base: PathModel,
    entry: Seq<char>,
) -> Seq<PathModel> {
    if entry.contains('*') || entry.contains('?') {
        glob_paths(fs, boundary, base, entry)
    } else {
        match entry_path(fs, boundary, base, entry) {
            Some(p) => seq![p],
            None => seq![],
        }
    }
}

fn entry_sources(fs: &FsTree, boundary: &FsPath, base: &FsPath, entry: &str) -> (out: Vec<FsPath>)
    ensures
        paths::path_views(out@) == sources_of(fs@, boundary@, base@, entry@),
{
    if has_glob_pattern(entry) {
        expand_resource_glob(fs, boundary, base, entry)
    } else {
        let mut out: Vec<FsPath> = Vec::new();
        match safe_resource_path_from(fs, boundary, base, entry) {
            Some(p) => {
                out.push(p);
                assert(paths::path_views(out@) =~= seq![p@]);
            },
            None => {
                assert(paths::path_views(out@) =~= seq![]);
            },
        }
        out
    }
}

/// The resource files at or below `path`.
pub open spec fn collected(
    fs: Seq<EntryModel>,
    boundary: PathModel,
    path: PathModel,
    kind: FilterResourceKind,
    w: WalkModel,
    depth: nat,
) -> WalkModel
    decreases depth, 0nat, 0int,
{
    match contained(fs, boundary, path) {
        None => w,
        Some(canonical) => if paths::file_at(fs, path) {
            if resource_file(path, kind) {
                found(w, canonical)
            } else {
                w
            }
        } else if !paths::dir_at(fs, path) || paths::lists(w.visited, canonical) || depth == 0 {
            w
        } else {
            let w1 = entered(w, canonical);
            let lower = (depth - 1) as nat;
            match kind {
                FilterResourceKind::Extensions => extension_dir(fs, boundary, path, w1, lower),
                FilterResourceKind::Skills => skill_dir(fs, boundary, path, path, w1, lower),
                _ => collected_below(
                    fs,
                    boundary,
                    path,
                    visible_at(fs, path, false),
                    0,
                    kind,
                    w1,
                    lower,
                ),
            }
        },
    }
}

/// The resource files at or below the entries of `dir` from the `i`th on.
pub open spec fn collected_below(
    fs: Seq<EntryModel>,
    boundary: PathModel,
    dir: PathModel,
    names: Seq<Seq<char>>,
    i: int,
    kind: FilterResourceKind,
    w: WalkModel,
    depth: nat,
) -> WalkModel
    decreases depth, 1nat, names.len() - i,
{
    if i < 0 || i >= names.len() {
        w
    } else {
        collected_below(
            fs,
            boundary,
            dir,
            names,
            i + 1,
            kind,
            collected(fs, boundary, paths::below(dir, names[i]), kind, w, depth),
            depth,
        )
    }
}

/// The resource files at or below each of `sources` from the `i`th on.
pub open spec fn collected_from(
    fs: Seq<EntryModel>,
    boundary: PathModel,
    sources: Seq<PathModel>,
    i: int,
    kind: FilterResourceKind,
    w: WalkModel,
    depth: nat,
) -> WalkModel
    decreases depth, 1nat, sources.len() - i,
{
    if i < 0 || i >= sources.len() {
        w
    } else {
        collected_from(
            fs,
            boundary,
            sources,
            i + 1,
            kind,
            collected(fs, boundary, sources[i], kind, w, depth),
            depth,
        )
    }
}

/// What the entries of a manifest from the `i`th on name, and whether they
/// name anything. Entries that change what others select name nothing.
pub open spec fn manifest_walk(
    fs: Seq<EntryModel>,
    boundary: PathModel,
    base: PathModel,
    entries: Seq<Seq<char>>,
    i: int,
    kind: FilterResourceKind,
    w: WalkModel,
    any: bool,
    depth: nat,
) -> (WalkModel, bool)
    decreases depth, 2nat, entries.len() - i,
{
    if i < 0 || i >= entries.len() {
        (w, any)
    } else if override_pattern(entries[i]) {
        manifest_walk(fs, boundary, base, entries, i + 1, kind, w, any, depth)
    } else {
        let sources = sources_of(fs, boundary, base, entries[i]);
        manifest_walk(
            fs,
            boundary,
            base,
            entries,
            i + 1,
            kind,
            collected_from(fs, boundary, sources, 0, kind, w, depth),
            any || sources.len() > 0,
            depth,
        )
    }
}

/// The entries among the first `n` that change what others select.
pub open spec fn overrides_among(entries: Seq<Seq<char>>, n: int) -> Seq<Seq<char>>
    decreases n,
{
    if n <= 0 {
        seq![]
    } else if override_pattern(entries[n - 1]) {
        overrides_among(entries, n - 1).push(entries[n - 1])
    } else {
        overrides_among(entries, n - 1)
    }
}

/// What a manifest's entries select.
pub struct ManifestResourceResolution {
    pub paths: Vec<FsPath>,
    pub had_source: bool,
}

/// What a manifest's entries select, whether they name anything, and the
/// directories that the search has been in.
pub open spec fn manifest_resources(
    fs: Seq<EntryModel>,
    boundary: PathModel,
    base: PathModel,
    entries: Seq<Seq<char>>,
    kind: FilterResourceKind,
    visited: Seq<PathModel>,
    depth: nat,
) -> (Seq<PathModel>, bool, Seq<PathModel>)
    decreases depth, 3nat, 0int,
{
    let (w, any) = manifest_walk(
        fs,
        boundary,
        base,
        entries,
        0,
        kind,
        WalkModel { out: seq![], visited },
        false,
        depth,
    );
    let patterns = overrides_among(entries, entries.len() as int);
    (
        selection(fs, w.out, w.out.len() as int, patterns, resolved(fs, base), kind),
        any,
        w.visited,
    )
}

/// The index file of an extension directory.
pub open spec fn index_file(fs: Seq<EntryModel>, boundary: PathModel, dir: PathModel) -> Option<
    PathModel,
> {
    let ts = paths::below(dir, "index.ts"@);
    let js = paths::below(dir, "index.js"@);
    if contained(fs, boundary, ts) is Some && paths::file_at(fs, ts) {
        contained(fs, boundary, ts)
    } else if contained(fs, boundary, js) is Some && paths::file_at(fs, js) {
        contained(fs, boundary, js)
    } else {
        None
    }
}

fn find_index_file(fs: &FsTree, boundary: &FsPath, dir: &FsPath) -> (r: Option<FsPath>)
    ensures
        paths::opt_path(r) == index_file(fs@, boundary@, dir@),
{
    let ts = dir.below("index.ts");
    match validated_resource_path(fs, boundary, &ts) {
        Some(canonical) => if fs.is_file(&ts) {
            return Some(canonical);
        },
        None => {},
    }
    let js = dir.below("index.js");
    match validated_resource_path(fs, boundary, &js) {
        Some(canonical) => if fs.is_file(&js) {
            Some(canonical)
        } else {
            None
        },
        None => None,
    }
}

/// The extension that a directory is: what its manifest lists, or its index
/// file. The flag says whether it is one.
pub open spec fn extension_entry(
    fs: Seq<EntryModel>,
    boundary: PathModel,
    dir: PathModel,
    w: WalkModel,
    depth: nat,
) -> (WalkModel, bool)
    decreases depth, 4nat, 0int,
{
    match listed_extensions(fs, dir) {
        Some(entries) => {
            let (selected_paths, any, visited) = manifest_resources(
                fs,
                boundary,
                dir,
                entries,
                FilterResourceKind::Extensions,
                w.visited,
                depth,
            );
            let w1 = WalkModel { visited, ..w };
            if any {
                (
                    WalkModel {
                        out: paths::with_paths(
                            w1.out,
                            selected_paths,
                            selected_paths.len() as int,
                        ),
                        ..w1
                    },
                    true,
                )
            } else {
                match index_file(fs, boundary, dir) {
                    Some(p) => (found(w1, p), true),
                    None => (w1, false),
                }
            }
        },
        None => match index_file(fs, boundary, dir) {
            Some(p) => (found(w, p), true),
            None => (w, false),
        },
    }
}

/// The extensions of a directory: the one that it is, or else its files and
/// those of its directories that are one.
pub open spec fn extension_dir(
    fs: Seq<EntryModel>,
    boundary: PathModel,
    dir: PathModel,
    w: WalkModel,
    depth: nat,
) -> WalkModel
    decreases depth, 6nat, 0int,
{
    let (w1, done) = extension_entry(fs, boundary, dir, w, depth);
    if done {
        w1
    } else {
        extensions_below(fs, boundary, dir, visible_at(fs, dir, false), 0, w1, depth)
    }
}

/// The extensions among the entries of `dir` from the `i`th on.
pub open spec fn extensions_below(
    fs: Seq<EntryModel>,
    boundary: PathModel,
    dir: PathModel,
    names: Seq<Seq<char>>,
    i: int,
    w: WalkModel,
    depth: nat,
) -> WalkModel
    decreases depth, 5nat, names.len() - i,
{
    if i < 0 || i >= names.len() {
        w
    } else {
        let path = paths::below(dir, names[i]);
        let next = if paths::file_at(fs, path) {
            match contained(fs, boundary, path) {
                Some(canonical) => if resource_file(path, FilterResourceKind::Extensions) {
                    found(w, canonical)
                } else {
                    w
                },
                None => w,
            }
        } else if paths::dir_at(fs, path) {
            match contained(fs, boundary, path) {
                Some(canonical) => if paths::lists(w.visited, canonical) {
                    w
                } else {
                    extension_entry(fs, boundary, path, entered(w, canonical), depth).0
                },
                None => w,
            }
        } else {
            w
        };
        extensions_below(fs, boundary, dir, names, i + 1, next, depth)
    }
}

/// The skills of a directory: its `SKILL.md`, or else those of its
/// directories and, at the top, its own files.
pub open spec fn skill_dir(
    fs: Seq<EntryModel>,
    boundary: PathModel,
    dir: PathModel,
    top: PathModel,
    w: WalkModel,
    depth: nat,
) -> WalkModel
    decreases depth, 6nat, 0int,
{
    let skill = paths::below(dir, "SKILL.md"@);
    match contained(fs, boundary, skill) {
        Some(canonical) => if paths::file_at(fs, skill) {
            found(w, canonical)
        } else {
            skills_below(fs, boundary, dir, top, visible_at(fs, dir, false), 0, w, depth)
        },
        None => skills_below(fs, boundary, dir, top, visible_at(fs, dir, false), 0, w, depth),
    }
}

/// The skills among the entries of `dir` from the `i`th on.
pub open spec fn skills_below(
    fs: Seq<EntryModel>,
    boundary: PathModel,
    dir: PathModel,
    top: PathModel,
    names: Seq<Seq<char>>,
    i: int,
    w: WalkModel,
    depth: nat,
) -> WalkModel
    decreases depth, 5nat, names.len() - i,
{
    if i < 0 || i >= names.len() {
        w
    } else {
        let path = paths::below(dir, names[i]);
        let next = match contained(fs, boundary, path) {
            None => w,
            Some(canonical) => if paths::file_at(fs, path) {
                if paths::same_path(dir, top) && resource_file(path, FilterResourceKind::Skills) {
                    found(w, canonical)
                } else {
                    w
                }
            } else if paths::dir_at(fs, path) && !paths::lists(w.visited, canonical) && depth > 0 {
                skill_dir(fs, boundary, path, top, entered(w, canonical), (depth - 1) as nat)
            } else {
                w
            },
        };
        skills_below(fs, boundary, dir, top, names, i + 1, next, depth)
    }
}

/// The resource files at or below `path`.
pub fn collect_resource_files(
    fs: &FsTree,
    boundary: &FsPath,
    path: &FsPath,
    kind: FilterResourceKind,
    w: &mut Walk,
    depth: usize,
)
    ensures
        final(w)@ == collected(fs@, boundary@, path@, kind, old(w)@, depth as nat),
    decreases depth, 0nat,
{
    let canonical = match validated_resource_path(fs, boundary, path) {
        Some(canonical) => canonical,
        None => {
            return;
        },
    };
    if fs.is_file(path) {
        if valid_resource_file(path, kind) {
            w.find(canonical);
        }
        return;
    }
    if !fs.is_dir(path) || paths::path_listed(w.visited.as_slice(), &canonical) || depth == 0 {
        return;
    }
    w.visit(canonical);
    match kind {
        FilterResourceKind::Extensions => {
            collect_extension_directory(fs, boundary, path, w, depth - 1);
        },
        FilterResourceKind::Skills => {
            collect_skill_directory(fs, boundary, path, path, w, depth - 1);
        },
        _ => {
            collect_recursive_resource_directory(fs, boundary, path, kind, w, depth - 1);
        },
    }
}

fn collect_recursive_resource_directory(
    fs: &FsTree,
    boundary: &FsPath,
    dir: &FsPath,
    kind: FilterResourceKind,
    w: &mut Walk,
    depth: usize,
)
    ensures
        final(w)@ == collected_below(
            fs@,
            boundary@,
            dir@,
            visible_at(fs@, dir@, false),
            0,
            kind,
            old(w)@,
            depth as nat,
        ),
    decreases depth, 1nat,
{
    let names = visible_directory_entries(fs, dir, false);
    let ghost all = text::texts(names@);
    let mut i: usize = 0;
    while i < names.len()
        invariant
            i <= names@.len(),
            all == text::texts(names@),
            all == visible_at(fs@, dir@, false),
            collected_below(fs@, boundary@, dir@, all, 0, kind, old(w)@, depth as nat)
                == collected_below(
                fs@,
                boundary@,
                dir@,
                all,
                i as int,
                kind,
                w@,
                depth as nat,
            ),
        decreases names.len() - i,
    {
        assert(all[i as int] == names@[i as int]@);
        collect_resource_files(fs, boundary, &dir.below(names[i].as_str()), kind, w, depth);
        i += 1;
    }
    assert(all.len() == names@.len());
}

fn collect_sources(
    fs: &FsTree,
    boundary: &FsPath,
    sources: &Vec<FsPath>,
    kind: FilterResourceKind,
    w: &mut Walk,
    depth: usize,
)
    ensures
        final(w)@ == collected_from(
            fs@,
            boundary@,
            paths::path_views(sources@),
            0,
            kind,
            old(w)@,
            depth as nat,
        ),
    decreases depth, 1nat,
{
    let ghost all = paths::path_views(sources@);
    let mut i: usize = 0;
    while i < sources.len()
        invariant
            i <= sources@.len(),
            all == paths::path_views(sources@),
            collected_from(fs@, boundary@, all, 0, kind, old(w)@, depth as nat)
                == collected_from(fs@, boundary@, all, i as int, kind, w@, depth as nat),
        decreases sources.len() - i,
    {
        assert(all[i as int] == sources@[i as int]@);
        collect_resource_files(fs, boundary, &sources[i], kind, w, depth);
        i += 1;
    }
}

/// What the entries of a manifest at `base` select within `boundary`. The
/// search enters no directory of `visited`, and adds to it those that it
/// enters.
pub fn resolve_manifest_resources(
    fs: &FsTree,
    boundary: &FsPath,
    base: &FsPath,
    entries: &Vec<String>,
    kind: FilterResourceKind,
    visited: &mut Vec<FsPath>,
    depth: usize,
) -> (r: ManifestResourceResolution)
    ensures
        (paths::path_views(r.paths@), r.had_source, paths::path_views(final(visited)@))
            == manifest_resources(
            fs@,
            boundary@,
            base@,
            text::texts(entries@),
            kind,
            paths::path_views(old(visited)@),
            depth as nat,
        ),
    decreases depth, 3nat,
{
    let ghost all = text::texts(entries@);
    let mut w = Walk { out: Vec::new(), visited: paths::copy_paths(visited.as_slice()) };
    assert(w@.out =~= seq![]);
    let ghost start = w@;
    let mut patterns: Vec<String> = Vec::new();
    assert(text::texts(patterns@) =~= seq![]);
    let mut any = false;
    let mut i: usize = 0;
    while i < entries.len()
        invariant
            i <= entries@.len(),
            all == text::texts(entries@),
            text::texts(patterns@) == overrides_among(all, i as int),
            manifest_walk(fs@, boundary@, base@, all, 0, kind, start, false, depth as nat)
                == manifest_walk(
                fs@,
                boundary@,
                base@,
                all,
                i as int,
                kind,
                w@,
                any,
                depth as nat,
            ),
        decreases entries.len() - i,
    {
        let entry = entries[i].as_str();
        assert(all[i as int] == entry@);
        if is_override_pattern(entry) {
            text::push_text(&mut patterns, entry);
        } else {
            let sources = entry_sources(fs, boundary, base, entry);
            assert(paths::path_views(sources@).len() == sources@.len());
            any = any || sources.len() > 0;
            collect_sources(fs, boundary, &sources, kind, &mut w, depth);
        }
        i += 1;
    }
    assert(all.len() == entries@.len());
    let top = resolve_links(fs, base);
    let selected_paths = apply_resource_patterns(
        fs,
        w.out.as_slice(),
        patterns.as_slice(),
        &top,
        kind,
    );
    assert(w@.out.len() == w.out@.len());
    *visited = w.visited;
    ManifestResourceResolution { paths: selected_paths, had_source: any }
}

fn collect_extension_entry_directory(
    fs: &FsTree,
    boundary: &FsPath,
    dir: &FsPath,
    w: &mut Walk,
    depth: usize,
) -> (done: bool)
    ensures
        (final(w)@, done) == extension_entry(fs@, boundary@, dir@, old(w)@, depth as nat),
    decreases depth, 4nat,
{
    match extension_manifest_entries(fs, dir) {
        Some(entries) => {
            let resolution = resolve_manifest_resources(
                fs,
                boundary,
                dir,
                &entries,
                FilterResourceKind::Extensions,
                &mut w.visited,
                depth,
            );
            if resolution.had_source {
                paths::insert_paths(&mut w.out, resolution.paths.as_slice());
                assert(paths::path_views(resolution.paths@).len() == resolution.paths@.len());
                return true;
            }
        },
        None => {},
    }
    match find_index_file(fs, boundary, dir) {
        Some(p) => {
            w.find(p);
            true
        },
        None => false,
    }
}

fn collect_extension_directory(
    fs: &FsTree,
    boundary: &FsPath,
    dir: &FsPath,
    w: &mut Walk,
    depth: usize,
)
    ensures
        final(w)@ == extension_dir(fs@, boundary@, dir@, old(w)@, depth as nat),
    decreases depth, 6nat,
{
    if collect_extension_entry_directory(fs, boundary, dir, w, depth) {
        return;
    }
    let ghost start = w@;
    let names = visible_directory_entries(fs, dir, false);
    let ghost all = text::texts(names@);
    let mut i: usize = 0;
    while i < names.len()
        invariant
            i <= names@.len(),
            all == text::texts(names@),
            all == visible_at(fs@, dir@, false),
            extensions_below(fs@, boundary@, dir@, all, 0, start, depth as nat)
                == extensions_below(fs@, boundary@, dir@, all, i as int, w@, depth as nat),
        decreases names.len() - i,
    {
        assert(all[i as int] == names@[i as int]@);
        let path = dir.below(names[i].as_str());
        if fs.is_file(&path) {
            if valid_resource_file(&path, FilterResourceKind::Extensions) {
                match validated_resource_path(fs, boundary, &path) {
                    Some(canonical) => {
                        w.find(canonical);
                    },
                    None => {},
                }
            }
        } else if fs.is_dir(&path) {
            match validated_resource_path(fs, boundary, &path) {
                Some(canonical) => {
                    if !paths::path_listed(w.visited.as_slice(), &canonical) {
                        w.visit(canonical);
                        let _ = collect_extension_entry_directory(fs, boundary, &path, w, depth);
                    }
                },
                None => {},
            }
        }
        i += 1;
    }
    assert(all.len() == names@.len());
}

fn collect_skill_directory(
    fs: &FsTree,
    boundary: &FsPath,
    dir: &FsPath,
    discovery_root: &FsPath,
    w: &mut Walk,
    depth: usize,
)
    ensures
        final(w)@ == skill_dir(fs@, boundary@, dir@, discovery_root@, old(w)@, depth as nat),
    decreases depth, 6nat,
{
    let skill = dir.below("SKILL.md");
    match validated_resource_path(fs, boundary, &skill) {
        Some(canonical) => {
            if fs.is_file(&skill) {
                w.find(canonical);
                return;
            }
        },
        None => {},
    }
    let at_top = dir.same(discovery_root);
    let names = visible_directory_entries(fs, dir, false);
    let ghost all = text::texts(names@);
    let mut i: usize = 0;
    while i < names.len()
        invariant
            i <= names@.len(),
            all == text::texts(names@),
            all == visible_at(fs@, dir@, false),
            at_top == paths::same_path(dir@, discovery_root@),
            skills_below(
                fs@,
                boundary@,
                dir@,
                discovery_root@,
                all,
                0,
                old(w)@,
                depth as nat,
            ) == skills_below(
                fs@,
                boundary@,
                dir@,
                discovery_root@,
                all,
                i as int,
                w@,
                depth as nat,
            ),
        decreases names.len() - i,
    {
        assert(all[i as int] == names@[i as int]@);
        let path = dir.below(names[i].as_str());
        match validated_resource_path(fs, boundary, &path) {
            Some(canonical) => {
                if fs.is_file(&path) {
                    if at_top && valid_resource_file(&path, FilterResourceKind::Skills) {
                        w.find(canonical);
                    }
                } else if fs.is_dir(&path) && !paths::path_listed(
                    w.visited.as_slice(),
                    &canonical,
                ) && depth > 0 {
                    w.visit(canonical);
                    collect_skill_directory(fs, boundary, &path, discovery_root, w, depth - 1);
                }
            },
            None => {},
        }
        i += 1;
    }
    assert(all.len() == names@.len());
}

/// The sorted list of the resource files at or below `defaults` that lie
/// within the package at `root`.
pub open spec fn inventory(
    fs: Seq<EntryModel>,
    root: PathModel,
    defaults: Seq<PathModel>,
    kind: FilterResourceKind,
) -> Seq<PathModel> {
    match paths::plain_at(fs, root) {
        None => seq![],
        Some(boundary) => collected_from(
            fs,
            boundary,
            defaults,
            0,
            kind,
            WalkModel { out: seq![], visited: seq![] },
            fs.len(),
        ).out,
    }
}

/// The sorted list of the resource files at or below `defaults` that lie
/// within the package at `root`.
pub fn resource_inventory(
    fs: &FsTree,
    root: &FsPath,
    defaults: &Vec<FsPath>,
    kind: FilterResourceKind,
) -> (out: Vec<FsPath>)
    ensures
        paths::path_views(out@) == inventory(fs@, root@, paths::path_views(defaults@), kind),
{
    let mut w = Walk { out: Vec::new(), visited: Vec::new() };
    assert(w@.out =~= seq![] && w@.visited =~= seq![]);
    match fs.resolve(root) {
        Some(boundary) => {
            collect_sources(fs, &boundary, defaults, kind, &mut w, fs.entries.len());
        },
        None => {},
    }
    w.out
}

/// What a setting says of one package.
pub struct PackageFilter {
    pub source: String,
    pub autoload: Option<bool>,
    pub extensions: Option<Vec<String>>,
    pub skills: Option<Vec<String>>,
    pub prompts: Option<Vec<String>>,
    pub themes: Option<Vec<String>>,
}

/// The model of `PackageFilter`.
#[verifier::ext_equal]
pub struct FilterModel {
    pub source: Seq<char>,
    pub autoload: Option<bool>,
    pub extensions: Option<Seq<Seq<char>>>,
    pub skills: Option<Seq<Seq<char>>>,
    pub prompts: Option<Seq<Seq<char>>>,
    pub themes: Option<Seq<Seq<char>>>,
}

/// The view of an optional list of strings.
pub open spec fn opt_list(o: Option<Vec<String>>) -> Option<Seq<Seq<char>>> {
    match o {
        Some(v) => Some(text::texts(v@)),
        None => None,
    }
}

impl View for PackageFilter {
    type V = FilterModel;

    open spec fn view(&self) -> FilterModel {
        FilterModel {
            source: self.source@,
            autoload: self.autoload,
            extensions: opt_list(self.extensions),
            skills: opt_list(self.skills),
            prompts: opt_list(self.prompts),
            themes: opt_list(self.themes),
        }
    }
}

fn copy_list(o: &Option<Vec<String>>) -> (r: Option<Vec<String>>)
    ensures
        opt_list(r) == opt_list(*o),
{
    match o {
        Some(v) => Some(text::clone_all(v.as_slice())),
        None => None,
    }
}

impl PackageFilter {
    /// A copy of the filter.
    pub fn copy(&self) -> (r: PackageFilter)
        ensures
            r@ == self@,
    {
        PackageFilter {
            source: self.source.clone(),
            autoload: self.autoload,
            extensions: copy_list(&self.extensions),
            skills: copy_list(&self.skills),
            prompts: copy_list(&self.prompts),
            themes: copy_list(&self.themes),
        }
    }
}

/// What is left of a package's resources of one kind once a setting is
/// applied. A kind without patterns keeps its defaults, unless the package
/// is not loaded by itself; an empty list of patterns turns the kind off.
pub open spec fn filtered(
    fs: Seq<EntryModel>,
    root: PathModel,
    defaults: Seq<PathModel>,
    patterns: Option<Seq<Seq<char>>>,
    autoload: Option<bool>,
    kind: FilterResourceKind,
) -> Seq<PathModel> {
    match patterns {
        None => if autoload == Some(false) {
            seq![]
        } else {
            defaults
        },
        Some(patterns) => if patterns.len() == 0 && autoload != Some(false) {
            seq![]
        } else {
            let top = resolved(fs, root);
            let all = inventory(fs, top, defaults, kind);
            if autoload == Some(false) {
                turned_on(fs, all, all.len() as int, patterns, top, kind, seq![])
            } else {
                selection(fs, all, all.len() as int, patterns, top, kind)
            }
        },
    }
}

/// What is left of a package's resources of one kind once a setting is
/// applied.
pub fn filter_paths(
    fs: &FsTree,
    root: &FsPath,
    defaults: &Vec<FsPath>,
    patterns: &Option<Vec<String>>,
    autoload: Option<bool>,
    kind: FilterResourceKind,
) -> (out: Vec<FsPath>)
    ensures
        paths::path_views(out@) == filtered(
            fs@,
            root@,
            paths::path_views(defaults@),
            opt_list(*patterns),
            autoload,
            kind,
        ),
{
    let nothing: Vec<FsPath> = Vec::new();
    assert(paths::path_views(nothing@) =~= seq![]);
    let explicit = match autoload {
        Some(false) => true,
        _ => false,
    };
    let patterns = match patterns {
        Some(patterns) => patterns,
        None => {
            return if explicit {
                nothing
            } else {
                paths::copy_paths(defaults.as_slice())
            };
        },
    };
    assert(text::texts(patterns@).len() == patterns@.len());
    if patterns.len() == 0 && !explicit {
        return nothing;
    }
    let top = resolve_links(fs, root);
    let all = resource_inventory(fs, &top, defaults, kind);
    assert(paths::path_views(all@).len() == all@.len());
    if explicit {
        turn_on(fs, all.as_slice(), patterns.as_slice(), &top, kind, nothing.as_slice())
    } else {
        apply_resource_patterns(fs, all.as_slice(), patterns.as_slice(), &top, kind)
    }
}

/// Those of the first `n` of `list` that are files, in their plain form.
pub open spec fn files_among(fs: Seq<EntryModel>, list: Seq<PathModel>, n: int) -> Seq<PathModel>
    decreases n,
{
    if n <= 0 {
        seq![]
    } else if paths::file_at(fs, list[n - 1]) {
        files_among(fs, list, n - 1).push(paths::plain_path(list[n - 1]))
    } else {
        files_among(fs, list, n - 1)
    }
}

/// Whether one of `list` is a directory.
pub open spec fn some_dir(fs: Seq<EntryModel>, list: Seq<PathModel>) -> bool {
    exists|i: int| 0 <= i < list.len() && paths::dir_at(fs, #[trigger] list[i])
}

/// Those of the first `n` of `list` that `all` does not have, added to
/// `base`.
pub open spec fn and_others(
    base: Seq<PathModel>,
    list: Seq<PathModel>,
    n: int,
    all: Seq<PathModel>,
) -> Seq<PathModel>
    decreases n,
{
    if n <= 0 {
        base
    } else {
        let rest = and_others(base, list, n - 1, all);
        if paths::lists(all, list[n - 1]) {
            rest
        } else {
            paths::with_path(rest, list[n - 1])
        }
    }
}

/// What a package's resources of one kind become where patterns change them
/// one after another. The files that are there are on at first; where there
/// are only directories, all of their files are.
pub open spec fn changed(
    fs: Seq<EntryModel>,
    root: PathModel,
    current: Seq<PathModel>,
    patterns: Seq<Seq<char>>,
    kind: FilterResourceKind,
) -> Seq<PathModel> {
    if patterns.len() == 0 {
        current
    } else {
        let top = resolved(fs, root);
        let all = inventory(fs, top, current, kind);
        let files = files_among(fs, current, current.len() as int);
        let initial = if files.len() == 0 && some_dir(fs, current) {
            all
        } else {
            files
        };
        and_others(
            turned_on(fs, all, all.len() as int, patterns, top, kind, initial),
            initial,
            initial.len() as int,
            all,
        )
    }
}

/// What a package's resources of one kind become where patterns change them
/// one after another.
pub fn apply_delta_paths(
    fs: &FsTree,
    root: &FsPath,
    current: &Vec<FsPath>,
    patterns: &Vec<String>,
    kind: FilterResourceKind,
) -> (out: Vec<FsPath>)
    ensures
        paths::path_views(out@) == changed(
            fs@,
            root@,
            paths::path_views(current@),
            text::texts(patterns@),
            kind,
        ),
{
    assert(text::texts(patterns@).len() == patterns@.len());
    if patterns.len() == 0 {
        return paths::copy_paths(current.as_slice());
    }
    let top = resolve_links(fs, root);
    let all = resource_inventory(fs, &top, current, kind);
    assert(paths::path_views(all@).len() == all@.len());
    let ghost now = paths::path_views(current@);
    let mut files: Vec<FsPath> = Vec::new();
    assert(paths::path_views(files@) =~= seq![]);
    let mut any_dir = false;
    let mut i: usize = 0;
    while i < current.len()
        invariant
            i <= current@.len(),
            now == paths::path_views(current@),
            paths::path_views(files@) == files_among(fs@, now, i as int),
            any_dir == exists|j: int| 0 <= j < i && paths::dir_at(fs@, #[trigger] now[j]),
        decreases current.len() - i,
    {
        let p = &current[i];
        assert(now[i as int] == p@);
        if fs.is_file(p) {
            let ghost before = paths::path_views(files@);
            let plain = p.plain();
            files.push(plain);
            assert(paths::path_views(files@) =~= before.push(paths::plain_path(p@)));
        }
        if fs.is_dir(p) {
            any_dir = true;
        }
        i += 1;
    }
    assert(any_dir == some_dir(fs@, now));
    assert(paths::path_views(files@).len() == files@.len());
    let initial = if files.len() == 0 && any_dir {
        paths::copy_paths(all.as_slice())
    } else {
        files
    };
    assert(paths::path_views(initial@).len() == initial@.len());
    let ghost first = paths::path_views(initial@);
    let mut out = turn_on(
        fs,
        all.as_slice(),
        patterns.as_slice(),
        &top,
        kind,
        initial.as_slice(),
    );
    let ghost base = paths::path_views(out@);
    let mut k: usize = 0;
    while k < initial.len()
        invariant
            k <= initial@.len(),
            first == paths::path_views(initial@),
            paths::path_views(out@) == and_others(
                base,
                first,
                k as int,
                paths::path_views(all@),
            ),
        decreases initial.len() - k,
    {
        assert(first[k as int] == initial@[k as int]@);
        if !paths::path_listed(all.as_slice(), &initial[k]) {
            paths::insert_path(&mut out, initial[k].copy());
        }
        k += 1;
    }
    out
}

/// The resources of one kind that a manifest selects under `key`; where it
/// says nothing, those of the directory of that name.
pub open spec fn resources_of(
    fs: Seq<EntryModel>,
    root: PathModel,
    manifest: Option<Seq<char>>,
    key: Seq<char>,
    kind: FilterResourceKind,
) -> Seq<PathModel> {
    match keyed(manifest, key) {
        Some(value) => manifest_resources(
            fs,
            root,
            root,
            json::strings_in(value),
            kind,
            seq![],
            fs.len(),
        ).0,
        None => inventory(fs, root, seq![paths::below(root, key)], kind),
    }
}

/// The resources of one kind that a manifest selects under `key`; where it
/// says nothing, those of the directory of that name.
pub fn resource_paths(
    fs: &FsTree,
    root: &FsPath,
    manifest: &Option<String>,
    key: &str,
    kind: FilterResourceKind,
) -> (out: Vec<FsPath>)
    ensures
        paths::path_views(out@) == resources_of(
            fs@,
            root@,
            text::opt_text(*manifest),
            key@,
            kind,
        ),
{
    match manifest_value(manifest, key) {
        Some(value) => {
            let entries = json::string_values(value.as_str());
            let mut visited: Vec<FsPath> = Vec::new();
            assert(paths::path_views(visited@) =~= seq![]);
            let resolution = resolve_manifest_resources(
                fs,
                root,
                root,
                &entries,
                kind,
                &mut visited,
                fs.entries.len(),
            );
            resolution.paths
        },
        None => {
            let mut defaults: Vec<FsPath> = Vec::new();
            let dir = root.below(key);
            defaults.push(dir);
            assert(paths::path_views(defaults@) =~= seq![dir@]);
            resource_inventory(fs, root, &defaults, kind)
        },
    }
}

/// The files that the entries among the first `n` name.
pub open spec fn entry_files(
    fs: Seq<EntryModel>,
    root: PathModel,
    entries: Seq<Seq<char>>,
    n: int,
) -> Seq<PathModel>
    decreases n,
{
    if n <= 0 {
        seq![]
    } else {
        let rest = entry_files(fs, root, entries, n - 1);
        match entry_path(fs, root, root, entries[n - 1]) {
            Some(p) => if paths::file_at(fs, p) {
                rest.push(p)
            } else {
                rest
            },
            None => rest,
        }
    }
}

/// What a manifest has under the first of three keys that it knows.
pub open spec fn first_keyed(
    manifest: Option<Seq<char>>,
    a: Seq<char>,
    b: Seq<char>,
    c: Seq<char>,
) -> Option<Seq<char>> {
    match keyed(manifest, a) {
        Some(v) => Some(v),
        None => match keyed(manifest, b) {
            Some(v) => Some(v),
            None => keyed(manifest, c),
        },
    }
}

/// The files that a manifest names under the first of three keys that it
/// knows; where it knows none, the file `default` of the package.
pub open spec fn files_of(
    fs: Seq<EntryModel>,
    root: PathModel,
    value: Option<Seq<char>>,
    default: Seq<char>,
) -> Seq<PathModel> {
    match value {
        Some(value) => entry_files(
            fs,
            root,
            json::strings_in(value),
            json::strings_in(value).len() as int,
        ),
        None => if paths::file_at(fs, paths::below(root, default)) {
            seq![paths::below(root, default)]
        } else {
            seq![]
        },
    }
}

/// The files that a manifest names under the first of three keys that it
/// knows; where it knows none, the file `default_file` of the package.
pub fn file_paths(
    fs: &FsTree,
    root: &FsPath,
    manifest: &Option<String>,
    keys: (&str, &str, &str),
    default_file: &str,
) -> (out: Vec<FsPath>)
    ensures
        paths::path_views(out@) == files_of(
            fs@,
            root@,
            first_keyed(text::opt_text(*manifest), keys.0@, keys.1@, keys.2@),
            default_file@,
        ),
{
    let mut value = manifest_value(manifest, keys.0);
    if value.is_none() {
        value = manifest_value(manifest, keys.1);
        if value.is_none() {
            value = manifest_value(manifest, keys.2);
        }
    }
    let mut out: Vec<FsPath> = Vec::new();
    assert(paths::path_views(out@) =~= seq![]);
    match value {
        Some(value) => {
            let entries = json::string_values(value.as_str());
            let ghost all = text::texts(entries@);
            let mut i: usize = 0;
            while i < entries.len()
                invariant
                    i <= entries@.len(),
                    all == text::texts(entries@),
                    paths::path_views(out@) == entry_files(fs@, root@, all, i as int),
                decreases entries.len() - i,
            {
                assert(all[i as int] == entries@[i as int]@);
                match safe_resource_path_from(fs, root, root, entries[i].as_str()) {
                    Some(p) => {
                        if fs.is_file(&p) {
                            let ghost before = paths::path_views(out@);
                            let ghost added = p@;
                            out.push(p);
                            assert(paths::path_views(out@) =~= before.push(added));
                        }
                    },
                    None => {},
                }
                i += 1;
            }
            assert(all.len() == entries@.len());
        },
        None => {
            let p = root.below(default_file);
            if fs.is_file(&p) {
                let ghost added = p@;
                out.push(p);
                assert(paths::path_views(out@) =~= seq![added]);
            }
        },
    }
    out
}

/// A sorted list of paths that all lie within `top`.
pub open spec fn tidy(list: Seq<PathModel>, top: PathModel) -> bool {
    paths::strictly_sorted(list) && forall|q: PathModel|
        #[trigger] list.contains(q) ==> paths::lies_in(q, top)
}

proof fn lemma_tidy_found(list: Seq<PathModel>, p: PathModel, top: PathModel)
    requires
        tidy(list, top),
        paths::lies_in(p, top),
    ensures
        tidy(paths::with_path(list, p), top),
{
    paths::lemma_with_path(list, p);
    assert forall|q: PathModel| #[trigger]
        paths::with_path(list, p).contains(q) implies paths::lies_in(q, top) by {
        assert(q == p || list.contains(q));
    }
}

proof fn lemma_tidy_many(list: Seq<PathModel>, more: Seq<PathModel>, n: int, top: PathModel)
    requires
        tidy(list, top),
        tidy(more, top),
        0 <= n <= more.len(),
    ensures
        tidy(paths::with_paths(list, more, n), top),
    decreases n,
{
    if n > 0 {
        lemma_tidy_many(list, more, n - 1, top);
        assert(more.contains(more[n - 1]));
        lemma_tidy_found(paths::with_paths(list, more, n - 1), more[n - 1], top);
    }
}

proof fn lemma_tidy_selection(
    fs: Seq<EntryModel>,
    all: Seq<PathModel>,
    n: int,
    patterns: Seq<Seq<char>>,
    root: PathModel,
    kind: FilterResourceKind,
    top: PathModel,
)
    requires
        tidy(all, top),
        0 <= n <= all.len(),
    ensures
        tidy(selection(fs, all, n, patterns, root, kind), top),
        forall|q: PathModel| #[trigger]
            selection(fs, all, n, patterns, root, kind).contains(q) ==> all.contains(q) && selected(
                fs,
                q,
                patterns,
                root,
                kind,
            ),
    decreases n,
{
    if n > 0 {
        lemma_tidy_selection(fs, all, n - 1, patterns, root, kind, top);
        assert(all.contains(all[n - 1]));
        let rest = selection(fs, all, n - 1, patterns, root, kind);
        lemma_tidy_found(rest, all[n - 1], top);
        paths::lemma_with_path(rest, all[n - 1]);
        assert forall|q: PathModel| #[trigger]
            selection(fs, all, n, patterns, root, kind).contains(q) implies all.contains(q)
            && selected(fs, q, patterns, root, kind) by {
            assert(q == all[n - 1] || rest.contains(q));
        }
    }
}

proof fn lemma_tidy_collected(
    fs: Seq<EntryModel>,
    boundary: PathModel,
    path: PathModel,
    kind: FilterResourceKind,
    w: WalkModel,
    depth: nat,
    top: PathModel,
)
    requires
        paths::plain_at(fs, boundary) == Some(top),
        tidy(w.out, top),
    ensures
        tidy(collected(fs, boundary, path, kind, w, depth).out, top),
    decreases depth, 0nat, 0int,
{
    match contained(fs, boundary, path) {
        None => {},
        Some(canonical) => {
            lemma_tidy_found(w.out, canonical, top);
            if !paths::file_at(fs, path) && paths::dir_at(fs, path) && !paths::lists(
                w.visited,
                canonical,
            ) && depth > 0 {
                let w1 = entered(w, canonical);
                let lower = (depth - 1) as nat;
                match kind {
                    FilterResourceKind::Extensions => {
                        lemma_tidy_extension_dir(fs, boundary, path, w1, lower, top);
                    },
                    FilterResourceKind::Skills => {
                        lemma_tidy_skill_dir(fs, boundary, path, path, w1, lower, top);
                    },
                    _ => {
                        lemma_tidy_below(
                            fs,
                            boundary,
                            path,
                            visible_at(fs, path, false),
                            0,
                            kind,
                            w1,
                            lower,
                            top,
                        );
                    },
                }
            }
        },
    }
}

proof fn lemma_tidy_below(
    fs: Seq<EntryModel>,
    boundary: PathModel,
    dir: PathModel,
    names: Seq<Seq<char>>,
    i: int,
    kind: FilterResourceKind,
    w: WalkModel,
    depth: nat,
    top: PathModel,
)
    requires
        paths::plain_at(fs, boundary) == Some(top),
        tidy(w.out, top),
    ensures
        tidy(collected_below(fs, boundary, dir, names, i, kind, w, depth).out, top),
    decreases depth, 1nat, names.len() - i,
{
    if 0 <= i < names.len() {
        let path = paths::below(dir, names[i]);
        lemma_tidy_collected(fs, boundary, path, kind, w, depth, top);
        lemma_tidy_below(
            fs,
            boundary,
            dir,
            names,
            i + 1,
            kind,
            collected(fs, boundary, path, kind, w, depth),
            depth,
            top,
        );
    }
}

proof fn lemma_tidy_from(
    fs: Seq<EntryModel>,
    boundary: PathModel,
    sources: Seq<PathModel>,
    i: int,
    kind: FilterResourceKind,
    w: WalkModel,
    depth: nat,
    top: PathModel,
)
    requires
        paths::plain_at(fs, boundary) == Some(top),
        tidy(w.out, top),
    ensures
        tidy(collected_from(fs, boundary, sources, i, kind, w, depth).out, top),
    decreases depth, 1nat, sources.len() - i,
{
    if 0 <= i < sources.len() {
        lemma_tidy_collected(fs, boundary, sources[i], kind, w, depth, top);
        lemma_tidy_from(
            fs,
            boundary,
            sources,
            i + 1,
            kind,
            collected(fs, boundary, sources[i], kind, w, depth),
            depth,
            top,
        );
    }
}

proof fn lemma_tidy_walk(
    fs: Seq<EntryModel>,
    boundary: PathModel,
    base: PathModel,
    entries: Seq<Seq<char>>,
    i: int,
    kind: FilterResourceKind,
    w: WalkModel,
    any: bool,
    depth: nat,
    top: PathModel,
)
    requires
        paths::plain_at(fs, boundary) == Some(top),
        tidy(w.out, top),
    ensures
        tidy(manifest_walk(fs, boundary, base, entries, i, kind, w, any, depth).0.out, top),
    decreases depth, 2nat, entries.len() - i,
{
    if 0 <= i < entries.len() {
        if override_pattern(entries[i]) {
            lemma_tidy_walk(fs, boundary, base, entries, i + 1, kind, w, any, depth, top);
        } else {
            let sources = sources_of(fs, boundary, base, entries[i]);
            lemma_tidy_from(fs, boundary, sources, 0, kind, w, depth, top);
            lemma_tidy_walk(
                fs,
                boundary,
                base,
                entries,
                i + 1,
                kind,
                collected_from(fs, boundary, sources, 0, kind, w, depth),
                any || sources.len() > 0,
                depth,
                top,
            );
        }
    }
}

proof fn lemma_tidy_manifest(
    fs: Seq<EntryModel>,
    boundary: PathModel,
    base: PathModel,
    entries: Seq<Seq<char>>,
    kind: FilterResourceKind,
    visited: Seq<PathModel>,
    depth: nat,
    top: PathModel,
)
    requires
        paths::plain_at(fs, boundary) == Some(top),
    ensures
        tidy(manifest_resources(fs, boundary, base, entries, kind, visited, depth).0, top),
    decreases depth, 3nat, 0int,
{
    let start = WalkModel { out: seq![], visited };
    assert(tidy(start.out, top));
    lemma_tidy_walk(fs, boundary, base, entries, 0, kind, start, false, depth, top);
    let w = manifest_walk(fs, boundary, base, entries, 0, kind, start, false, depth).0;
    lemma_tidy_selection(
        fs,
        w.out,
        w.out.len() as int,
        overrides_among(entries, entries.len() as int),
        resolved(fs, base),
        kind,
        top,
    );
}

proof fn lemma_tidy_extension_entry(
    fs: Seq<EntryModel>,
    boundary: PathModel,
    dir: PathModel,
    w: WalkModel,
    depth: nat,
    top: PathModel,
)
    requires
        paths::plain_at(fs, boundary) == Some(top),
        tidy(w.out, top),
    ensures
        tidy(extension_entry(fs, boundary, dir, w, depth).0.out, top),
    decreases depth, 4nat, 0int,
{
    if let Some(p) = index_file(fs, boundary, dir) {
        lemma_tidy_found(w.out, p, top);
    }
    if let Some(entries) = listed_extensions(fs, dir) {
        lemma_tidy_manifest(
            fs,
            boundary,
            dir,
            entries,
            FilterResourceKind::Extensions,
            w.visited,
            depth,
            top,
        );
        let more = manifest_resources(
            fs,
            boundary,
            dir,
            entries,
            FilterResourceKind::Extensions,
            w.visited,
            depth,
        ).0;
        lemma_tidy_many(w.out, more, more.len() as int, top);
    }
}

proof fn lemma_tidy_extension_dir(
    fs: Seq<EntryModel>,
    boundary: PathModel,
    dir: PathModel,
    w: WalkModel,
    depth: nat,
    top: PathModel,
)
    requires
        paths::plain_at(fs, boundary) == Some(top),
        tidy(w.out, top),
    ensures
        tidy(extension_dir(fs, boundary, dir, w, depth).out, top),
    decreases depth, 6nat, 0int,
{
    lemma_tidy_extension_entry(fs, boundary, dir, w, depth, top);
    lemma_tidy_extensions_below(
        fs,
        boundary,
        dir,
        visible_at(fs, dir, false),
        0,
        extension_entry(fs, boundary, dir, w, depth).0,
        depth,
        top,
    );
}

proof fn lemma_tidy_extensions_below(
    fs: Seq<EntryModel>,
    boundary: PathModel,
    dir: PathModel,
    names: Seq<Seq<char>>,
    i: int,
    w: WalkModel,
    depth: nat,
    top: PathModel,
)
    requires
        paths::plain_at(fs, boundary) == Some(top),
        tidy(w.out, top),
    ensures
        tidy(extensions_below(fs, boundary, dir, names, i, w, depth).out, top),
    decreases depth, 5nat, names.len() - i,
{
    if 0 <= i < names.len() {
        let path = paths::below(dir, names[i]);
        if let Some(canonical) = contained(fs, boundary, path) {
            lemma_tidy_found(w.out, canonical, top);
            lemma_tidy_extension_entry(fs, boundary, path, entered(w, canonical), depth, top);
            lemma_tidy_extensions_below(
                fs,
                boundary,
                dir,
                names,
                i + 1,
                found(w, canonical),
                depth,
                top,
            );
            lemma_tidy_extensions_below(
                fs,
                boundary,
                dir,
                names,
                i + 1,
                extension_entry(fs, boundary, path, entered(w, canonical), depth).0,
                depth,
                top,
            );
        }
        lemma_tidy_extensions_below(fs, boundary, dir, names, i + 1, w, depth, top);
    }
}

proof fn lemma_tidy_skill_dir(
    fs: Seq<EntryModel>,
    boundary: PathModel,
    dir: PathModel,
    root: PathModel,
    w: WalkModel,
    depth: nat,
    top: PathModel,
)
    requires
        paths::plain_at(fs, boundary) == Some(top),
        tidy(w.out, top),
    ensures
        tidy(skill_dir(fs, boundary, dir, root, w, depth).out, top),
    decreases depth, 6nat, 0int,
{
    if let Some(p) = contained(fs, boundary, paths::below(dir, "SKILL.md"@)) {
        lemma_tidy_found(w.out, p, top);
    }
    lemma_tidy_skills_below(
        fs,
        boundary,
        dir,
        root,
        visible_at(fs, dir, false),
        0,
        w,
        depth,
        top,
    );
}

proof fn lemma_tidy_skills_below(
    fs: Seq<EntryModel>,
    boundary: PathModel,
    dir: PathModel,
    root: PathModel,
    names: Seq<Seq<char>>,
    i: int,
    w: WalkModel,
    depth: nat,
    top: PathModel,
)
    requires
        paths::plain_at(fs, boundary) == Some(top),
        tidy(w.out, top),
    ensures
        tidy(skills_below(fs, boundary, dir, root, names, i, w, depth).out, top),
    decreases depth, 5nat, names.len() - i,
{
    if 0 <= i < names.len() {
        let path = paths::below(dir, names[i]);
        if let Some(canonical) = contained(fs, boundary, path) {
            lemma_tidy_found(w.out, canonical, top);
            lemma_tidy_skills_below(
                fs,
                boundary,
                dir,
                root,
                names,
                i + 1,
                found(w, canonical),
                depth,
                top,
            );
            if depth > 0 {
                let lower = (depth - 1) as nat;
                let inner = skill_dir(
                    fs,
                    boundary,
                    path,
                    root,
                    entered(w, canonical),
                    lower,
                );
                lemma_tidy_skill_dir(
                    fs,
                    boundary,
                    path,
                    root,
                    entered(w, canonical),
                    lower,
                    top,
                );
                lemma_tidy_skills_below(
                    fs,
                    boundary,
                    dir,
                    root,
                    names,
                    i + 1,
                    inner,
                    depth,
                    top,
                );
            }
        }
        lemma_tidy_skills_below(fs, boundary, dir, root, names, i + 1, w, depth, top);
    }
}

/// Every resource file of an inventory lies within the package that it is
/// listed for, whatever links there are; the list is sorted and has no
/// repetition.
pub proof fn lemma_inventory_stays_within(
    fs: Seq<EntryModel>,
    root: PathModel,
    defaults: Seq<PathModel>,
    kind: FilterResourceKind,
    boundary: PathModel,
    top: PathModel,
)
    requires
        paths::plain_at(fs, root) == Some(boundary),
        paths::plain_at(fs, boundary) == Some(top),
    ensures
        tidy(inventory(fs, root, defaults, kind), top),
{
    let start = WalkModel { out: seq![], visited: seq![] };
    assert(tidy(start.out, top));
    lemma_tidy_from(fs, boundary, defaults, 0, kind, start, fs.len(), top);
}

/// Whatever the entries of a manifest select lies within the package, is
/// sorted and has no repetition.
pub proof fn lemma_manifest_stays_within(
    fs: Seq<EntryModel>,
    root: PathModel,
    entries: Seq<Seq<char>>,
    kind: FilterResourceKind,
    visited: Seq<PathModel>,
    depth: nat,
    top: PathModel,
)
    requires
        paths::plain_at(fs, root) == Some(top),
    ensures
        tidy(manifest_resources(fs, root, root, entries, kind, visited, depth).0, top),
{
    lemma_tidy_manifest(fs, root, root, entries, kind, visited, depth, top);
}

proof fn lemma_tidy_turned_on(
    fs: Seq<EntryModel>,
    all: Seq<PathModel>,
    n: int,
    patterns: Seq<Seq<char>>,
    root: PathModel,
    kind: FilterResourceKind,
    initial: Seq<PathModel>,
    top: PathModel,
)
    requires
        tidy(all, top),
        0 <= n <= all.len(),
    ensures
        tidy(turned_on(fs, all, n, patterns, root, kind, initial), top),
    decreases n,
{
    if n > 0 {
        lemma_tidy_turned_on(fs, all, n - 1, patterns, root, kind, initial, top);
        assert(all.contains(all[n - 1]));
        lemma_tidy_found(
            turned_on(fs, all, n - 1, patterns, root, kind, initial),
            all[n - 1],
            top,
        );
    }
}

/// The resources of a package lie within it, are sorted and have no
/// repetition, whether a manifest selects them or not.
pub proof fn lemma_resources_stay_within(
    fs: Seq<EntryModel>,
    root: PathModel,
    manifest: Option<Seq<char>>,
    key: Seq<char>,
    kind: FilterResourceKind,
    top: PathModel,
)
    requires
        paths::plain_at(fs, root) == Some(top),
        paths::plain_at(fs, top) == Some(top),
    ensures
        tidy(resources_of(fs, root, manifest, key, kind), top),
{
    match keyed(manifest, key) {
        Some(value) => lemma_manifest_stays_within(
            fs,
            root,
            json::strings_in(value),
            kind,
            seq![],
            fs.len(),
            top,
        ),
        None => lemma_inventory_stays_within(
            fs,
            root,
            seq![paths::below(root, key)],
            kind,
            top,
            top,
        ),
    }
}

/// What a setting leaves of a package's resources lies within the package,
/// is sorted and has no repetition.
pub proof fn lemma_filter_stays_within(
    fs: Seq<EntryModel>,
    root: PathModel,
    defaults: Seq<PathModel>,
    patterns: Option<Seq<Seq<char>>>,
    autoload: Option<bool>,
    kind: FilterResourceKind,
    top: PathModel,
)
    requires
        paths::plain_at(fs, root) == Some(top),
        paths::plain_at(fs, top) == Some(top),
        tidy(defaults, top),
    ensures
        tidy(filtered(fs, root, defaults, patterns, autoload, kind), top),
{
    let none = Seq::<PathModel>::empty();
    assert(tidy(none, top));
    lemma_inventory_stays_within(fs, top, defaults, kind, top, top);
    let all = inventory(fs, top, defaults, kind);
    if let Some(patterns) = patterns {
        lemma_tidy_turned_on(fs, all, all.len() as int, patterns, top, kind, seq![], top);
        lemma_tidy_selection(fs, all, all.len() as int, patterns, top, kind, top);
    }
}

/// A file that is forced out is never selected, and one that is forced in
/// and not forced out always is.
pub proof fn lemma_force_decides(
    fs: Seq<EntryModel>,
    path: PathModel,
    patterns: Seq<Seq<char>>,
    root: PathModel,
    kind: FilterResourceKind,
)
    ensures
        some_pattern(fs, path, patterns, root, PatternMode::ForceExclude, true, kind)
            ==> !selected(fs, path, patterns, root, kind),
        some_pattern(fs, path, patterns, root, PatternMode::ForceInclude, true, kind)
            && !some_pattern(fs, path, patterns, root, PatternMode::ForceExclude, true, kind)
            ==> selected(fs, path, patterns, root, kind),
{
}

} // verus!
