//! Package names and specifications of the npm registry.

use vstd::prelude::*;

use crate::text;

verus! {

/// A registry package specification, taken apart.
pub struct ParsedNpmPackageSpec {
    /// Dependency key and directory under `node_modules`.
    pub install_name: String,
    /// Name that the installed package's manifest must have. It differs from
    /// `install_name` only for one-level registry aliases.
    pub manifest_name: String,
    /// Version, range, tag, or the complete `npm:<target>` alias selector.
    pub requested: Option<String>,
    /// Version, range, or tag that applies to the package `manifest_name`.
    pub target_selector: Option<String>,
    /// Whether the specification names another package by an alias.
    pub is_alias: bool,
}

/// The model of `ParsedNpmPackageSpec`.
#[verifier::ext_equal]
pub struct NpmSpecModel {
    pub install_name: Seq<char>,
    pub manifest_name: Seq<char>,
    pub requested: Option<Seq<char>>,
    pub target_selector: Option<Seq<char>>,
    pub is_alias: bool,
}

impl View for ParsedNpmPackageSpec {
    type V = NpmSpecModel;

    open spec fn view(&self) -> NpmSpecModel {
        NpmSpecModel {
            install_name: self.install_name@,
            manifest_name: self.manifest_name@,
            requested: text::opt_text(self.requested),
            target_selector: text::opt_text(self.target_selector),
            is_alias: self.is_alias,
        }
    }
}

/// The view of an optional specification.
pub open spec fn spec_view(o: Option<ParsedNpmPackageSpec>) -> Option<NpmSpecModel> {
    match o {
        Some(p) => Some(p@),
        None => None,
    }
}

/// A character that a package name may hold.
#[verifier::allow_in_spec]
pub fn is_name_char(c: char) -> bool
    returns
        (text::is_alphanumeric(c) || c == '-' || c == '_' || c == '.' || c == '~'),
{
    text::is_alphanumeric(c) || c == '-' || c == '_' || c == '.' || c == '~'
}

/// A character that no package name holds.
#[verifier::allow_in_spec]
pub fn not_name_char(c: char) -> bool
    returns
        (!is_name_char(c)),
{
    !is_name_char(c)
}

/// Whether `part` is one part of a package name: not empty, starting with
/// neither `.` nor `-`, and made of name characters.
pub open spec fn name_part(part: Seq<char>) -> bool {
    &&& part.len() > 0
    &&& part[0] != '.'
    &&& part[0] != '-'
    &&& forall|i: int| 0 <= i < part.len() ==> is_name_char(#[trigger] part[i])
}

/// Whether `name` is a package name, `part` or `@part/part`.
pub open spec fn npm_name(name: Seq<char>) -> bool {
    if text::first_is(name, '@') {
        let parts = text::pieces(name.skip(1), "/"@);
        parts.len() == 2 && name_part(parts[0]) && name_part(parts[1])
    } else {
        name_part(name)
    }
}

/// Whether `part` is one part of a package name.
pub fn valid_npm_name_part(part: &str) -> (r: bool)
    ensures
        r == name_part(part@),
{
    !part.is_empty() && !text::starts_with_char(part, '.') && !text::starts_with_char(part, '-')
        && !text::any_char(part, not_name_char, Ghost(|c: char| not_name_char(c)))
}

/// Whether `name` is a valid package name.
pub fn valid_npm_name(name: &str) -> (r: bool)
    ensures
        r == npm_name(name@),
{
    if text::starts_with_char(name, '@') {
        proof {
            reveal_strlit("/");
        }
        let parts = text::split(text::skip(name, 1), "/");
        assert(text::strs(parts@).len() == parts@.len());
        if parts.len() != 2 {
            return false;
        }
        assert(text::strs(parts@)[0] == parts@[0]@ && text::strs(parts@)[1] == parts@[1]@);
        valid_npm_name_part(parts[0]) && valid_npm_name_part(parts[1])
    } else {
        valid_npm_name_part(name)
    }
}

/// A prefix of a selector that names something outside the registry.
pub open spec fn foreign_selector(lower: Seq<char>) -> bool {
    ||| text::begins(lower, "file:"@)
    ||| text::begins(lower, "link:"@)
    ||| text::begins(lower, "workspace:"@)
    ||| text::begins(lower, "git:"@)
    ||| text::begins(lower, "git+"@)
    ||| text::begins(lower, "http:"@)
    ||| text::begins(lower, "https:"@)
    ||| text::begins(lower, "ssh:"@)
    ||| text::begins(lower, "github:"@)
    ||| text::begins(lower, "gitlab:"@)
    ||| text::begins(lower, "bitbucket:"@)
}

/// Whether `selector` may be handed to the registry: a version, a range, a
/// tag or, where `allow_alias` is set, an alias.
pub open spec fn registry_selector(selector: Seq<char>, allow_alias: bool) -> bool {
    let s = text::trim_of(selector);
    if s.len() == 0 || s[0] == '-' || s[0] == '.' || s[0] == '/' || s.contains('\\')
        || text::some_control(s) {
        false
    } else {
        match text::after_prefix(s, "npm:"@) {
            Some(target) => allow_alias && target.len() > 0,
            None => !foreign_selector(text::lower_of(s)),
        }
    }
}

/// Whether `selector` may be handed to the registry.
pub fn safe_npm_registry_selector(selector: &str, allow_alias: bool) -> (r: bool)
    ensures
        r == registry_selector(selector@, allow_alias),
{
    let s = text::trim(selector);
    if s.is_empty() || text::starts_with_char(s, '-') || text::starts_with_char(s, '.')
        || text::starts_with_char(s, '/') || text::contains_char(s, '\\') || text::has_control(s) {
        return false;
    }
    match text::strip_prefix(s, "npm:") {
        Some(target) => allow_alias && !target.is_empty(),
        None => {
            let lowered = text::lower(s);
            let lower = lowered.as_str();
            !(text::starts_with(lower, "file:") || text::starts_with(lower, "link:")
                || text::starts_with(lower, "workspace:") || text::starts_with(lower, "git:")
                || text::starts_with(lower, "git+") || text::starts_with(lower, "http:")
                || text::starts_with(lower, "https:") || text::starts_with(lower, "ssh:")
                || text::starts_with(lower, "github:") || text::starts_with(lower, "gitlab:")
                || text::starts_with(lower, "bitbucket:"))
        },
    }
}

/// `s` cut at position `i`, where something follows.
pub open spec fn cut_at(s: Seq<char>, i: int) -> Option<(Seq<char>, Option<Seq<char>>)> {
    if s.skip(i + 1).len() == 0 {
        None
    } else {
        Some((s.take(i), Some(s.skip(i + 1))))
    }
}

/// A specification as a name and, behind the `@` that ends the name, a
/// selector. The `@` and the `/` of a scope belong to the name.
pub open spec fn name_and_selector(spec: Seq<char>) -> Option<(Seq<char>, Option<Seq<char>>)> {
    let s = text::trim_of(spec);
    if s.len() == 0 || text::some_control(s) {
        None
    } else if s[0] == '@' {
        match text::index_of(s, "/"@) {
            Some(slash) => match text::index_of(s.skip(slash + 1), "@"@) {
                Some(i) => cut_at(s, slash + 1 + i),
                None => Some((s, None)),
            },
            None => None,
        }
    } else {
        match text::index_of(s, "@"@) {
            Some(i) => cut_at(s, i),
            None => Some((s, None)),
        }
    }
}

/// The view of a name with its selector.
pub open spec fn selector_view(o: Option<(&str, Option<&str>)>) -> Option<
    (Seq<char>, Option<Seq<char>>),
> {
    match o {
        Some(p) => Some((p.0@, text::opt_str(p.1))),
        None => None,
    }
}

fn take_apart<'a>(s: &'a str, i: usize) -> (r: Option<(&'a str, Option<&'a str>)>)
    requires
        i < s@.len(),
    ensures
        selector_view(r) == cut_at(s@, i as int),
{
    let size = s.unicode_len();
    let selector = text::skip(s, i + 1);
    if selector.is_empty() {
        None
    } else {
        Some((text::take(s, i), Some(selector)))
    }
}

/// The name and the selector of a specification.
pub fn split_npm_name_and_selector<'a>(spec: &'a str) -> (r: Option<(&'a str, Option<&'a str>)>)
    ensures
        selector_view(r) == name_and_selector(spec@),
{
    proof {
        reveal_strlit("/");
        reveal_strlit("@");
    }
    let s = text::trim(spec);
    if s.is_empty() || text::has_control(s) {
        return None;
    }
    let size = s.unicode_len();
    if text::starts_with_char(s, '@') {
        match text::find(s, "/") {
            Some(slash) => {
                match text::find(text::skip(s, slash + 1), "@") {
                    Some(i) => take_apart(s, slash + 1 + i),
                    None => Some((s, None)),
                }
            },
            None => None,
        }
    } else {
        match text::find(s, "@") {
            Some(i) => take_apart(s, i),
            None => Some((s, None)),
        }
    }
}

/// `spec` without the `npm:` in front, where it has one.
pub open spec fn without_npm(spec: Seq<char>) -> Seq<char> {
    match text::after_prefix(spec, "npm:"@) {
        Some(rest) => rest,
        None => spec,
    }
}

/// What a registry specification says: `name`, `name@selector` or
/// `name@npm:target[@selector]`, each with an optional `npm:` in front.
pub open spec fn npm_spec_of(spec: Seq<char>) -> Option<NpmSpecModel> {
    match name_and_selector(text::trim_of(without_npm(spec))) {
        None => None,
        Some((name, selector)) => if !npm_name(name) {
            None
        } else {
            match selector {
                None => Some(
                    NpmSpecModel {
                        install_name: name,
                        manifest_name: name,
                        requested: None,
                        target_selector: None,
                        is_alias: false,
                    },
                ),
                Some(selector) => selected(name, text::trim_of(selector)),
            }
        },
    }
}

/// What the name `name` with the selector `requested` says.
pub open spec fn selected(name: Seq<char>, requested: Seq<char>) -> Option<NpmSpecModel> {
    if !registry_selector(requested, true) {
        None
    } else {
        match text::after_prefix(requested, "npm:"@) {
            None => Some(
                NpmSpecModel {
                    install_name: name,
                    manifest_name: name,
                    requested: Some(requested),
                    target_selector: Some(requested),
                    is_alias: false,
                },
            ),
            Some(target) => match name_and_selector(target) {
                None => None,
                Some((manifest_name, target_selector)) => if !npm_name(manifest_name) || (
                target_selector matches Some(t) && !registry_selector(t, false)) {
                    None
                } else {
                    Some(
                        NpmSpecModel {
                            install_name: name,
                            manifest_name,
                            requested: Some(requested),
                            target_selector,
                            is_alias: true,
                        },
                    )
                },
            },
        }
    }
}

/// Takes a registry specification apart.
pub fn parse_npm_package_spec(spec: &str) -> (r: Option<ParsedNpmPackageSpec>)
    ensures
        spec_view(r) == npm_spec_of(spec@),
{
    let body = match text::strip_prefix(spec, "npm:") {
        Some(rest) => rest,
        None => spec,
    };
    let (name, selector) = match split_npm_name_and_selector(text::trim(body)) {
        Some(p) => p,
        None => {
            return None;
        },
    };
    if !valid_npm_name(name) {
        return None;
    }
    let requested = match selector {
        Some(selector) => text::trim(selector),
        None => {
            return Some(
                ParsedNpmPackageSpec {
                    install_name: name.to_owned(),
                    manifest_name: name.to_owned(),
                    requested: None,
                    target_selector: None,
                    is_alias: false,
                },
            );
        },
    };
    if !safe_npm_registry_selector(requested, true) {
        return None;
    }
    let target = match text::strip_prefix(requested, "npm:") {
        Some(target) => target,
        None => {
            return Some(
                ParsedNpmPackageSpec {
                    install_name: name.to_owned(),
                    manifest_name: name.to_owned(),
                    requested: Some(requested.to_owned()),
                    target_selector: Some(requested.to_owned()),
                    is_alias: false,
                },
            );
        },
    };
    match split_npm_name_and_selector(target) {
        Some((manifest_name, target_selector)) => {
            if !valid_npm_name(manifest_name) {
                return None;
            }
            match target_selector {
                Some(t) => {
                    if !safe_npm_registry_selector(t, false) {
                        return None;
                    }
                    Some(
                        ParsedNpmPackageSpec {
                            install_name: name.to_owned(),
                            manifest_name: manifest_name.to_owned(),
                            requested: Some(requested.to_owned()),
                            target_selector: Some(t.to_owned()),
                            is_alias: true,
                        },
                    )
                },
                None => Some(
                    ParsedNpmPackageSpec {
                        install_name: name.to_owned(),
                        manifest_name: manifest_name.to_owned(),
                        requested: Some(requested.to_owned()),
                        target_selector: None,
                        is_alias: true,
                    },
                ),
            }
        },
        None => None,
    }
}

/// `name` up to the `@` that starts a version.
pub open spec fn bare_name(name: Seq<char>) -> Seq<char> {
    if text::first_is(name, '@') {
        match text::index_of(name.skip(1), "@"@) {
            Some(i) => name.take(i + 1),
            None => name,
        }
    } else {
        match text::index_of(name, "@"@) {
            Some(i) => name.take(i),
            None => name,
        }
    }
}

/// A package name without the version behind it.
pub fn package_name_without_version<'a>(name: &'a str) -> (out: &'a str)
    ensures
        out@ == bare_name(name@),
{
    proof {
        reveal_strlit("@");
    }
    let size = name.unicode_len();
    if text::starts_with_char(name, '@') {
        match text::find(text::skip(name, 1), "@") {
            Some(i) => text::take(name, i + 1),
            None => name,
        }
    } else {
        match text::find(name, "@") {
            Some(i) => text::take(name, i),
            None => name,
        }
    }
}

/// Whatever a specification names is a valid package name, and only an alias
/// has an install name that differs from its manifest name. The selectors
/// that are handed on to the registry are safe ones.
pub proof fn lemma_npm_spec_names(spec: Seq<char>)
    ensures
        npm_spec_of(spec) matches Some(p) ==> {
            &&& npm_name(p.install_name)
            &&& npm_name(p.manifest_name)
            &&& !p.is_alias ==> p.manifest_name == p.install_name && p.target_selector
                == p.requested
            &&& p.requested matches Some(r) ==> registry_selector(r, true)
            &&& p.target_selector matches Some(t) ==> registry_selector(t, !p.is_alias)
            &&& p.is_alias ==> p.requested is Some
        },
{
}

/// A package name has no character that a path or a shell would read
/// otherwise: it is free of `\`, `:`, white space and control characters,
/// and no part of it is `.` or `..`.
pub proof fn lemma_npm_name_part_is_plain(part: Seq<char>, i: int)
    requires
        name_part(part),
        0 <= i < part.len(),
    ensures
        part[i] != '/' && part[i] != '\\' && part[i] != ':' && part[i] != '@',
        !text::is_whitespace(part[i]),
        !text::is_control(part[i]),
        part != "."@ && part != ".."@,
{
    assert(is_name_char(part[i]));
    reveal_strlit(".");
    reveal_strlit("..");
}

/// White space round a specification says nothing.
pub proof fn lemma_space_says_nothing(spec: Seq<char>)
    requires
        npm_spec_of(spec) is Some,
    ensures
        npm_spec_of(text::trim_of(spec)) == npm_spec_of(spec),
{
    reveal_strlit("npm:");
    let t = text::trim_of(spec);
    let (a, b) = text::lemma_trim_core(spec);
    text::lemma_trim_twice(spec);
    if text::begins(spec, "npm:"@) {
        assert(spec.take(4)[0] == spec[0] && spec.take(4)[3] == spec[3]);
        assert(spec[0] == 'n' && spec[3] == ':');
        assert(a == 0) by {
            if a > 0 {
                assert(text::is_whitespace(spec[0]));
            }
        }
        assert(b >= 4) by {
            if b <= 3 {
                assert(text::is_whitespace(spec[3]));
            }
        }
        assert(t.take(4) =~= spec.take(4));
        let x = spec.skip(4);
        let y = t.skip(4);
        let (c, d) = text::lemma_trim_core(y);
        assert forall|i: int| 0 <= i < c implies text::is_whitespace(#[trigger] x[i]) by {
            assert(y[i] == x[i]);
        }
        assert forall|i: int| d <= i < x.len() implies text::is_whitespace(#[trigger] x[i]) by {
            if i < y.len() {
                assert(y[i] == x[i]);
            } else {
                assert(x[i] == spec[i + 4]);
            }
        }
        if c < d {
            assert(y[c] == x[c] && y[d - 1] == x[d - 1]);
        }
        text::lemma_trim_is(x, c, d);
        assert(x.subrange(c, d) =~= y.subrange(c, d));
    } else if text::begins(t, "npm:"@) {
        assert(t.take(4)[0] == 'n' && t.take(4)[1] == 'p' && t.take(4)[2] == 'm' && t.take(4)[3]
            == ':');
        assert(t[0] == 'n' && t[1] == 'p' && t[2] == 'm' && t[3] == ':');
        reveal_strlit("@");
        text::lemma_index_from(t, "@"@, 0);
        match text::index_of(t, "@"@) {
            Some(i) => {
                assert(t.subrange(i, i + 1)[0] == t[i]);
                assert(t[i] == '@');
                let name = t.take(i);
                assert(name[3] == ':');
                assert(!is_name_char(name[3]));
                assert(!npm_name(name));
            },
            None => {
                assert(!is_name_char(t[3]));
                assert(!npm_name(t));
            },
        }
    }
}

} // verus!
