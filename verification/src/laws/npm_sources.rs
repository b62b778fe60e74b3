//! What specifications of registry packages name.

use vstd::prelude::*;

use crate::laws::texts;
use crate::npm_spec;
use crate::npm_spec::NpmSpecModel;
use crate::text;

verus! {

/// A text of letters, digits, `-`, `_` and `.` that begins with a letter or a
/// digit.
pub open spec fn slug(s: Seq<char>) -> bool {
    &&& s.len() > 0
    &&& text::is_alphanumeric(s[0])
    &&& forall|i: int|
        0 <= i < s.len() ==> text::is_alphanumeric(#[trigger] s[i]) || s[i] == '-' || s[i] == '_'
            || s[i] == '.'
}

/// A slug holds none of the characters that divide a specification.
pub proof fn lemma_slug(s: Seq<char>)
    requires
        slug(s),
    ensures
        !s.contains('@'),
        !s.contains('/'),
        !s.contains(':'),
        !s.contains('+'),
        !s.contains('%'),
        !s.contains('\\'),
        !text::some_control(s),
        !text::is_whitespace(s[0]),
        !text::is_whitespace(s.last()),
        s != "."@,
        s != ".."@,
        forall|i: int| 0 <= i < s.len() ==> !text::is_whitespace(#[trigger] s[i]),
{
    reveal_strlit(".");
    reveal_strlit("..");
    lemma_slug_lacks(s, '@');
    lemma_slug_lacks(s, '/');
    lemma_slug_lacks(s, ':');
    lemma_slug_lacks(s, '+');
    lemma_slug_lacks(s, '%');
    lemma_slug_lacks(s, '\\');
    assert("."@[0] == '.' && ".."@[0] == '.');
    assert(s[0] != '.');
}

proof fn lemma_slug_lacks(s: Seq<char>, c: char)
    requires
        slug(s),
        !text::is_alphanumeric(c),
        c != '-' && c != '_' && c != '.',
    ensures
        !s.contains(c),
{
    if s.contains(c) {
        let k = choose|k: int| 0 <= k < s.len() && s[k] == c;
        assert(text::is_alphanumeric(s[k]) || s[k] == '-' || s[k] == '_' || s[k] == '.');
    }
}

proof fn lemma_name(name: Seq<char>)
    requires
        slug(name),
    ensures
        npm_spec::npm_name(name),
        npm_spec::name_part(name),
{
    assert forall|i: int| 0 <= i < name.len() implies npm_spec::is_name_char(
        #[trigger] name[i],
    ) by {}
}

/// `npm:` in front of a specification says nothing.
pub proof fn lemma_npm_in_front_says_nothing(spec: Seq<char>)
    requires
        !text::begins(spec, seq!['n', 'p', 'm', ':']),
    ensures
        npm_spec::npm_spec_of(seq!['n', 'p', 'm', ':'] + spec) == npm_spec::npm_spec_of(spec),
{
    reveal_strlit("npm:");
    let prefix = seq!['n', 'p', 'm', ':'];
    assert("npm:"@ =~= prefix);
    texts::lemma_prefix_goes(prefix, spec);
}

/// A name alone asks for that package in whatever version there is.
pub proof fn lemma_name_alone(name: Seq<char>)
    requires
        slug(name),
    ensures
        npm_spec::npm_spec_of(name) == Some(
            NpmSpecModel {
                install_name: name,
                manifest_name: name,
                requested: None,
                target_selector: None,
                is_alias: false,
            },
        ),
{
    reveal_strlit("npm:");
    reveal_strlit("@");
    lemma_slug(name);
    lemma_name(name);
    texts::lemma_begins_not(name, "npm:"@, 3);
    texts::lemma_trimmed(name);
    texts::lemma_undivided(name, "@"@);
}

proof fn lemma_own_selector(selector: Seq<char>, alias: bool)
    requires
        slug(selector),
    ensures
        npm_spec::registry_selector(selector, alias),
        text::after_prefix(selector, "npm:"@) is None,
        text::trim_of(selector) == selector,
{
    reveal_strlit("npm:");
    reveal_strlit("file:");
    reveal_strlit("link:");
    reveal_strlit("workspace:");
    reveal_strlit("git:");
    reveal_strlit("git+");
    reveal_strlit("http:");
    reveal_strlit("https:");
    reveal_strlit("ssh:");
    reveal_strlit("github:");
    reveal_strlit("gitlab:");
    reveal_strlit("bitbucket:");
    lemma_slug(selector);
    texts::lemma_trimmed(selector);
    texts::lemma_begins_not(selector, "npm:"@, 3);
    let lower = text::lower_of(selector);
    assert(!lower.contains(':') && !lower.contains('+')) by {
        if lower.contains(':') {
            let k = choose|k: int| 0 <= k < lower.len() && lower[k] == ':';
            assert(lower[k] == text::lower_char(selector[k]));
            assert(selector.contains(selector[k]));
        }
        if lower.contains('+') {
            let k = choose|k: int| 0 <= k < lower.len() && lower[k] == '+';
            assert(lower[k] == text::lower_char(selector[k]));
            assert(selector.contains(selector[k]));
        }
    }
    texts::lemma_begins_not(lower, "file:"@, 4);
    texts::lemma_begins_not(lower, "link:"@, 4);
    texts::lemma_begins_not(lower, "workspace:"@, 9);
    texts::lemma_begins_not(lower, "git:"@, 3);
    texts::lemma_begins_not(lower, "git+"@, 3);
    texts::lemma_begins_not(lower, "http:"@, 4);
    texts::lemma_begins_not(lower, "https:"@, 5);
    texts::lemma_begins_not(lower, "ssh:"@, 3);
    texts::lemma_begins_not(lower, "github:"@, 6);
    texts::lemma_begins_not(lower, "gitlab:"@, 6);
    texts::lemma_begins_not(lower, "bitbucket:"@, 9);
}

proof fn lemma_at(name: Seq<char>, selector: Seq<char>)
    requires
        slug(name),
        selector.len() > 0,
        !text::is_whitespace(selector.last()),
        !text::some_control(selector),
    ensures
        npm_spec::name_and_selector(name + seq!['@'] + selector) == Some((name, Some(selector))),
        text::trim_of(name + seq!['@'] + selector) == name + seq!['@'] + selector,
{
    reveal_strlit("@");
    assert("@"@ =~= seq!['@']);
    lemma_slug(name);
    let s = name + seq!['@'] + selector;
    texts::lemma_divided(name, "@"@, selector);
    assert(s[0] == name[0] && s.last() == selector.last());
    texts::lemma_trimmed(s);
    assert(!text::some_control(s)) by {
        assert forall|i: int| 0 <= i < s.len() implies !text::is_control(#[trigger] s[i]) by {
            if i < name.len() {
                assert(s[i] == name[i]);
            } else if i > name.len() {
                assert(s[i] == selector[i - name.len() - 1]);
            }
        }
    }
    assert(s.take(name.len() as int) =~= name);
    assert(s.skip(name.len() as int + 1) =~= selector);
}

/// What stands behind the `@` of a name is the version, range or tag that is
/// asked for.
pub proof fn lemma_selector_behind_name(name: Seq<char>, selector: Seq<char>)
    requires
        slug(name),
        slug(selector),
    ensures
        npm_spec::npm_spec_of(name + seq!['@'] + selector) == Some(
            NpmSpecModel {
                install_name: name,
                manifest_name: name,
                requested: Some(selector),
                target_selector: Some(selector),
                is_alias: false,
            },
        ),
{
    reveal_strlit("npm:");
    let s = name + seq!['@'] + selector;
    lemma_slug(name);
    lemma_slug(selector);
    lemma_name(name);
    lemma_at(name, selector);
    lemma_own_selector(selector, true);
    assert(!s.contains(':')) by {
        if s.contains(':') {
            let k = choose|k: int| 0 <= k < s.len() && s[k] == ':';
            if k < name.len() {
                assert(name.contains(name[k]));
            } else if k > name.len() {
                assert(selector.contains(selector[k - name.len() - 1]));
            }
        }
    }
    texts::lemma_begins_not(s, "npm:"@, 3);
}

/// A name with an alias is installed under that name; the package that is
/// asked for, and its version, stand behind `npm:`.
pub proof fn lemma_alias_names_another(
    name: Seq<char>,
    target: Seq<char>,
    selector: Seq<char>,
)
    requires
        slug(name),
        slug(target),
        slug(selector),
    ensures
        npm_spec::npm_spec_of(
            seq!['n', 'p', 'm', ':'] + (name + seq!['@'] + (seq!['n', 'p', 'm', ':'] + (target
                + seq!['@'] + selector))),
        ) == Some(
            NpmSpecModel {
                install_name: name,
                manifest_name: target,
                requested: Some(seq!['n', 'p', 'm', ':'] + (target + seq!['@'] + selector)),
                target_selector: Some(selector),
                is_alias: true,
            },
        ),
{
    reveal_strlit("npm:");
    let prefix = seq!['n', 'p', 'm', ':'];
    assert("npm:"@ =~= prefix);
    let inner = target + seq!['@'] + selector;
    let requested = prefix + inner;
    let s = name + seq!['@'] + requested;
    lemma_slug(name);
    lemma_slug(target);
    lemma_slug(selector);
    lemma_name(name);
    lemma_name(target);
    lemma_at(target, selector);
    lemma_own_selector(selector, false);
    assert(requested.last() == selector.last());
    assert forall|i: int| 0 <= i < requested.len() implies !text::is_control(
        #[trigger] requested[i],
    ) && requested[i] != '\\' by {
        if i < 4 {
            assert(requested[i] == prefix[i]);
        } else if i < 4 + target.len() {
            assert(requested[i] == target[i - 4]);
        } else if i > 4 + target.len() {
            assert(requested[i] == selector[i - 5 - target.len()]);
        }
    }
    lemma_at(name, requested);
    texts::lemma_prefix_goes(prefix, s);
    texts::lemma_prefix_goes(prefix, inner);
    assert(requested[0] == 'n');
    texts::lemma_trimmed(requested);
    assert(!requested.contains('\\'));
    assert(npm_spec::registry_selector(requested, true));
}

/// A package in a scope is named with it.
pub proof fn lemma_scoped_name(scope: Seq<char>, name: Seq<char>)
    requires
        slug(scope),
        slug(name),
    ensures
        ({
            let full = seq!['@'] + (scope + seq!['/'] + name);
            npm_spec::npm_spec_of(full) == Some(
                NpmSpecModel {
                    install_name: full,
                    manifest_name: full,
                    requested: None,
                    target_selector: None,
                    is_alias: false,
                },
            )
        }),
{
    let full = seq!['@'] + (scope + seq!['/'] + name);
    let none = Seq::<char>::empty();
    lemma_full_name(scope, name);
    lemma_slug(name);
    lemma_scoped_parts(scope, name, none);
    assert(full + none =~= full);
    assert(name + none =~= name);
    reveal_strlit("@");
    reveal_strlit("npm:");
    texts::lemma_undivided(name, "@"@);
    texts::lemma_begins_at_not(full, "npm:"@);
    assert(npm_spec::name_and_selector(full) == Some((full, None::<Seq<char>>)));
}

/// Behind the second `@` of a package in a scope stands what is asked for.
pub proof fn lemma_scoped_selector(scope: Seq<char>, name: Seq<char>, selector: Seq<char>)
    requires
        slug(scope),
        slug(name),
        slug(selector),
    ensures
        ({
            let full = seq!['@'] + (scope + seq!['/'] + name);
            npm_spec::npm_spec_of(full + (seq!['@'] + selector)) == Some(
                NpmSpecModel {
                    install_name: full,
                    manifest_name: full,
                    requested: Some(selector),
                    target_selector: Some(selector),
                    is_alias: false,
                },
            )
        }),
{
    let full = seq!['@'] + (scope + seq!['/'] + name);
    let s = full + (seq!['@'] + selector);
    lemma_scoped_cut(scope, name, selector);
    lemma_full_name(scope, name);
    lemma_own_selector(selector, true);
    lemma_scoped_parts(scope, name, seq!['@'] + selector);
    reveal_strlit("npm:");
    assert(s[0] == '@');
    texts::lemma_begins_at_not(s, "npm:"@);
}

proof fn lemma_scoped_cut(scope: Seq<char>, name: Seq<char>, selector: Seq<char>)
    requires
        slug(scope),
        slug(name),
        slug(selector),
    ensures
        ({
            let full = seq!['@'] + (scope + seq!['/'] + name);
            npm_spec::name_and_selector(full + (seq!['@'] + selector)) == Some(
                (full, Some(selector)),
            )
        }),
{
    let full = seq!['@'] + (scope + seq!['/'] + name);
    let tail = seq!['@'] + selector;
    let s = full + tail;
    assert(tail.skip(1) =~= selector);
    lemma_slug(name);
    lemma_scoped_parts(scope, name, tail);
    reveal_strlit("@");
    assert("@"@ =~= seq!['@']);
    assert(name + tail =~= name + "@"@ + selector);
    texts::lemma_found(name, "@"@, selector);
    let at = full.len() as int;
    assert(s[0] == '@');
    assert(at == scope.len() as int + 1 + 1 + name.len());
    assert(s.take(at) =~= full);
    assert(s.skip(at + 1) =~= selector);
}

proof fn lemma_full_name(scope: Seq<char>, name: Seq<char>)
    requires
        slug(scope),
        slug(name),
    ensures
        npm_spec::npm_name(seq!['@'] + (scope + seq!['/'] + name)),
{
    reveal_strlit("/");
    assert("/"@ =~= seq!['/']);
    let full = seq!['@'] + (scope + seq!['/'] + name);
    assert(full.skip(1) =~= scope + "/"@ + name);
    lemma_slug(scope);
    lemma_slug(name);
    lemma_name(scope);
    lemma_name(name);
    texts::lemma_divided(scope, "/"@, name);
    texts::lemma_undivided(name, "/"@);
    assert(text::pieces(full.skip(1), "/"@) =~= seq![scope, name]);
}

proof fn lemma_scoped_parts(scope: Seq<char>, name: Seq<char>, tail: Seq<char>)
    requires
        slug(scope),
        slug(name),
        tail.len() == 0 || (tail[0] == '@' && tail.len() > 1 && slug(tail.skip(1))),
    ensures
        ({
            let s = seq!['@'] + (scope + seq!['/'] + name) + tail;
            &&& text::trim_of(s) == s
            &&& !text::some_control(s)
            &&& text::index_of(s, "/"@) == Some(scope.len() as int + 1)
            &&& s.skip(scope.len() as int + 2) == name + tail
        }),
{
    let s = seq!['@'] + (scope + seq!['/'] + name) + tail;
    let rest = name + tail;
    let head = seq!['@'] + scope;
    reveal_strlit("/");
    assert("/"@ =~= seq!['/']);
    lemma_slug(scope);
    lemma_slug(name);
    if tail.len() > 0 {
        lemma_slug(tail.skip(1));
        assert(tail.last() == tail.skip(1).last());
    }
    assert(s =~= head + "/"@ + rest);
    assert(!head.contains('/')) by {
        if head.contains('/') {
            let k = choose|k: int| 0 <= k < head.len() && head[k] == '/';
            assert(scope.contains(scope[k - 1]));
        }
    }
    texts::lemma_divided(head, "/"@, rest);
    assert(s.skip(scope.len() as int + 2) =~= rest);
    assert(s[0] == '@');
    assert(tail.len() == 0 ==> s.last() == name.last());
    assert(tail.len() > 0 ==> s.last() == tail.last());
    texts::lemma_trimmed(s);
    assert forall|i: int| 0 <= i < s.len() implies !text::is_control(#[trigger] s[i]) by {
        if i >= 1 && i < 1 + scope.len() {
            assert(s[i] == scope[i - 1]);
        } else if i > 1 + scope.len() && i < 2 + scope.len() + name.len() {
            assert(s[i] == name[i - 2 - scope.len()]);
        } else if i > 2 + scope.len() + name.len() {
            assert(s[i] == tail.skip(1)[i - 3 - scope.len() - name.len()]);
        }
    }
}

/// A selector that names a file, a link, a workspace or a repository is
/// refused: only the registry is asked.
pub proof fn lemma_foreign_selector_is_refused(
    name: Seq<char>,
    scheme: Seq<char>,
    rest: Seq<char>,
)
    requires
        slug(name),
        ({
            ||| scheme == seq!['f', 'i', 'l', 'e', ':']
            ||| scheme == seq!['l', 'i', 'n', 'k', ':']
            ||| scheme == seq!['g', 'i', 't', ':']
            ||| scheme == seq!['g', 'i', 't', '+']
            ||| scheme == seq!['h', 't', 't', 'p', ':']
            ||| scheme == seq!['h', 't', 't', 'p', 's', ':']
            ||| scheme == seq!['s', 's', 'h', ':']
            ||| scheme == seq!['g', 'i', 't', 'h', 'u', 'b', ':']
            ||| scheme == seq!['w', 'o', 'r', 'k', 's', 'p', 'a', 'c', 'e', ':']
        }),
        rest.len() > 0,
        !text::is_whitespace(rest.last()),
        !text::some_control(rest),
    ensures
        npm_spec::npm_spec_of(seq!['n', 'p', 'm', ':'] + (name + seq!['@'] + (scheme + rest)))
            is None,
{
    reveal_strlit("npm:");
    let prefix = seq!['n', 'p', 'm', ':'];
    assert("npm:"@ =~= prefix);
    let selector = scheme + rest;
    let s = name + seq!['@'] + selector;
    lemma_slug(name);
    lemma_name(name);
    assert(selector.last() == rest.last());
    assert forall|i: int| 0 <= i < selector.len() implies !text::is_control(
        #[trigger] selector[i],
    ) by {
        if i < scheme.len() {
            assert(selector[i] == scheme[i]);
        } else {
            assert(selector[i] == rest[i - scheme.len()]);
        }
    }
    lemma_at(name, selector);
    texts::lemma_prefix_goes(prefix, s);
    assert(selector[0] == scheme[0]);
    texts::lemma_trimmed(selector);
    assert(!text::begins(selector, "npm:"@)) by {
        if text::begins(selector, "npm:"@) {
            assert(selector.subrange(0, 4)[0] == selector[0]);
        }
    }
    lemma_scheme(scheme, rest);
    assert(!npm_spec::registry_selector(selector, true));
}

proof fn lemma_scheme(scheme: Seq<char>, rest: Seq<char>)
    requires
        ({
            ||| scheme == seq!['f', 'i', 'l', 'e', ':']
            ||| scheme == seq!['l', 'i', 'n', 'k', ':']
            ||| scheme == seq!['g', 'i', 't', ':']
            ||| scheme == seq!['g', 'i', 't', '+']
            ||| scheme == seq!['h', 't', 't', 'p', ':']
            ||| scheme == seq!['h', 't', 't', 'p', 's', ':']
            ||| scheme == seq!['s', 's', 'h', ':']
            ||| scheme == seq!['g', 'i', 't', 'h', 'u', 'b', ':']
            ||| scheme == seq!['w', 'o', 'r', 'k', 's', 'p', 'a', 'c', 'e', ':']
        }),
    ensures
        npm_spec::foreign_selector(text::lower_of(scheme + rest)),
{
    reveal_strlit("file:");
    reveal_strlit("link:");
    reveal_strlit("workspace:");
    reveal_strlit("git:");
    reveal_strlit("git+");
    reveal_strlit("http:");
    reveal_strlit("https:");
    reveal_strlit("ssh:");
    reveal_strlit("github:");
    let selector = scheme + rest;
    let lower = text::lower_of(selector);
    let n = scheme.len() as int;
    assert forall|i: int| 0 <= i < n implies #[trigger] lower[i] == scheme[i] by {
        assert(selector[i] == scheme[i]);
        assert(!('A' <= scheme[i] && scheme[i] <= 'Z'));
    }
    assert(lower.subrange(0, n) =~= scheme);
    assert("file:"@ =~= seq!['f', 'i', 'l', 'e', ':']);
    assert("link:"@ =~= seq!['l', 'i', 'n', 'k', ':']);
    assert("git:"@ =~= seq!['g', 'i', 't', ':']);
    assert("git+"@ =~= seq!['g', 'i', 't', '+']);
    assert("http:"@ =~= seq!['h', 't', 't', 'p', ':']);
    assert("https:"@ =~= seq!['h', 't', 't', 'p', 's', ':']);
    assert("ssh:"@ =~= seq!['s', 's', 'h', ':']);
    assert("github:"@ =~= seq!['g', 'i', 't', 'h', 'u', 'b', ':']);
    assert("workspace:"@ =~= seq!['w', 'o', 'r', 'k', 's', 'p', 'a', 'c', 'e', ':']);
}

/// A name that begins with a dot or a hyphen, or that holds a separator
/// outside of a scope, is no package name.
pub proof fn lemma_unsafe_name_is_refused(name: Seq<char>)
    requires
        name.len() > 0,
        name[0] == '.' || name[0] == '-' || (name[0] != '@' && (name.contains('/')
            || name.contains('\\') || name.contains(' '))),
    ensures
        !npm_spec::npm_name(name),
{
    if npm_spec::name_part(name) {
        assert(forall|i: int| 0 <= i < name.len() ==> npm_spec::is_name_char(#[trigger] name[i]));
    }
}

} // verus!
