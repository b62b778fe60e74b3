//! What specifications of repositories name.

use vstd::prelude::*;

use crate::git_source;
use crate::git_source::{GitModel, GitTransport};
use crate::laws::npm_sources;
use crate::laws::texts;
use crate::text;

verus! {

/// The path of a repository: its owner and its name.
pub open spec fn owned(owner: Seq<char>, repo: Seq<char>) -> Seq<char> {
    owner + seq!['/'] + repo
}

/// A repository on a host that is reached as `transport` says.
pub open spec fn hosted(
    host: Seq<char>,
    owner: Seq<char>,
    repo: Seq<char>,
    revision: Option<Seq<char>>,
    transport: GitTransport,
    user: Option<Seq<char>>,
) -> GitModel {
    GitModel {
        host: text::lower_of(host),
        path: owned(owner, repo),
        revision,
        transport,
        port: None,
        user_info: user,
    }
}

/// Whether `s` is a name that does not end as a repository's directory does.
pub open spec fn named(s: Seq<char>) -> bool {
    npm_sources::slug(s) && !text::ends(s, seq!['.', 'g', 'i', 't'])
}

proof fn lemma_plain_bytes(bytes: Seq<u8>, i: int)
    requires
        0 <= i <= bytes.len(),
        forall|k: int| 0 <= k < bytes.len() ==> #[trigger] bytes[k] != 37,
    ensures
        git_source::unescaped(bytes, i) == Some(bytes.skip(i)),
    decreases bytes.len() - i,
{
    if i < bytes.len() {
        lemma_plain_bytes(bytes, i + 1);
        assert(seq![bytes[i]] + bytes.skip(i + 1) =~= bytes.skip(i));
    } else {
        assert(bytes.skip(i) =~= seq![]);
    }
}

/// A text without a percent sign decodes to itself.
pub proof fn lemma_unescaped_stays(s: Seq<char>)
    requires
        vstd::utf8::is_ascii_chars(s),
        !s.contains('%'),
    ensures
        git_source::percent_decoded(s) == Some(s),
{
    vstd::utf8::is_ascii_chars_encode_utf8(s);
    let bytes = vstd::utf8::encode_utf8(s);
    assert forall|k: int| 0 <= k < bytes.len() implies #[trigger] bytes[k] != 37 by {
        assert(s[k] as u8 == bytes[k]);
        assert(s.contains(s[k]));
        assert('\0' <= s[k] <= '\u{7f}');
        assert(s[k] != '%');
    }
    lemma_plain_bytes(bytes, 0);
    assert(bytes.skip(0) =~= bytes);
    vstd::utf8::encode_utf8_valid_utf8(s);
    vstd::utf8::encode_utf8_decode_utf8(s);
}

proof fn lemma_safe_name(s: Seq<char>, slash: bool)
    requires
        npm_sources::slug(s),
    ensures
        git_source::safe_install_part(s, slash),
        git_source::safe_revision(s) || text::holds(s, ".."@),
{
    reveal_strlit("/");
    reveal_strlit("@{");
    npm_sources::lemma_slug(s);
    texts::lemma_undivided(s, "/"@);
    texts::lemma_undivided(s, "@{"@);
    assert(text::pieces(s, "/"@) =~= seq![s]);
    assert(vstd::utf8::is_ascii_chars(s));
    lemma_unescaped_stays(s);
    assert(git_source::plain_segments(s));
    assert forall|i: int| 0 <= i < s.len() implies !git_source::bad_install_char(#[trigger] s[i])
        && !git_source::bad_revision_char(s[i]) by {}
}

proof fn lemma_lower_name(s: Seq<char>)
    requires
        npm_sources::slug(s),
    ensures
        npm_sources::slug(text::lower_of(s)),
{
    let t = text::lower_of(s);
    assert forall|i: int| 0 <= i < t.len() implies text::is_alphanumeric(#[trigger] t[i]) || t[i]
        == '-' || t[i] == '_' || t[i] == '.' by {
        assert(t[i] == text::lower_char(s[i]));
    }
    assert(t[0] == text::lower_char(s[0]));
}

proof fn lemma_owned(owner: Seq<char>, repo: Seq<char>)
    requires
        npm_sources::slug(owner),
        npm_sources::slug(repo),
    ensures
        text::pieces(owned(owner, repo), "/"@) == seq![owner, repo],
        git_source::safe_install_part(owned(owner, repo), true),
{
    reveal_strlit("/");
    assert("/"@ =~= seq!['/']);
    let path = owned(owner, repo);
    npm_sources::lemma_slug(owner);
    npm_sources::lemma_slug(repo);
    texts::lemma_divided(owner, "/"@, repo);
    texts::lemma_undivided(repo, "/"@);
    assert(seq![owner] + seq![repo] =~= seq![owner, repo]);
    assert forall|i: int| 0 <= i < path.len() implies !git_source::bad_install_char(
        #[trigger] path[i],
    ) && path[i] != '%' && path[i] <= '\u{7f}' by {
        if i < owner.len() {
            assert(path[i] == owner[i]);
            assert(owner.contains(owner[i]));
        } else if i > owner.len() {
            assert(path[i] == repo[i - owner.len() - 1]);
            assert(repo.contains(repo[i - owner.len() - 1]));
        }
    }
    assert(vstd::utf8::is_ascii_chars(path));
    lemma_unescaped_stays(path);
    assert(git_source::plain_segments(path));
}

proof fn lemma_bare(owner: Seq<char>, repo: Seq<char>)
    requires
        npm_sources::slug(owner),
        named(repo),
    ensures
        git_source::bare_path(owned(owner, repo)) == owned(owner, repo),
        git_source::bare_path(owned(owner, repo) + seq!['.', 'g', 'i', 't']) == owned(owner, repo),
{
    reveal_strlit(".git");
    let dot = seq!['.', 'g', 'i', 't'];
    assert(".git"@ =~= dot);
    let path = owned(owner, repo);
    npm_sources::lemma_slug(owner);
    npm_sources::lemma_slug(repo);
    assert(path[0] == owner[0]);
    assert(path[0] != '/') by {
        assert(owner.contains(owner[0]));
    }
    assert(path.last() == repo.last());
    assert(path.last() != '/') by {
        assert(repo.contains(repo.last()));
    }
    texts::lemma_start_kept(path, '/');
    let whole = path + dot;
    assert(whole[0] == path[0]);
    texts::lemma_start_kept(whole, '/');
    assert(whole.subrange(whole.len() - 4, whole.len() as int) =~= dot);
    assert(whole.take(whole.len() - 4) =~= path);
    assert(path.take(path.len() as int) =~= path);
    assert(text::trim_end_char_of(path, '/') == path);
    assert(!text::ends(path, dot)) by {
        if text::ends(path, dot) {
            let n = path.len();
            let tail = path.subrange(n - 4, n as int);
            assert(tail[0] == path[n - 4] && tail[1] == path[n - 3] && tail[2] == path[n - 2]
                && tail[3] == path[n - 1]);
            let m = repo.len();
            assert(repo[m - 1] == path[n - 1]);
            if m >= 4 {
                assert(repo[m - 2] == path[n - 2] && repo[m - 3] == path[n - 3] && repo[m - 4]
                    == path[n - 4]);
                assert(repo.subrange(m - 4, m as int) =~= dot);
            } else {
                assert(path[n - m - 1] == '/');
                assert(tail[3 - m] == '/');
            }
        }
    }
}

/// A repository with its parts known is what the specification names.
proof fn lemma_named(
    spec: Seq<char>,
    repo_text: Seq<char>,
    host: Seq<char>,
    owner: Seq<char>,
    repo: Seq<char>,
    revision: Option<Seq<char>>,
    transport: GitTransport,
    user: Option<Seq<char>>,
    found_path: Seq<char>,
)
    requires
        npm_sources::slug(host),
        npm_sources::slug(owner),
        named(repo),
        git_source::raw_source(spec).len() > 0,
        git_source::repo_and_revision(git_source::raw_source(spec)) == (repo_text, revision),
        revision matches Some(r) ==> git_source::safe_revision(r),
        found_path == owned(owner, repo) || found_path == owned(owner, repo) + seq![
            '.',
            'g',
            'i',
            't',
        ],
        git_source::located(repo_text) == Some(
            GitModel {
                host,
                path: found_path,
                revision: None,
                transport,
                port: None,
                user_info: user,
            },
        ),
    ensures
        git_source::git_source_of(spec) == Some(
            hosted(host, owner, repo, revision, transport, user),
        ),
{
    lemma_bare(owner, repo);
    lemma_owned(owner, repo);
    lemma_lower_name(host);
    lemma_safe_name(text::lower_of(host), false);
}

proof fn lemma_host(host: Seq<char>)
    requires
        npm_sources::slug(host),
    ensures
        git_source::git_host(host) == Some(host),
        git_source::authority_of(host) == Some((host, None::<u16>, None::<Seq<char>>)),
{
    reveal_strlit(":");
    reveal_strlit("@");
    npm_sources::lemma_slug(host);
    texts::lemma_trimmed(host);
    text::lemma_last_index_to(host, ":"@, host.len() - 1);
    text::lemma_last_index_to(host, "@"@, host.len() - 1);
    if let Some(k) = text::last_index_of(host, ":"@) {
        assert(host.subrange(k, k + 1)[0] == host[k]);
        assert(host.contains(host[k]));
    }
    if let Some(k) = text::last_index_of(host, "@"@) {
        assert(host.subrange(k, k + 1)[0] == host[k]);
        assert(host.contains(host[k]));
    }
    assert(host[0] != '[');
}

/// A host and a path, as the short form has them.
pub open spec fn short(host: Seq<char>, path: Seq<char>) -> Seq<char> {
    host + seq!['/'] + path
}

proof fn lemma_no_colon(host: Seq<char>, owner: Seq<char>, repo: Seq<char>)
    requires
        npm_sources::slug(host),
        npm_sources::slug(owner),
        npm_sources::slug(repo),
    ensures
        !short(host, owned(owner, repo)).contains(':'),
        !short(host, owned(owner, repo)).contains('@'),
{
    let s = short(host, owned(owner, repo));
    npm_sources::lemma_slug(host);
    npm_sources::lemma_slug(owner);
    npm_sources::lemma_slug(repo);
    assert forall|i: int| 0 <= i < s.len() implies #[trigger] s[i] != ':' && s[i] != '@' by {
        if i < host.len() {
            assert(s[i] == host[i]);
            assert(host.contains(host[i]));
        } else if i > host.len() && i < host.len() + 1 + owner.len() {
            assert(s[i] == owner[i - host.len() - 1]);
            assert(owner.contains(owner[i - host.len() - 1]));
        } else if i > host.len() + 1 + owner.len() {
            assert(s[i] == repo[i - host.len() - owner.len() - 2]);
            assert(repo.contains(repo[i - host.len() - owner.len() - 2]));
        }
    }
}

proof fn lemma_short_located(host: Seq<char>, owner: Seq<char>, repo: Seq<char>)
    requires
        npm_sources::slug(host),
        npm_sources::slug(owner),
        npm_sources::slug(repo),
    ensures
        git_source::located(short(host, owned(owner, repo))) == Some(
            GitModel {
                host,
                path: owned(owner, repo),
                revision: None,
                transport: GitTransport::Https,
                port: None,
                user_info: None,
            },
        ),
{
    reveal_strlit("://");
    reveal_strlit("git@");
    reveal_strlit("/");
    assert("/"@ =~= seq!['/']);
    let s = short(host, owned(owner, repo));
    lemma_no_colon(host, owner, repo);
    texts::lemma_undivided(s, "://"@);
    texts::lemma_begins_not(s, "git@"@, 3);
    npm_sources::lemma_slug(host);
    texts::lemma_divided(host, "/"@, owned(owner, repo));
    lemma_host(host);
}

proof fn lemma_short_start(host: Seq<char>, rest: Seq<char>)
    requires
        npm_sources::slug(host),
        !rest.contains(':'),
    ensures
        git_source::path_start(short(host, rest)) == Some(host.len() as int + 1),
{
    reveal_strlit("://");
    reveal_strlit("git@");
    reveal_strlit("/");
    assert("/"@ =~= seq!['/']);
    let s = short(host, rest);
    npm_sources::lemma_slug(host);
    assert(!s.contains(':')) by {
        if s.contains(':') {
            let k = choose|k: int| 0 <= k < s.len() && s[k] == ':';
            if k < host.len() {
                assert(host.contains(host[k]));
            } else if k > host.len() {
                assert(rest.contains(rest[k - host.len() - 1]));
            }
        }
    }
    assert(!text::begins(s, "git@"@)) by {
        if text::begins(s, "git@"@) {
            let head = s.subrange(0, 4);
            assert(head[0] == s[0] && head[1] == s[1] && head[2] == s[2] && head[3] == s[3]);
            if host.len() > 3 {
                assert(host.contains(host[3]));
            } else {
                assert(s[host.len() as int] == '/');
                assert(head[host.len() as int] == '/');
            }
        }
    }
    texts::lemma_undivided(s, "://"@);
    texts::lemma_found(host, "/"@, rest);
}

/// The short form names a repository on its host, to be reached by HTTPS, in
/// whatever revision is current; `git:` in front says nothing.
pub proof fn lemma_short_form(host: Seq<char>, owner: Seq<char>, repo: Seq<char>)
    requires
        npm_sources::slug(host),
        npm_sources::slug(owner),
        named(repo),
    ensures
        git_source::git_source_of(short(host, owned(owner, repo))) == Some(
            hosted(host, owner, repo, None, GitTransport::Https, None),
        ),
        git_source::git_source_of(seq!['g', 'i', 't', ':'] + short(host, owned(owner, repo)))
            == Some(hosted(host, owner, repo, None, GitTransport::Https, None)),
{
    let s = short(host, owned(owner, repo));
    lemma_raw(host, owned(owner, repo));
    lemma_no_colon(host, owner, repo);
    lemma_short_located(host, owner, repo);
    lemma_unrevised(s);
    let git = seq!['g', 'i', 't', ':'];
    lemma_named(s, s, host, owner, repo, None, GitTransport::Https, None, owned(owner, repo));
    lemma_named(
        git + s,
        s,
        host,
        owner,
        repo,
        None,
        GitTransport::Https,
        None,
        owned(owner, repo),
    );
}

proof fn lemma_unrevised(raw: Seq<char>)
    requires
        !raw.contains('@'),
    ensures
        git_source::repo_and_revision(raw) == (raw, None::<Seq<char>>),
{
    reveal_strlit("@");
    if let Some(start) = git_source::path_start(raw) {
        let rest = raw.skip(start);
        if 0 <= start <= raw.len() {
            assert(!rest.contains('@')) by {
                if rest.contains('@') {
                    let k = choose|k: int| 0 <= k < rest.len() && rest[k] == '@';
                    assert(raw.contains(raw[k + start]));
                }
            }
            texts::lemma_undivided(rest, "@"@);
        } else {
            lemma_start_within(raw);
        }
    }
}

proof fn lemma_start_within(raw: Seq<char>)
    ensures
        git_source::path_start(raw) matches Some(start) ==> 0 <= start <= raw.len(),
{
    reveal_strlit(":");
    reveal_strlit("://");
    reveal_strlit("/");
    text::lemma_index_from(raw, ":"@, 0);
    text::lemma_index_from(raw, "://"@, 0);
    text::lemma_index_from(raw, "/"@, 0);
    if let Some(end) = text::index_of(raw, "://"@) {
        text::lemma_index_from(raw.skip(end + 3), "/"@, 0);
    }
}

proof fn lemma_raw(host: Seq<char>, path: Seq<char>)
    requires
        npm_sources::slug(host),
        path.len() > 0,
        !text::is_whitespace(path.last()),
    ensures
        git_source::raw_source(short(host, path)) == short(host, path),
        git_source::raw_source(seq!['g', 'i', 't', ':'] + short(host, path)) == short(host, path),
        short(host, path).len() > 0,
{
    reveal_strlit("git:");
    reveal_strlit("//");
    let git = seq!['g', 'i', 't', ':'];
    assert("git:"@ =~= git);
    let s = short(host, path);
    npm_sources::lemma_slug(host);
    assert(s[0] == host[0] && s.last() == path.last());
    texts::lemma_trimmed(s);
    assert(!text::begins(s, git)) by {
        if text::begins(s, git) {
            let head = s.subrange(0, 4);
            assert(head[3] == s[3] && head[0] == s[0] && head[1] == s[1] && head[2] == s[2]);
            if host.len() > 3 {
                assert(host.contains(host[3]));
            } else {
                assert(s[host.len() as int] == '/');
                assert(head[host.len() as int] == '/');
            }
        }
    }
    let whole = git + s;
    assert(whole[0] == 'g' && whole.last() == s.last());
    texts::lemma_trimmed(whole);
    texts::lemma_prefix_goes(git, s);
    assert(host.contains(host[0]));
    texts::lemma_begins_at_not(s, "//"@);
}

/// What stands behind the `@` of the path is the revision that is asked for.
pub proof fn lemma_revision_behind_path(
    host: Seq<char>,
    owner: Seq<char>,
    repo: Seq<char>,
    revision: Seq<char>,
)
    requires
        npm_sources::slug(host),
        npm_sources::slug(owner),
        named(repo),
        npm_sources::slug(revision),
        !text::holds(revision, ".."@),
    ensures
        git_source::git_source_of(
            seq!['g', 'i', 't', ':'] + short(host, owned(owner, repo) + seq!['@'] + revision),
        ) == Some(hosted(host, owner, repo, Some(revision), GitTransport::Https, None)),
{
    let path = owned(owner, repo);
    let rest = path + seq!['@'] + revision;
    let s = short(host, rest);
    let git = seq!['g', 'i', 't', ':'];
    npm_sources::lemma_slug(revision);
    assert(rest.last() == revision.last());
    lemma_raw(host, rest);
    lemma_revised(host, owner, repo, revision);
    lemma_short_located(host, owner, repo);
    lemma_safe_name(revision, true);
    lemma_named(
        git + s,
        short(host, path),
        host,
        owner,
        repo,
        Some(revision),
        GitTransport::Https,
        None,
        path,
    );
}

proof fn lemma_revised(
    host: Seq<char>,
    owner: Seq<char>,
    repo: Seq<char>,
    revision: Seq<char>,
)
    requires
        npm_sources::slug(host),
        npm_sources::slug(owner),
        npm_sources::slug(repo),
        npm_sources::slug(revision),
    ensures
        git_source::repo_and_revision(short(host, owned(owner, repo) + seq!['@'] + revision)) == (
            short(host, owned(owner, repo)),
            Some(revision),
        ),
{
    reveal_strlit("@");
    assert("@"@ =~= seq!['@']);
    let path = owned(owner, repo);
    let rest = path + seq!['@'] + revision;
    let raw = short(host, rest);
    npm_sources::lemma_slug(revision);
    lemma_path_plain(owner, repo);
    assert(!rest.contains(':')) by {
        if rest.contains(':') {
            let k = choose|k: int| 0 <= k < rest.len() && rest[k] == ':';
            if k < path.len() {
                assert(path.contains(path[k]));
            } else if k > path.len() {
                assert(revision.contains(revision[k - path.len() - 1]));
            }
        }
    }
    lemma_short_start(host, rest);
    let start = host.len() as int + 1;
    assert(raw.skip(start) =~= path + "@"@ + revision);
    texts::lemma_found(path, "@"@, revision);
    let offset = path.len() as int;
    assert(raw.skip(start + offset + 1) =~= revision);
    assert(raw.take(start + offset) =~= short(host, path));
}

proof fn lemma_path_plain(owner: Seq<char>, repo: Seq<char>)
    requires
        npm_sources::slug(owner),
        npm_sources::slug(repo),
    ensures
        !owned(owner, repo).contains(':'),
        !owned(owner, repo).contains('@'),
{
    let path = owned(owner, repo);
    npm_sources::lemma_slug(owner);
    npm_sources::lemma_slug(repo);
    assert forall|i: int| 0 <= i < path.len() implies #[trigger] path[i] != ':' && path[i] != '@' by {
        if i < owner.len() {
            assert(path[i] == owner[i]);
            assert(owner.contains(owner[i]));
        } else if i > owner.len() {
            assert(path[i] == repo[i - owner.len() - 1]);
            assert(repo.contains(repo[i - owner.len() - 1]));
        }
    }
}

/// The name of a transport in a URL.
pub open spec fn scheme_of(transport: GitTransport) -> Seq<char> {
    match transport {
        GitTransport::Http => seq!['h', 't', 't', 'p'],
        GitTransport::Https => seq!['h', 't', 't', 'p', 's'],
        GitTransport::Ssh => seq!['s', 's', 'h'],
        GitTransport::Git => seq!['g', 'i', 't'],
    }
}

proof fn lemma_scheme(transport: GitTransport)
    ensures
        git_source::transport_of(scheme_of(transport)) == Some(transport),
        !scheme_of(transport).contains(':'),
        scheme_of(transport).len() > 0,
        !text::is_whitespace(scheme_of(transport)[0]),
{
    reveal_strlit("http");
    reveal_strlit("https");
    reveal_strlit("ssh");
    reveal_strlit("git");
    let s = scheme_of(transport);
    assert(text::lower_of(s) =~= s);
    assert("http"@ =~= seq!['h', 't', 't', 'p']);
    assert("https"@ =~= seq!['h', 't', 't', 'p', 's']);
    assert("ssh"@ =~= seq!['s', 's', 'h']);
    assert("git"@ =~= seq!['g', 'i', 't']);
    assert("ssh"@[0] == 's' && "git"@[0] == 'g' && "http"@[0] == 'h' && "https"@[0] == 'h');
    assert("ssh"@.len() == 3 && "git"@.len() == 3 && "http"@.len() == 4 && "https"@.len() == 5);
}

/// A URL of a repository.
pub open spec fn url(transport: GitTransport, host: Seq<char>, path: Seq<char>) -> Seq<char> {
    scheme_of(transport) + seq![':', '/', '/'] + short(host, path)
}

proof fn lemma_url_located(
    transport: GitTransport,
    host: Seq<char>,
    path: Seq<char>,
)
    requires
        npm_sources::slug(host),
    ensures
        git_source::located(url(transport, host, path)) == Some(
            GitModel { host, path, revision: None, transport, port: None, user_info: None },
        ),
{
    reveal_strlit("://");
    reveal_strlit("/");
    assert("/"@ =~= seq!['/']);
    assert("://"@ =~= seq![':', '/', '/']);
    let scheme = scheme_of(transport);
    let s = url(transport, host, path);
    lemma_scheme(transport);
    texts::lemma_found(scheme, "://"@, short(host, path));
    assert(s.take(scheme.len() as int) =~= scheme);
    assert(s.skip(scheme.len() as int + 3) =~= short(host, path));
    npm_sources::lemma_slug(host);
    texts::lemma_divided(host, "/"@, path);
    lemma_host(host);
}

/// A URL names a repository on its host and how to reach it, with `.git`
/// behind its name or without.
pub proof fn lemma_url_form(
    transport: GitTransport,
    host: Seq<char>,
    owner: Seq<char>,
    repo: Seq<char>,
    suffix: Seq<char>,
)
    requires
        npm_sources::slug(host),
        npm_sources::slug(owner),
        named(repo),
        suffix == Seq::<char>::empty() || suffix == seq!['.', 'g', 'i', 't'],
    ensures
        git_source::git_source_of(url(transport, host, owned(owner, repo) + suffix)) == Some(
            hosted(host, owner, repo, None, transport, None),
        ),
{
    let path = owned(owner, repo) + suffix;
    let s = url(transport, host, path);
    lemma_url_raw(transport, host, owner, repo, suffix);
    lemma_unrevised(s);
    lemma_url_located(transport, host, path);
    assert(suffix.len() == 0 ==> path =~= owned(owner, repo));
    lemma_named(s, s, host, owner, repo, None, transport, None, path);
}

proof fn lemma_url_raw(
    transport: GitTransport,
    host: Seq<char>,
    owner: Seq<char>,
    repo: Seq<char>,
    suffix: Seq<char>,
)
    requires
        npm_sources::slug(host),
        npm_sources::slug(owner),
        npm_sources::slug(repo),
        suffix == Seq::<char>::empty() || suffix == seq!['.', 'g', 'i', 't'],
    ensures
        ({
            let s = url(transport, host, owned(owner, repo) + suffix);
            git_source::raw_source(s) == s && s.len() > 0 && !s.contains('@')
        }),
{
    reveal_strlit("git:");
    reveal_strlit("//");
    let path = owned(owner, repo) + suffix;
    let s = url(transport, host, path);
    let scheme = scheme_of(transport);
    lemma_scheme(transport);
    npm_sources::lemma_slug(host);
    npm_sources::lemma_slug(owner);
    npm_sources::lemma_slug(repo);
    lemma_path_plain(owner, repo);
    assert(s[0] == scheme[0]);
    assert(s.last() == path.last());
    assert(suffix.len() == 0 ==> path =~= owned(owner, repo));
    assert(suffix.len() == 0 ==> path.last() == repo.last());
    assert(suffix.len() > 0 ==> path.last() == 't');
    texts::lemma_trimmed(s);
    let n = scheme.len() as int;
    assert forall|i: int| 0 <= i < s.len() implies #[trigger] s[i] != '@' by {
        if i < n {
            assert(s[i] == scheme[i]);
        } else if i >= n + 3 && i < n + 3 + host.len() {
            assert(s[i] == host[i - n - 3]);
            assert(host.contains(host[i - n - 3]));
        } else if i > n + 3 + host.len() {
            let k = i - n - 4 - host.len();
            assert(s[i] == path[k]);
            if k < owned(owner, repo).len() {
                assert(path[k] == owned(owner, repo)[k]);
                assert(owned(owner, repo).contains(owned(owner, repo)[k]));
            } else {
                assert(path[k] == suffix[k - owned(owner, repo).len()]);
            }
        }
    }
    if text::begins(s, "git:"@) {
        let head = s.subrange(0, 4);
        assert(head[0] == s[0] && head[1] == s[1] && head[2] == s[2] && head[3] == s[3]);
        assert(transport == GitTransport::Git) by {
            if transport == GitTransport::Http || transport == GitTransport::Https {
                assert(s[0] == 'h');
            }
            if transport == GitTransport::Ssh {
                assert(s[0] == 's');
            }
        }
        let rest = s.skip(4);
        assert(rest[0] == '/' && rest[1] == '/');
        assert(rest.subrange(0, 2) =~= "//"@);
    }
}

/// The form of secure copies names a repository that the user `git` reaches
/// by SSH.
pub proof fn lemma_copy_form(
    host: Seq<char>,
    owner: Seq<char>,
    repo: Seq<char>,
    suffix: Seq<char>,
)
    requires
        npm_sources::slug(host),
        npm_sources::slug(owner),
        named(repo),
        suffix == Seq::<char>::empty() || suffix == seq!['.', 'g', 'i', 't'],
    ensures
        git_source::git_source_of(
            seq!['g', 'i', 't', '@'] + (host + seq![':'] + (owned(owner, repo) + suffix)),
        ) == Some(
            hosted(host, owner, repo, None, GitTransport::Ssh, Some(seq!['g', 'i', 't'])),
        ),
{
    let path = owned(owner, repo) + suffix;
    let s = seq!['g', 'i', 't', '@'] + (host + seq![':'] + path);
    lemma_copy_path(owner, repo, suffix);
    lemma_copy_raw(host, path);
    lemma_copy_located(host, path);
    assert(suffix.len() == 0 ==> path =~= owned(owner, repo));
    lemma_named(
        s,
        s,
        host,
        owner,
        repo,
        None,
        GitTransport::Ssh,
        Some(seq!['g', 'i', 't']),
        path,
    );
}

proof fn lemma_copy_path(owner: Seq<char>, repo: Seq<char>, suffix: Seq<char>)
    requires
        npm_sources::slug(owner),
        npm_sources::slug(repo),
        suffix == Seq::<char>::empty() || suffix == seq!['.', 'g', 'i', 't'],
    ensures
        ({
            let path = owned(owner, repo) + suffix;
            &&& path.len() > 0
            &&& !path.contains(':')
            &&& !path.contains('@')
            &&& path[0] != '/'
            &&& !text::is_whitespace(path.last())
        }),
{
    let path = owned(owner, repo) + suffix;
    npm_sources::lemma_slug(owner);
    npm_sources::lemma_slug(repo);
    lemma_path_plain(owner, repo);
    assert(path[0] == owner[0]);
    assert(owner.contains(owner[0]));
    assert(suffix.len() == 0 ==> path.last() == repo.last());
    assert(suffix.len() > 0 ==> path.last() == 't');
    assert forall|k: int| 0 <= k < path.len() implies #[trigger] path[k] != ':' && path[k] != '@' by {
        if k < owned(owner, repo).len() {
            assert(path[k] == owned(owner, repo)[k]);
            assert(owned(owner, repo).contains(owned(owner, repo)[k]));
        } else {
            assert(path[k] == suffix[k - owned(owner, repo).len()]);
        }
    }
}

proof fn lemma_copy_raw(host: Seq<char>, path: Seq<char>)
    requires
        npm_sources::slug(host),
        path.len() > 0,
        !path.contains('@'),
        !text::is_whitespace(path.last()),
    ensures
        ({
            let s = seq!['g', 'i', 't', '@'] + (host + seq![':'] + path);
            &&& s.len() > 0
            &&& git_source::raw_source(s) == s
            &&& git_source::repo_and_revision(s) == (s, None::<Seq<char>>)
        }),
{
    reveal_strlit("git:");
    reveal_strlit("git@");
    reveal_strlit(":");
    reveal_strlit("@");
    assert(":"@ =~= seq![':']);
    let user = seq!['g', 'i', 't', '@'];
    assert("git@"@ =~= user);
    let rest = host + seq![':'] + path;
    let s = user + rest;
    npm_sources::lemma_slug(host);
    assert(s[0] == 'g' && s.last() == path.last());
    texts::lemma_trimmed(s);
    assert(!text::begins(s, "git:"@)) by {
        if text::begins(s, "git:"@) {
            assert(s.subrange(0, 4)[3] == s[3]);
        }
    }
    texts::lemma_prefix_goes(user, rest);
    let head = user + host;
    assert(!head.contains(':')) by {
        if head.contains(':') {
            let k = choose|k: int| 0 <= k < head.len() && head[k] == ':';
            if k >= 4 {
                assert(host.contains(host[k - 4]));
            }
        }
    }
    assert(s =~= head + ":"@ + path);
    texts::lemma_found(head, ":"@, path);
    assert(s.skip(head.len() as int + 1) =~= path);
    texts::lemma_undivided(path, "@"@);
}

proof fn lemma_copy_located(host: Seq<char>, path: Seq<char>)
    requires
        npm_sources::slug(host),
        path.len() > 0,
        path[0] != '/',
        !path.contains(':'),
    ensures
        git_source::located(seq!['g', 'i', 't', '@'] + (host + seq![':'] + path)) == Some(
            GitModel {
                host,
                path,
                revision: None,
                transport: GitTransport::Ssh,
                port: None,
                user_info: Some(seq!['g', 'i', 't']),
            },
        ),
{
    reveal_strlit("git@");
    reveal_strlit("git");
    reveal_strlit(":");
    reveal_strlit("://");
    assert(":"@ =~= seq![':']);
    assert("git"@ =~= seq!['g', 'i', 't']);
    let user = seq!['g', 'i', 't', '@'];
    assert("git@"@ =~= user);
    let rest = host + seq![':'] + path;
    let s = user + rest;
    npm_sources::lemma_slug(host);
    text::lemma_index_from(s, "://"@, 0);
    if let Some(k) = text::index_of(s, "://"@) {
        let found = s.subrange(k, k + 3);
        assert(found[0] == s[k] && found[1] == s[k + 1]);
        let colon = 4 + host.len() as int;
        if k < 4 {
            assert(s[k] == user[k]);
        } else if k < colon {
            assert(s[k] == host[k - 4]);
            assert(host.contains(host[k - 4]));
        } else if k == colon {
            assert(s[k + 1] == path[0]);
        } else {
            assert(s[k] == path[k - colon - 1]);
            assert(path.contains(path[k - colon - 1]));
        }
    }
    texts::lemma_prefix_goes(user, rest);
    texts::lemma_divided(host, ":"@, path);
    lemma_host(host);
}

/// A repository without an owner, or whose path leads up, is refused.
pub proof fn lemma_accepted_path_has_an_owner(spec: Seq<char>)
    requires
        git_source::git_source_of(spec) is Some,
    ensures
        ({
            let git = git_source::git_source_of(spec)->0;
            &&& git.path.contains('/')
            &&& git.host.len() > 0
            &&& !git.host.contains('/')
            &&& !git.host.contains('\\')
            &&& !git.path.contains('\\')
            &&& !git.path.contains(':')
            &&& git.path[0] != '/'
            &&& git.path.last() != '/'
            &&& git.revision matches Some(r) ==> r.len() > 0 && r[0] != '-'
        }),
{
    reveal_strlit("/");
    assert("/"@ =~= seq!['/']);
    let git = git_source::git_source_of(spec)->0;
    git_source::lemma_git_source_is_contained(spec);
    if !git.path.contains('/') {
        texts::lemma_undivided(git.path, "/"@);
    }
    assert(forall|i: int|
        0 <= i < git.path.len() ==> !git_source::bad_install_char(#[trigger] git.path[i]));
    assert(forall|i: int|
        0 <= i < git.host.len() ==> !git_source::bad_install_char(#[trigger] git.host[i]));
    let none = Seq::<char>::empty();
    if git.path[0] == '/' {
        assert(git.path =~= none + "/"@ + git.path.skip(1));
        texts::lemma_divided(none, "/"@, git.path.skip(1));
        assert(text::pieces(git.path, "/"@)[0] == none);
    }
    if git.path.last() == '/' {
        lemma_last_piece(git.path);
    }
}

proof fn lemma_last_piece(s: Seq<char>)
    requires
        s.len() > 0,
        s.last() == '/',
    ensures
        text::pieces(s, "/"@).len() > 0,
        text::pieces(s, "/"@).last().len() == 0,
    decreases s.len(),
{
    reveal_strlit("/");
    assert("/"@ =~= seq!['/']);
    text::lemma_index_from(s, "/"@, 0);
    let n = s.len() - 1;
    assert(s.subrange(n, n + 1) =~= "/"@);
    assert(text::stands_at(s, "/"@, n));
    let i = text::index_of(s, "/"@)->0;
    let rest = s.skip(i + 1);
    if rest.len() == 0 {
        texts::lemma_undivided(rest, "/"@);
    } else {
        assert(rest.last() == s.last());
        lemma_last_piece(rest);
    }
}

/// Whether no step of a path leads nowhere or up.
pub open spec fn leads_down(path: Seq<char>) -> bool {
    forall|i: int|
        0 <= i < text::pieces(path, seq!['/']).len() ==> {
            let step = #[trigger] text::pieces(path, seq!['/'])[i];
            step.len() > 0 && step != seq!['.'] && step != seq!['.', '.']
        }
}

/// The host and the path of an accepted repository lead down from where they
/// are put, as they are written and as they decode. A revision is no option
/// and no range.
pub proof fn lemma_accepted_repository_leads_down(spec: Seq<char>)
    requires
        git_source::git_source_of(spec) is Some,
    ensures
        ({
            let git = git_source::git_source_of(spec)->0;
            &&& leads_down(git.path)
            &&& leads_down(git.host)
            &&& git_source::percent_decoded(git.path) matches Some(d) && leads_down(d)
                && !d.contains('\\')
            &&& git_source::percent_decoded(git.host) matches Some(d) && leads_down(d)
                && !d.contains('/') && !d.contains('\\')
            &&& git.revision matches Some(r) ==> {
                &&& !text::holds(r, seq!['.', '.'])
                &&& git_source::percent_decoded(r) matches Some(d) && d.len() > 0 && d[0] != '-'
                    && !text::holds(d, seq!['.', '.'])
            }
        }),
{
    reveal_strlit("/");
    reveal_strlit(".");
    reveal_strlit("..");
    assert("/"@ =~= seq!['/']);
    assert("."@ =~= seq!['.']);
    assert(".."@ =~= seq!['.', '.']);
    let git = git_source::git_source_of(spec)->0;
    assert(git_source::safe_install_part(git.path, true));
    assert(git_source::safe_install_part(git.host, false));
    lemma_steps(git.path);
    lemma_steps(git.host);
    let path = git_source::percent_decoded(git.path)->0;
    let host = git_source::percent_decoded(git.host)->0;
    lemma_steps(path);
    lemma_steps(host);
    assert(forall|i: int| 0 <= i < path.len() ==> !git_source::bad_install_char(#[trigger] path[i]));
    assert(forall|i: int| 0 <= i < host.len() ==> !git_source::bad_install_char(#[trigger] host[i]));
    if let Some(r) = git.revision {
        assert(git_source::safe_revision(r));
    }
}

proof fn lemma_steps(s: Seq<char>)
    requires
        git_source::plain_segments(s),
    ensures
        leads_down(s),
{
    reveal_strlit("/");
    reveal_strlit(".");
    reveal_strlit("..");
    assert("/"@ =~= seq!['/']);
    assert("."@ =~= seq!['.']);
    assert(".."@ =~= seq!['.', '.']);
    assert forall|i: int| 0 <= i < text::pieces(s, seq!['/']).len() implies {
        let step = #[trigger] text::pieces(s, seq!['/'])[i];
        step.len() > 0 && step != seq!['.'] && step != seq!['.', '.']
    } by {
        assert(git_source::plain_segment(text::pieces(s, "/"@)[i]));
    }
}

} // verus!
