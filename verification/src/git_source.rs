//! Git package sources.

use vstd::prelude::*;
use vstd::utf8::{decode_utf8, encode_utf8, valid_utf8};

use crate::text;

verus! {

/// How a git repository is reached.
#[derive(Debug, Clone, Copy, PartialEq, Eq, Structural)]
pub enum GitTransport {
    Http,
    Https,
    Ssh,
    Git,
}

impl GitTransport {
    /// The port that the transport uses where none is given.
    #[verifier::allow_in_spec]
    pub fn default_port(self) -> u16
        returns
            (match self {
                GitTransport::Http => 80u16,
                GitTransport::Https => 443u16,
                GitTransport::Ssh => 22u16,
                GitTransport::Git => 9418u16,
            }),
    {
        match self {
            GitTransport::Http => 80,
            GitTransport::Https => 443,
            GitTransport::Ssh => 22,
            GitTransport::Git => 9418,
        }
    }
}

/// A git repository, and what of it is wanted.
pub struct GitSpec {
    pub host: String,
    pub path: String,
    pub revision: Option<String>,
    pub transport: GitTransport,
    pub port: Option<u16>,
    pub user_info: Option<String>,
}

/// The model of `GitSpec`.
#[verifier::ext_equal]
pub struct GitModel {
    pub host: Seq<char>,
    pub path: Seq<char>,
    pub revision: Option<Seq<char>>,
    pub transport: GitTransport,
    pub port: Option<u16>,
    pub user_info: Option<Seq<char>>,
}

impl View for GitSpec {
    type V = GitModel;

    open spec fn view(&self) -> GitModel {
        GitModel {
            host: self.host@,
            path: self.path@,
            revision: text::opt_text(self.revision),
            transport: self.transport,
            port: self.port,
            user_info: text::opt_text(self.user_info),
        }
    }
}

/// The view of an optional git source.
pub open spec fn git_view(o: Option<GitSpec>) -> Option<GitModel> {
    match o {
        Some(g) => Some(g@),
        None => None,
    }
}

/// The value of the byte `b` as a digit in base sixteen.
#[verifier::allow_in_spec]
pub fn hex_value(b: u8) -> Option<u8>
    returns
        (if 48 <= b && b <= 57 {
            Some((b - 48) as u8)
        } else if 97 <= b && b <= 102 {
            Some((b - 97 + 10) as u8)
        } else if 65 <= b && b <= 70 {
            Some((b - 65 + 10) as u8)
        } else {
            None
        }),
{
    if 48 <= b && b <= 57 {
        Some(b - 48)
    } else if 97 <= b && b <= 102 {
        Some(b - 97 + 10)
    } else if 65 <= b && b <= 70 {
        Some(b - 65 + 10)
    } else {
        None
    }
}

/// `bytes` from `i` on with each `%` and its two hexadecimal digits replaced
/// by the byte that they stand for.
pub open spec fn unescaped(bytes: Seq<u8>, i: int) -> Option<Seq<u8>>
    decreases bytes.len() - i,
{
    if i >= bytes.len() {
        Some(seq![])
    } else if bytes[i] == 37 {
        if i + 2 >= bytes.len() {
            None
        } else {
            match (hex_value(bytes[i + 1]), hex_value(bytes[i + 2])) {
                (Some(high), Some(low)) => match unescaped(bytes, i + 3) {
                    Some(rest) => Some(seq![(high * 16 + low) as u8] + rest),
                    None => None,
                },
                _ => None,
            }
        }
    } else {
        match unescaped(bytes, i + 1) {
            Some(rest) => Some(seq![bytes[i]] + rest),
            None => None,
        }
    }
}

/// `value` with its percent escapes decoded, where they are complete and
/// spell UTF-8.
pub open spec fn percent_decoded(value: Seq<char>) -> Option<Seq<char>> {
    match unescaped(encode_utf8(value), 0) {
        Some(bytes) => if valid_utf8(bytes) {
            Some(decode_utf8(bytes))
        } else {
            None
        },
        None => None,
    }
}

/// `value` with its percent escapes decoded.
pub fn percent_decode_for_validation(value: &str) -> (r: Option<String>)
    ensures
        text::opt_text(r) == percent_decoded(value@),
{
    let bytes = value.as_bytes();
    let mut decoded: Vec<u8> = Vec::new();
    let mut i: usize = 0;
    while i < bytes.len()
        invariant
            i <= bytes@.len(),
            bytes@ == encode_utf8(value@),
            unescaped(bytes@, 0) == (match unescaped(bytes@, i as int) {
                Some(rest) => Some(decoded@ + rest),
                None => None,
            }),
        decreases bytes.len() - i,
    {
        let ghost before = decoded@;
        if bytes[i] == 37 {
            if bytes.len() - i <= 2 {
                return None;
            }
            let high = hex_value(bytes[i + 1]);
            let low = hex_value(bytes[i + 2]);
            match (high, low) {
                (Some(high), Some(low)) => {
                    let byte: u8 = high * 16 + low;
                    decoded.push(byte);
                    proof {
                        if let Some(rest) = unescaped(bytes@, i + 3) {
                            assert(before + (seq![byte] + rest) =~= decoded@ + rest);
                        }
                    }
                },
                _ => {
                    return None;
                },
            }
            i += 3;
        } else {
            decoded.push(bytes[i]);
            proof {
                if let Some(rest) = unescaped(bytes@, i + 1) {
                    assert(before + (seq![bytes@[i as int]] + rest) =~= decoded@ + rest);
                }
            }
            i += 1;
        }
    }
    assert(decoded@ + seq![] =~= decoded@);
    text::string_from_utf8(decoded)
}

/// A character that neither a host nor a repository path may hold.
#[verifier::allow_in_spec]
pub fn bad_install_char(c: char) -> bool
    returns
        (c == '\0' || c == '\\' || text::is_control(c) || text::is_whitespace(c) || c == ':' || c
            == '?' || c == '*' || c == '[' || c == ']' || c == '<' || c == '>' || c == '|' || c
            == '"'),
{
    c == '\0' || c == '\\' || text::is_control(c) || text::is_whitespace(c) || c == ':' || c == '?'
        || c == '*' || c == '[' || c == ']' || c == '<' || c == '>' || c == '|' || c == '"'
}

/// A character that no revision may hold.
#[verifier::allow_in_spec]
pub fn bad_revision_char(c: char) -> bool
    returns
        (c == '\0' || c == '\\' || text::is_control(c) || text::is_whitespace(c) || c == '~' || c
            == '^' || c == ':' || c == '?' || c == '*' || c == '['),
{
    c == '\0' || c == '\\' || text::is_control(c) || text::is_whitespace(c) || c == '~' || c == '^'
        || c == ':' || c == '?' || c == '*' || c == '['
}

/// A segment between two `/` that names a place of its own.
pub open spec fn plain_segment(part: Seq<char>) -> bool {
    part.len() > 0 && part != "."@ && part != ".."@
}

/// Whether every segment of `s` between `/` is plain.
pub open spec fn plain_segments(s: Seq<char>) -> bool {
    forall|i: int|
        0 <= i < text::pieces(s, "/"@).len() ==> plain_segment(
            #[trigger] text::pieces(s, "/"@)[i],
        )
}

/// Whether every segment of `s` between `/` is plain.
pub fn has_plain_segments(s: &str) -> (r: bool)
    ensures
        r == plain_segments(s@),
{
    proof {
        reveal_strlit("/");
    }
    let parts = text::split(s, "/");
    let mut i: usize = 0;
    while i < parts.len()
        invariant
            i <= parts@.len(),
            text::strs(parts@) == text::pieces(s@, "/"@),
            forall|j: int|
                0 <= j < i ==> plain_segment(#[trigger] text::pieces(s@, "/"@)[j]),
        decreases parts.len() - i,
    {
        let part = parts[i];
        assert(text::strs(parts@)[i as int] == part@);
        if part.is_empty() || text::same(part, ".") || text::same(part, "..") {
            return false;
        }
        i += 1;
    }
    true
}

/// Whether `s` can stand as a host or, where `allow_slash` is set, as a
/// relative path.
pub open spec fn install_part(s: Seq<char>, allow_slash: bool) -> bool {
    &&& s.len() > 0
    &&& forall|i: int| 0 <= i < s.len() ==> !bad_install_char(#[trigger] s[i])
    &&& allow_slash || !s.contains('/')
    &&& plain_segments(s)
}

/// Whether `value` is an install part both as it stands and with its percent
/// escapes decoded.
pub open spec fn safe_install_part(value: Seq<char>, allow_slash: bool) -> bool {
    match percent_decoded(value) {
        Some(decoded) => install_part(value, allow_slash) && install_part(decoded, allow_slash),
        None => false,
    }
}

fn is_install_part(s: &str, allow_slash: bool) -> (r: bool)
    ensures
        r == install_part(s@, allow_slash),
{
    !s.is_empty() && !text::any_char(s, bad_install_char, Ghost(|c: char| bad_install_char(c))) && (
    allow_slash || !text::contains_char(s, '/')) && has_plain_segments(s)
}

/// Whether `value` is safe as a host or as a repository path.
pub fn safe_git_install_part(value: &str, allow_slash: bool) -> (r: bool)
    ensures
        r == safe_install_part(value@, allow_slash),
{
    match percent_decode_for_validation(value) {
        Some(decoded) => is_install_part(value, allow_slash) && is_install_part(
            decoded.as_str(),
            allow_slash,
        ),
        None => false,
    }
}

/// Whether `s` can stand as a revision.
pub open spec fn revision_text(s: Seq<char>) -> bool {
    &&& s.len() > 0
    &&& s[0] != '-'
    &&& !text::holds(s, ".."@)
    &&& !text::holds(s, "@{"@)
    &&& forall|i: int| 0 <= i < s.len() ==> !bad_revision_char(#[trigger] s[i])
    &&& plain_segments(s)
}

/// Whether `value` is a revision both as it stands and decoded.
pub open spec fn safe_revision(value: Seq<char>) -> bool {
    match percent_decoded(value) {
        Some(decoded) => revision_text(value) && revision_text(decoded),
        None => false,
    }
}

fn is_revision(s: &str) -> (r: bool)
    ensures
        r == revision_text(s@),
{
    !s.is_empty() && !text::starts_with_char(s, '-') && !text::contains(s, "..") && !text::contains(
        s,
        "@{",
    ) && !text::any_char(s, bad_revision_char, Ghost(|c: char| bad_revision_char(c)))
        && has_plain_segments(s)
}

/// Whether `value` is safe as a revision.
pub fn safe_git_revision(value: &str) -> (r: bool)
    ensures
        r == safe_revision(value@),
{
    match percent_decode_for_validation(value) {
        Some(decoded) => is_revision(value) && is_revision(decoded.as_str()),
        None => false,
    }
}

/// Where the repository path of `raw` starts: behind the authority.
pub open spec fn path_start(raw: Seq<char>) -> Option<int> {
    if text::begins(raw, "git@"@) {
        match text::index_of(raw, ":"@) {
            Some(i) => Some(i + 1),
            None => None,
        }
    } else {
        match text::index_of(raw, "://"@) {
            Some(scheme_end) => match text::index_of(raw.skip(scheme_end + 3), "/"@) {
                Some(i) => Some(scheme_end + 3 + i + 1),
                None => None,
            },
            None => match text::index_of(raw, "/"@) {
                Some(i) => Some(i + 1),
                None => None,
            },
        }
    }
}

/// `raw` cut at the first `@` of its repository path, where a revision
/// follows.
pub open spec fn repo_and_revision(raw: Seq<char>) -> (Seq<char>, Option<Seq<char>>) {
    match path_start(raw) {
        None => (raw, None),
        Some(start) => match text::index_of(raw.skip(start), "@"@) {
            None => (raw, None),
            Some(offset) => {
                let revision = raw.skip(start + offset + 1);
                if revision.len() == 0 {
                    (raw, None)
                } else {
                    (raw.take(start + offset), Some(revision))
                }
            },
        },
    }
}

fn find_path_start(raw: &str) -> (r: Option<usize>)
    ensures
        text::position(r) == path_start(raw@),
        r matches Some(i) ==> 0 < i <= raw@.len() <= usize::MAX,
{
    proof {
        reveal_strlit("/");
        reveal_strlit(":");
        reveal_strlit("://");
    }
    let size = raw.unicode_len();
    if text::starts_with(raw, "git@") {
        match text::find(raw, ":") {
            Some(i) => Some(i + 1),
            None => None,
        }
    } else {
        match text::find(raw, "://") {
            Some(scheme_end) => {
                match text::find(text::skip(raw, scheme_end + 3), "/") {
                    Some(i) => Some(scheme_end + 3 + i + 1),
                    None => None,
                }
            },
            None => match text::find(raw, "/") {
                Some(i) => Some(i + 1),
                None => None,
            },
        }
    }
}

/// Splits a git URL into its repository and optional revision. The separator
/// is searched only behind the URL's authority.
pub fn split_git_ref<'a>(raw: &'a str) -> (r: (&'a str, Option<&'a str>))
    ensures
        (r.0@, text::opt_str(r.1)) == repo_and_revision(raw@),
{
    proof {
        reveal_strlit("@");
    }
    let start = match find_path_start(raw) {
        Some(start) => start,
        None => {
            return (raw, None);
        },
    };
    match text::find(text::skip(raw, start), "@") {
        Some(offset) => {
            let revision = text::skip(raw, start + offset + 1);
            if revision.is_empty() {
                (raw, None)
            } else {
                (text::take(raw, start + offset), Some(revision))
            }
        },
        None => (raw, None),
    }
}

/// The host of an authority without user information: what stands between
/// brackets, or in front of a numeric port.
pub open spec fn git_host(authority: Seq<char>) -> Option<Seq<char>> {
    if authority != text::trim_of(authority) || authority.len() == 0 {
        None
    } else if authority[0] == '[' {
        match text::index_of(authority, "]"@) {
            None => None,
            Some(end) => {
                let suffix = authority.skip(end + 1);
                if suffix.len() > 0 && !(suffix[0] == ':' && text::only_digits(suffix.skip(1))) {
                    None
                } else {
                    Some(authority.subrange(1, end))
                }
            },
        }
    } else {
        match text::cut_last(authority, ":"@) {
            Some((host, port)) => if port.len() > 0 && text::only_digits(port) {
                Some(host)
            } else {
                Some(authority)
            },
            None => Some(authority),
        }
    }
}

/// The host of an authority without user information.
pub fn normalize_git_host<'a>(authority: &'a str) -> (r: Option<&'a str>)
    ensures
        text::opt_str(r) == git_host(authority@),
{
    proof {
        reveal_strlit("]");
    }
    if !text::same(authority, text::trim(authority)) || authority.is_empty() {
        return None;
    }
    let size = authority.unicode_len();
    if text::starts_with_char(authority, '[') {
        match text::find(authority, "]") {
            Some(end) => {
                assert(authority@[end as int] == ']') by {
                    assert(authority@.subrange(end as int, end + 1)[0] == "]"@[0]);
                }
                let suffix = text::skip(authority, end + 1);
                if !suffix.is_empty() && !(text::starts_with_char(suffix, ':')
                    && text::digits_only(text::skip(suffix, 1))) {
                    return None;
                }
                Some(text::slice(authority, 1, end))
            },
            None => None,
        }
    } else {
        match text::rsplit_once(authority, ":") {
            Some((host, port)) => {
                if !port.is_empty() && text::digits_only(port) {
                    Some(host)
                } else {
                    Some(authority)
                }
            },
            None => Some(authority),
        }
    }
}

/// A character that user information may not hold.
#[verifier::allow_in_spec]
pub fn bad_user_char(c: char) -> bool
    returns
        (c == '\\' || text::is_control(c) || text::is_whitespace(c)),
{
    c == '\\' || text::is_control(c) || text::is_whitespace(c)
}

/// The user information of an authority and what follows it.
pub open spec fn user_and_rest(authority: Seq<char>) -> Option<(Option<Seq<char>>, Seq<char>)> {
    match text::cut_last(authority, "@"@) {
        None => Some((None, authority)),
        Some((user, rest)) => if user.len() == 0 || exists|i: int|
            0 <= i < user.len() && bad_user_char(#[trigger] user[i]) {
            None
        } else {
            Some((Some(user), rest))
        },
    }
}

/// A port number in decimal.
pub open spec fn port_of(s: Seq<char>) -> Option<u16> {
    match text::number_of(s, 65535) {
        Some(n) => Some(n as u16),
        None => None,
    }
}

/// The host of `host_and_port`, brackets included, and its port.
pub open spec fn host_and_port(s: Seq<char>) -> Option<(Seq<char>, Option<u16>)> {
    if text::first_is(s, '[') {
        match text::index_of(s, "]"@) {
            None => None,
            Some(end) => {
                let suffix = s.skip(end + 1);
                if suffix.len() == 0 {
                    Some((s.take(end + 1), None))
                } else if suffix[0] == ':' {
                    Some((s.take(end + 1), port_of(suffix.skip(1))))
                } else {
                    None
                }
            },
        }
    } else {
        match text::cut_last(s, ":"@) {
            Some((host, port)) => if port.len() == 0 || !text::only_digits(port) || port_of(
                port,
            ) is None {
                None
            } else {
                Some((host, port_of(port)))
            },
            None => Some((s, None)),
        }
    }
}

/// The host, the port and the user information of a URL's authority.
pub open spec fn authority_of(authority: Seq<char>) -> Option<
    (Seq<char>, Option<u16>, Option<Seq<char>>),
> {
    if authority.len() == 0 || authority != text::trim_of(authority) {
        None
    } else {
        match user_and_rest(authority) {
            None => None,
            Some((user, rest)) => match host_and_port(rest) {
                None => None,
                Some((host, port)) => match git_host(host) {
                    None => None,
                    Some(host) => Some((host, port, user)),
                },
            },
        }
    }
}

fn parse_port(s: &str) -> (r: Option<u16>)
    ensures
        r == port_of(s@),
{
    match text::parse_number(s, 65535) {
        Some(n) => Some(n as u16),
        None => None,
    }
}

fn split_host_and_port<'a>(s: &'a str) -> (r: Option<(&'a str, Option<u16>)>)
    ensures
        (match r {
            Some(p) => Some((p.0@, p.1)),
            None => None,
        }) == host_and_port(s@),
{
    proof {
        reveal_strlit("]");
    }
    let size = s.unicode_len();
    if text::starts_with_char(s, '[') {
        match text::find(s, "]") {
            Some(end) => {
                let suffix = text::skip(s, end + 1);
                if suffix.is_empty() {
                    Some((text::take(s, end + 1), None))
                } else if text::starts_with_char(suffix, ':') {
                    Some((text::take(s, end + 1), parse_port(text::skip(suffix, 1))))
                } else {
                    None
                }
            },
            None => None,
        }
    } else {
        match text::rsplit_once(s, ":") {
            Some((host, port)) => {
                if port.is_empty() || !text::digits_only(port) {
                    return None;
                }
                match parse_port(port) {
                    Some(number) => Some((host, Some(number))),
                    None => None,
                }
            },
            None => Some((s, None)),
        }
    }
}

/// The host, the port and the user information of a URL's authority.
pub fn parse_git_authority(authority: &str) -> (r: Option<(String, Option<u16>, Option<String>)>)
    ensures
        (match r {
            Some(p) => Some((p.0@, p.1, text::opt_text(p.2))),
            None => None,
        }) == authority_of(authority@),
{
    if authority.is_empty() || !text::same(authority, text::trim(authority)) {
        return None;
    }
    let mut user: Option<String> = None;
    let mut rest = authority;
    match text::rsplit_once(authority, "@") {
        Some((name, after)) => {
            if name.is_empty() || text::any_char(
                name,
                bad_user_char,
                Ghost(|c: char| bad_user_char(c)),
            ) {
                return None;
            }
            user = Some(name.to_owned());
            rest = after;
        },
        None => {},
    }
    match split_host_and_port(rest) {
        Some((host, port)) => {
            match normalize_git_host(host) {
                Some(host) => Some((host.to_owned(), port, user)),
                None => None,
            }
        },
        None => None,
    }
}

/// The transport that a URL's scheme stands for.
pub open spec fn transport_of(scheme: Seq<char>) -> Option<GitTransport> {
    let s = text::lower_of(scheme);
    if s == "http"@ {
        Some(GitTransport::Http)
    } else if s == "https"@ {
        Some(GitTransport::Https)
    } else if s == "ssh"@ {
        Some(GitTransport::Ssh)
    } else if s == "git"@ {
        Some(GitTransport::Git)
    } else {
        None
    }
}

fn parse_transport(scheme: &str) -> (r: Option<GitTransport>)
    ensures
        r == transport_of(scheme@),
{
    let lowered = text::lower(scheme);
    let s = lowered.as_str();
    if text::same(s, "http") {
        Some(GitTransport::Http)
    } else if text::same(s, "https") {
        Some(GitTransport::Https)
    } else if text::same(s, "ssh") {
        Some(GitTransport::Ssh)
    } else if text::same(s, "git") {
        Some(GitTransport::Git)
    } else {
        None
    }
}

/// What a specification names once `git:`, Pi's own prefix, is taken off.
/// The scheme of `git://` stays.
pub open spec fn raw_source(spec: Seq<char>) -> Seq<char> {
    let trimmed = text::trim_of(spec);
    match text::after_prefix(trimmed, "git:"@) {
        Some(rest) => if text::begins(rest, "//"@) {
            trimmed
        } else {
            text::trim_of(rest)
        },
        None => trimmed,
    }
}

/// The repository, as written: a URL, `git@host:path`, or `host/path`.
pub open spec fn located(repo: Seq<char>) -> Option<GitModel> {
    match text::index_of(repo, "://"@) {
        Some(scheme_end) => match transport_of(repo.take(scheme_end)) {
            None => None,
            Some(transport) => match text::cut(repo.skip(scheme_end + 3), "/"@) {
                None => None,
                Some((authority, path)) => match authority_of(authority) {
                    None => None,
                    Some((host, port, user_info)) => Some(
                        GitModel { host, path, revision: None, transport, port, user_info },
                    ),
                },
            },
        },
        None => match text::after_prefix(repo, "git@"@) {
            Some(rest) => match text::cut(rest, ":"@) {
                None => None,
                Some((host, path)) => match git_host(host) {
                    None => None,
                    Some(host) => Some(
                        GitModel {
                            host,
                            path,
                            revision: None,
                            transport: GitTransport::Ssh,
                            port: None,
                            user_info: Some("git"@),
                        },
                    ),
                },
            },
            None => match text::cut(repo, "/"@) {
                None => None,
                Some((host, path)) => match git_host(host) {
                    None => None,
                    Some(host) => Some(
                        GitModel {
                            host,
                            path,
                            revision: None,
                            transport: GitTransport::Https,
                            port: None,
                            user_info: None,
                        },
                    ),
                },
            },
        },
    }
}

fn locate(repo: &str) -> (r: Option<GitSpec>)
    ensures
        git_view(r) == located(repo@),
{
    proof {
        reveal_strlit("://");
    }
    let size = repo.unicode_len();
    match text::find(repo, "://") {
        Some(scheme_end) => {
            let transport = match parse_transport(text::take(repo, scheme_end)) {
                Some(transport) => transport,
                None => {
                    return None;
                },
            };
            match text::split_once(text::skip(repo, scheme_end + 3), "/") {
                Some((authority, path)) => {
                    match parse_git_authority(authority) {
                        Some((host, port, user_info)) => Some(
                            GitSpec {
                                host,
                                path: path.to_owned(),
                                revision: None,
                                transport,
                                port,
                                user_info,
                            },
                        ),
                        None => None,
                    }
                },
                None => None,
            }
        },
        None => {
            match text::strip_prefix(repo, "git@") {
                Some(rest) => {
                    match text::split_once(rest, ":") {
                        Some((host, path)) => {
                            match normalize_git_host(host) {
                                Some(host) => Some(
                                    GitSpec {
                                        host: host.to_owned(),
                                        path: path.to_owned(),
                                        revision: None,
                                        transport: GitTransport::Ssh,
                                        port: None,
                                        user_info: Some("git".to_owned()),
                                    },
                                ),
                                None => None,
                            }
                        },
                        None => None,
                    }
                },
                None => {
                    match text::split_once(repo, "/") {
                        Some((host, path)) => {
                            match normalize_git_host(host) {
                                Some(host) => Some(
                                    GitSpec {
                                        host: host.to_owned(),
                                        path: path.to_owned(),
                                        revision: None,
                                        transport: GitTransport::Https,
                                        port: None,
                                        user_info: None,
                                    },
                                ),
                                None => None,
                            }
                        },
                        None => None,
                    }
                },
            }
        },
    }
}

/// A repository path without the `/` around it and without its `.git`.
pub open spec fn bare_path(path: Seq<char>) -> Seq<char> {
    let start = text::trim_start_char_of(path, '/');
    let stem = match text::before_suffix(start, ".git"@) {
        Some(stem) => stem,
        None => start,
    };
    text::trim_end_char_of(text::trim_start_char_of(stem, '/'), '/')
}

/// A repository path without the `/` around it and without its `.git`.
fn tidy_path<'a>(path: &'a str) -> (out: &'a str)
    ensures
        out@ == bare_path(path@),
{
    let start = text::trim_start_char(path, '/');
    let stem = match text::strip_suffix(start, ".git") {
        Some(stem) => stem,
        None => start,
    };
    text::trim_end_char(text::trim_start_char(stem, '/'), '/')
}

/// The git repository that a specification names. The host and the path are
/// safe to install under, the path has at least two segments, and the
/// revision is safe to hand to git.
pub open spec fn git_source_of(spec: Seq<char>) -> Option<GitModel> {
    let raw = raw_source(spec);
    let (repo, revision) = repo_and_revision(raw);
    if raw.len() == 0 {
        None
    } else {
        match located(repo) {
            None => None,
            Some(found) => {
                let host = text::lower_of(found.host);
                let path = bare_path(found.path);
                if !safe_install_part(host, false) || !safe_install_part(path, true)
                    || text::pieces(path, "/"@).len() < 2 || (revision matches Some(value)
                    && !safe_revision(value)) {
                    None
                } else {
                    Some(GitModel { host, path, revision, ..found })
                }
            },
        }
    }
}

/// The git repository that a specification names.
pub fn parse_git_source(spec: &str) -> (r: Option<GitSpec>)
    ensures
        git_view(r) == git_source_of(spec@),
{
    proof {
        reveal_strlit("/");
    }
    let trimmed = text::trim(spec);
    let raw = match text::strip_prefix(trimmed, "git:") {
        Some(rest) => if text::starts_with(rest, "//") {
            trimmed
        } else {
            text::trim(rest)
        },
        None => trimmed,
    };
    assert(raw@ == raw_source(spec@));
    if raw.is_empty() {
        return None;
    }
    let (repo, revision) = split_git_ref(raw);
    let found = match locate(repo) {
        Some(found) => found,
        None => {
            return None;
        },
    };
    let host = text::lower(found.host.as_str());
    let path = tidy_path(found.path.as_str());
    if !safe_git_install_part(host.as_str(), false) || !safe_git_install_part(path, true) {
        return None;
    }
    let segments = text::split(path, "/");
    assert(segments@.len() == text::strs(segments@).len());
    if segments.len() < 2 {
        return None;
    }
    let revision = match revision {
        Some(value) => {
            if !safe_git_revision(value) {
                return None;
            }
            Some(value.to_owned())
        },
        None => None,
    };
    Some(
        GitSpec {
            host,
            path: path.to_owned(),
            revision,
            transport: found.transport,
            port: found.port,
            user_info: found.user_info,
        },
    )
}

/// A git source that is accepted stays below the directory that it is
/// installed in: neither its host nor its path holds an empty, `.` or `..`
/// segment, as written or percent-decoded, and the host is one segment.
pub proof fn lemma_git_source_is_contained(spec: Seq<char>)
    ensures
        git_source_of(spec) matches Some(git) ==> {
            &&& install_part(git.host, false)
            &&& install_part(git.path, true)
            &&& text::pieces(git.path, "/"@).len() >= 2
            &&& percent_decoded(git.host) matches Some(host) && install_part(host, false)
            &&& percent_decoded(git.path) matches Some(path) && install_part(path, true)
            &&& git.revision matches Some(revision) ==> safe_revision(revision)
        },
{
}

/// Host names compare without regard to case: an accepted host holds no
/// ASCII capital.
pub proof fn lemma_git_host_is_lower(spec: Seq<char>, i: int)
    requires
        git_source_of(spec) is Some,
        0 <= i < git_source_of(spec)->0.host.len(),
    ensures
        !('A' <= git_source_of(spec)->0.host[i] <= 'Z'),
{
}

} // verus!
