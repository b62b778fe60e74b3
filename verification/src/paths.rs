//! File-system paths and a picture of the files that a decision reads.
//!
//! A path is where it starts and a list of components, as the system it is
//! for reads it, and the text that it is written as. What is on disk is handed
//! in as a list of entries, so that every rule that reads files is a function
//! of its arguments.

use vstd::prelude::*;

use crate::npm_command::{Platform, System};
use crate::text;

verus! {

/// A path: the system it is for, where it starts, and its components in
/// order.
pub struct FsPath {
    pub system: System,
    /// On Windows the drive, as `C:`, the share, as `\\server\share`, the
    /// device, as `\\.\COM1`, or one of these behind `\\?\`; else empty.
    pub prefix: String,
    /// Whether the path starts at a root.
    pub rooted: bool,
    pub parts: Vec<String>,
    /// The path as it is written.
    pub spelled: String,
}

/// The model of `FsPath`.
#[verifier::ext_equal]
pub struct PathModel {
    pub platform: Platform,
    pub prefix: Seq<char>,
    pub rooted: bool,
    pub parts: Seq<Seq<char>>,
    /// The path as it is written. Two spellings of one path are the same path.
    pub spelled: Seq<char>,
}

impl PathModel {
    /// Whether the path leads to the same place from everywhere.
    pub open spec fn absolute(self) -> bool {
        self.rooted && (self.platform == Platform::Unix || self.prefix.len() > 0)
    }

    /// Whether the path goes on from wherever it is looked at.
    pub open spec fn relative(self) -> bool {
        !self.rooted && self.prefix.len() == 0
    }
}

impl View for FsPath {
    type V = PathModel;

    open spec fn view(&self) -> PathModel {
        PathModel {
            platform: self.system@,
            prefix: self.prefix@,
            rooted: self.rooted,
            parts: text::texts(self.parts@),
            spelled: self.spelled@,
        }
    }
}

/// The view of an optional path.
pub open spec fn opt_path(o: Option<FsPath>) -> Option<PathModel> {
    match o {
        Some(p) => Some(p@),
        None => None,
    }
}

/// The views of a list of paths.
pub open spec fn path_views(v: Seq<FsPath>) -> Seq<PathModel> {
    Seq::new(v.len(), |i: int| v[i]@)
}

/// Whether the piece `piece`, the `i`th between separators, is a component:
/// empty pieces are not, and `.` only at the start of a path without a root,
/// or where nothing is put in order.
pub open spec fn is_component(piece: Seq<char>, i: int, rooted: bool, verbatim: bool) -> bool {
    piece.len() > 0 && (piece != "."@ || verbatim || (i == 0 && !rooted))
}

/// The components among the first `n` of `pieces`.
pub open spec fn components(pieces: Seq<Seq<char>>, n: int, rooted: bool, verbatim: bool) -> Seq<
    Seq<char>,
>
    decreases n,
{
    if n <= 0 {
        seq![]
    } else {
        let rest = components(pieces, n - 1, rooted, verbatim);
        if is_component(pieces[n - 1], n - 1, rooted, verbatim) {
            rest.push(pieces[n - 1])
        } else {
            rest
        }
    }
}

/// How a path starts, and what comes behind.
#[verifier::ext_equal]
pub struct StartModel {
    pub prefix: Seq<char>,
    pub rooted: bool,
    /// Whether the components are taken as they stand.
    pub verbatim: bool,
    pub body: Seq<char>,
}

/// What stands before the first `\`, and what behind it.
pub open spec fn first_part(s: Seq<char>) -> (Seq<char>, Seq<char>) {
    match text::cut(s, "\\"@) {
        Some((first, rest)) => (first, rest),
        None => (s, seq![]),
    }
}

/// Whether a text starts with a drive.
pub open spec fn has_drive(s: Seq<char>) -> bool {
    s.len() >= 2 && text::is_letter(s[0]) && s[1] == ':'
}

/// The drive that a text starts with.
pub open spec fn drive_of(s: Seq<char>) -> Seq<char> {
    seq![text::upper_char(s[0]), ':']
}

/// How a path that starts with `\\?\` goes on, given what comes behind that.
pub open spec fn verbatim_start(s: Seq<char>) -> StartModel {
    let top = "\\\\?\\"@;
    match text::after_prefix(s, "UNC\\"@) {
        Some(rest) => {
            let (server, behind) = first_part(rest);
            let (share, body) = first_part(behind);
            StartModel {
                prefix: top + "UNC\\"@ + server + (if share.len() > 0 {
                    "\\"@ + share
                } else {
                    seq![]
                }),
                rooted: true,
                verbatim: true,
                body,
            }
        },
        None => if has_drive(s) && (s.len() == 2 || s[2] == '\\') {
            StartModel {
                prefix: top + drive_of(s),
                rooted: true,
                verbatim: true,
                body: s.skip(2),
            }
        } else {
            let (first, body) = first_part(s);
            StartModel { prefix: top + first, rooted: true, verbatim: true, body }
        },
    }
}

/// How a path without a share starts: with a drive or without, and with a
/// root or without.
pub open spec fn plain_start(s: Seq<char>) -> StartModel {
    if has_drive(s) {
        StartModel {
            prefix: drive_of(s),
            rooted: text::first_is(s.skip(2), '\\'),
            verbatim: false,
            body: s.skip(2),
        }
    } else {
        StartModel {
            prefix: seq![],
            rooted: text::first_is(s, '\\'),
            verbatim: false,
            body: s,
        }
    }
}

/// How a path on Windows starts.
#[verifier::opaque]
pub open spec fn windows_start(s: Seq<char>) -> StartModel {
    let slashed = text::replaced(s, "/"@, "\\"@);
    match text::after_prefix(s, "\\\\?\\"@) {
        Some(rest) => verbatim_start(rest),
        None => match text::after_prefix(slashed, "\\\\.\\"@) {
            Some(rest) => {
                let (device, body) = first_part(rest);
                StartModel {
                    prefix: "\\\\.\\"@ + device,
                    rooted: true,
                    verbatim: false,
                    body,
                }
            },
            None => match text::after_prefix(slashed, "\\\\"@) {
                Some(rest) => {
                    let (server, behind) = first_part(rest);
                    let (share, body) = first_part(behind);
                    if server.len() > 0 && share.len() > 0 {
                        StartModel {
                            prefix: "\\\\"@ + server + "\\"@ + share,
                            rooted: true,
                            verbatim: false,
                            body,
                        }
                    } else {
                        plain_start(slashed)
                    }
                },
                None => plain_start(slashed),
            },
        },
    }
}

/// The path that a text spells on a system.
pub open spec fn path_of(platform: Platform, s: Seq<char>) -> PathModel {
    match platform {
        Platform::Unix => {
            let rooted = text::first_is(s, '/');
            let pieces = text::pieces(s, "/"@);
            PathModel {
                platform,
                prefix: seq![],
                rooted,
                parts: components(pieces, pieces.len() as int, rooted, false),
                spelled: s,
            }
        },
        Platform::Windows => {
            let start = windows_start(s);
            let pieces = text::pieces(start.body, "\\"@);
            PathModel {
                platform,
                prefix: start.prefix,
                rooted: start.rooted,
                parts: components(pieces, pieces.len() as int, start.rooted, start.verbatim),
                spelled: s,
            }
        },
    }
}

/// What stands between the components of a path.
pub open spec fn separator(platform: Platform) -> Seq<char> {
    match platform {
        Platform::Unix => "/"@,
        Platform::Windows => "\\"@,
    }
}

/// A path as text: as it is written.
pub open spec fn path_text(p: PathModel) -> Seq<char> {
    p.spelled
}

/// `base` with `rest` behind it. A `rest` with a start of its own takes the
/// place of that of `base`.
pub open spec fn joined_path(base: PathModel, rest: PathModel) -> PathModel {
    let spelled = joined_text(base.platform, base.spelled, rest.spelled);
    if rest.prefix.len() > 0 || nowhere(base) {
        PathModel { spelled, ..rest }
    } else if rest.rooted {
        PathModel { rooted: true, parts: rest.parts, spelled, ..base }
    } else if rest.parts.len() > 0 && rest.parts[0] == "."@ {
        PathModel { parts: base.parts + rest.parts.skip(1), spelled, ..base }
    } else {
        PathModel { parts: base.parts + rest.parts, spelled, ..base }
    }
}

/// `base` with the path that `s` spells behind it.
pub open spec fn below(base: PathModel, s: Seq<char>) -> PathModel {
    joined_path(base, path_of(base.platform, s))
}

/// Whether the text of a path starts with `\\?\`: its components stand as they
/// are.
pub open spec fn is_verbatim(platform: Platform, s: Seq<char>) -> bool {
    platform == Platform::Windows && text::begins(s, "\\\\?\\"@)
}

/// `parts` with the first `n` of `more` behind them, where `.` stays and `..`
/// goes one back.
pub open spec fn walked(parts: Seq<Seq<char>>, more: Seq<Seq<char>>, n: int) -> Seq<Seq<char>>
    decreases n,
{
    if n <= 0 {
        parts
    } else {
        let before = walked(parts, more, n - 1);
        if more[n - 1] == "."@ {
            before
        } else if more[n - 1] == ".."@ {
            if before.len() > 0 && before.last() != "."@ && before.last() != ".."@ {
                before.drop_last()
            } else {
                before
            }
        } else {
            before.push(more[n - 1])
        }
    }
}

/// Whether a text ends with a separator of the system.
pub open spec fn ends_apart(platform: Platform, s: Seq<char>) -> bool {
    text::last_is(s, '/') || (platform == Platform::Windows && text::last_is(s, '\\'))
}

/// The text of `base` with that of `rest` behind it. A drive alone gets no
/// separator, and behind `\\?\` nothing is left to be put in order.
#[verifier::opaque]
pub open spec fn joined_text(platform: Platform, base: Seq<char>, rest: Seq<char>) -> Seq<char> {
    let b = path_of(platform, base);
    let r = path_of(platform, rest);
    let prefix = base.take(b.prefix.len() as int);
    if r.absolute() || r.prefix.len() > 0 {
        rest
    } else if is_verbatim(platform, base) && rest.len() > 0 {
        let parts = if r.rooted {
            seq![]
        } else {
            b.parts
        };
        prefix + "\\"@ + text::joined(walked(parts, r.parts, r.parts.len() as int), "\\"@)
    } else if r.rooted {
        prefix + rest
    } else if base.len() == 0 || ends_apart(platform, base) || (has_drive(base) && base.len()
        == 2 && platform == Platform::Windows) {
        base + rest
    } else {
        base + separator(platform) + rest
    }
}

fn walk_parts(parts: Vec<String>, more: &Vec<String>) -> (out: Vec<String>)
    ensures
        text::texts(out@) == walked(
            text::texts(parts@),
            text::texts(more@),
            more@.len() as int,
        ),
{
    let ghost start = text::texts(parts@);
    let ghost all = text::texts(more@);
    let mut out = parts;
    let mut i: usize = 0;
    while i < more.len()
        invariant
            i <= more@.len(),
            all == text::texts(more@),
            text::texts(out@) == walked(start, all, i as int),
        decreases more.len() - i,
    {
        assert(all[i as int] == more@[i as int]@);
        if text::same(more[i].as_str(), "..") {
            assert(text::texts(out@).len() == out@.len());
            proof {
                reveal_strlit(".");
                reveal_strlit("..");
            }
            if out.len() > 0 {
                assert(text::texts(out@).last() == out@[out@.len() - 1]@);
                let plain = !text::same(out[out.len() - 1].as_str(), ".") && !text::same(
                    out[out.len() - 1].as_str(),
                    "..",
                );
                if plain {
                    let ghost before = text::texts(out@);
                    out.pop();
                    assert(text::texts(out@) =~= before.drop_last());
                }
            }
        } else if !text::same(more[i].as_str(), ".") {
            text::push_text(&mut out, more[i].as_str());
        }
        i += 1;
    }
    out
}

/// The text of `base` with that of `rest` behind it.
pub fn join_texts(system: System, base: &str, rest: &str) -> (out: String)
    ensures
        out@ == joined_text(system@, base@, rest@),
{
    proof {
        reveal(joined_text);
    }
    let platform = system.platform();
    let b = FsPath::parse_on(system, base);
    let r = FsPath::parse_on(system, rest);
    if r.is_absolute() || r.prefix.as_str().unicode_len() > 0 {
        return rest.to_owned();
    }
    proof {
        lemma_prefix_fits(platform, base@);
    }
    let prefix = text::take(base, b.prefix.as_str().unicode_len());
    let verbatim = platform == Platform::Windows && text::starts_with(base, "\\\\?\\");
    if verbatim && rest.unicode_len() > 0 {
        let kept = if r.rooted {
            Vec::new()
        } else {
            b.parts
        };
        assert(r.rooted ==> text::texts(kept@) =~= seq![]);
        let parts = walk_parts(kept, &r.parts);
        let body = text::join(parts.as_slice(), "\\");
        return text::cat3(prefix, "\\", body.as_str());
    }
    if r.rooted {
        return text::cat(prefix, rest);
    }
    let apart = text::ends_with_char(base, '/') || (platform == Platform::Windows
        && text::ends_with_char(base, '\\'));
    if base.unicode_len() == 0 || apart || (starts_with_drive(base) && base.unicode_len() == 2
        && platform == Platform::Windows) {
        text::cat(base, rest)
    } else {
        text::cat3(base, separator_of(platform), rest)
    }
}

proof fn lemma_first_part(s: Seq<char>)
    ensures
        first_part(s).0.len() + first_part(s).1.len() <= s.len(),
        first_part(s).1.len() > 0 ==> first_part(s).0.len() + 1 + first_part(s).1.len() <= s.len(),
{
    reveal_strlit("\\");
    text::lemma_index_from(s, "\\"@, 0);
}

/// The prefix of a path is no longer than the text that spells it.
pub proof fn lemma_prefix_fits(platform: Platform, s: Seq<char>)
    ensures
        path_of(platform, s).prefix.len() <= s.len(),
{
    if platform == Platform::Windows {
        reveal(windows_start);
        reveal_strlit("\\");
        reveal_strlit("\\\\");
        reveal_strlit("\\\\?\\");
        reveal_strlit("\\\\.\\");
        reveal_strlit("UNC\\");
        let slashed = text::replaced(s, "/"@, "\\"@);
        if s.len() > 0 {
            lemma_turned_slash(s, 0);
        } else {
            assert(slashed =~= s);
        }
        if let Some(rest) = text::after_prefix(s, "\\\\?\\"@) {
            lemma_first_part(rest);
            if let Some(share) = text::after_prefix(rest, "UNC\\"@) {
                lemma_first_part(share);
                lemma_first_part(first_part(share).1);
            }
        } else if let Some(rest) = text::after_prefix(slashed, "\\\\.\\"@) {
            lemma_first_part(rest);
        } else if let Some(rest) = text::after_prefix(slashed, "\\\\"@) {
            lemma_first_part(rest);
            lemma_first_part(first_part(rest).1);
        }
    }
}

/// Turning the slashes of a text keeps its length and all other characters.
pub proof fn lemma_turned_slash(s: Seq<char>, k: int)
    requires
        0 <= k < s.len(),
    ensures
        text::replaced(s, "/"@, "\\"@).len() == s.len(),
        text::replaced(s, "/"@, "\\"@)[k] == (if s[k] == '/' {
            '\\'
        } else {
            s[k]
        }),
    decreases s.len(),
{
    reveal_strlit("/");
    reveal_strlit("\\");
    text::lemma_index_from(s, "/"@, 0);
    let out = text::replaced(s, "/"@, "\\"@);
    match text::index_of(s, "/"@) {
        Some(i) => {
            let rest = s.skip(i + 1);
            assert(s.subrange(i, i + 1) =~= "/"@);
            assert(s.subrange(i, i + 1)[0] == s[i]);
            if rest.len() > 0 {
                lemma_turned_slash(rest, 0);
                if k > i {
                    lemma_turned_slash(rest, k - i - 1);
                }
            } else {
                assert(text::replaced(rest, "/"@, "\\"@) =~= rest);
            }
            if k < i && s[k] == '/' {
                assert(s.subrange(k, k + 1) =~= "/"@);
                assert(text::stands_at(s, "/"@, k));
            }
        },
        None => {
            if s[k] == '/' {
                assert(s.subrange(k, k + 1) =~= "/"@);
                assert(text::stands_at(s, "/"@, k));
            }
        },
    }
}

/// Whether a character separates components.
#[verifier::allow_in_spec]
pub fn separates(platform: Platform, verbatim: bool, c: char) -> bool
    returns
        (match platform {
            Platform::Unix => c == '/',
            Platform::Windows => c == '\\' || (c == '/' && !verbatim),
        }),
{
    match platform {
        Platform::Unix => c == '/',
        Platform::Windows => c == '\\' || (c == '/' && !verbatim),
    }
}

/// Where the piece that starts at `i` ends.
pub open spec fn piece_end(platform: Platform, verbatim: bool, s: Seq<char>, i: int) -> int
    decreases s.len() - i,
{
    if i < 0 || i >= s.len() || separates(platform, verbatim, s[i]) {
        i
    } else {
        piece_end(platform, verbatim, s, i + 1)
    }
}

/// Where the components of a text stand from `i` on: each from where to
/// where. `.` is one only in the first place, and there only if `keep` is set.
pub open spec fn spots(
    platform: Platform,
    verbatim: bool,
    keep: bool,
    s: Seq<char>,
    i: int,
) -> Seq<(int, int)>
    decreases s.len() - i,
{
    let end = piece_end(platform, verbatim, s, i);
    if i < 0 || i >= s.len() || end < i {
        seq![]
    } else {
        let rest = if end < s.len() {
            spots(platform, verbatim, false, s, end + 1)
        } else {
            seq![]
        };
        if end > i && (s.subrange(i, end) != "."@ || verbatim || keep) {
            seq![(i, end)] + rest
        } else {
            rest
        }
    }
}

/// Where the components of a text begin: behind its prefix and its root.
pub open spec fn body_start(platform: Platform, s: Seq<char>) -> int {
    let n = path_of(platform, s).prefix.len() as int;
    if n < s.len() && separates(platform, is_verbatim(platform, s), s[n]) {
        n + 1
    } else {
        n
    }
}

/// Where the components of a text stand.
pub open spec fn all_spots(platform: Platform, s: Seq<char>) -> Seq<(int, int)> {
    spots(
        platform,
        is_verbatim(platform, s),
        !path_of(platform, s).rooted,
        s,
        body_start(platform, s),
    )
}

/// A text up to the end of its `n`th component.
#[verifier::opaque]
pub open spec fn head_text(platform: Platform, s: Seq<char>, n: int) -> Seq<char> {
    let at = all_spots(platform, s);
    if n <= 0 {
        s.take(body_start(platform, s))
    } else if n <= at.len() {
        s.take(at[n - 1].1)
    } else {
        s
    }
}

/// A text from behind its `n`th component to the end of the last.
#[verifier::opaque]
pub open spec fn tail_text(platform: Platform, s: Seq<char>, n: int) -> Seq<char> {
    let at = all_spots(platform, s);
    if 0 <= n < at.len() && at[n].0 <= at.last().1 {
        s.take(at.last().1).skip(at[n].0)
    } else {
        seq![]
    }
}

/// A text without the `\\?\` that Windows puts before a path whose links it
/// has followed.
#[verifier::opaque]
pub open spec fn plain_text(platform: Platform, s: Seq<char>) -> Seq<char> {
    match platform {
        Platform::Unix => s,
        Platform::Windows => match text::after_prefix(s, "\\\\?\\UNC\\"@) {
            Some(rest) => "\\\\"@ + rest,
            None => match text::after_prefix(s, "\\\\?\\"@) {
                Some(rest) => rest,
                None => s,
            },
        },
    }
}

/// The views of a list of spots.
spec fn spot_views(v: Seq<(usize, usize)>) -> Seq<(int, int)> {
    Seq::new(v.len(), |i: int| (v[i].0 as int, v[i].1 as int))
}

fn find_spots(platform: Platform, verbatim: bool, keep: bool, s: &str, start: usize) -> (out: Vec<
    (usize, usize),
>)
    ensures
        spot_views(out@) == spots(platform, verbatim, keep, s@, start as int),
        forall|k: int| 0 <= k < out@.len() ==> (#[trigger] out@[k]).1 <= s@.len(),
{
    let chars = text::chars_of(s);
    let mut out: Vec<(usize, usize)> = Vec::new();
    let mut i: usize = start;
    let mut kept = keep;
    assert(spot_views(out@) + spots(platform, verbatim, keep, s@, start as int) =~= spots(
        platform,
        verbatim,
        keep,
        s@,
        start as int,
    ));
    while i < chars.len()
        invariant
            chars@ == s@,
            spots(platform, verbatim, keep, s@, start as int) == spot_views(out@) + spots(
                platform,
                verbatim,
                kept,
                s@,
                i as int,
            ),
            forall|k: int| 0 <= k < out@.len() ==> (#[trigger] out@[k]).1 <= s@.len(),
        decreases chars.len() - i,
    {
        let mut end: usize = i;
        while end < chars.len() && !separates(platform, verbatim, chars[end])
            invariant
                i <= end <= chars@.len(),
                chars@ == s@,
                piece_end(platform, verbatim, s@, i as int) == piece_end(
                    platform,
                    verbatim,
                    s@,
                    end as int,
                ),
            decreases chars.len() - end,
        {
            end += 1;
        }
        let piece = text::skip(text::take(s, end), i);
        assert(piece@ =~= s@.subrange(i as int, end as int));
        let ghost before = spot_views(out@);
        let ghost rest = if end < s@.len() {
            spots(platform, verbatim, false, s@, end + 1)
        } else {
            seq![]
        };
        if end > i && (!text::same(piece, ".") || verbatim || kept) {
            out.push((i, end));
            assert(spot_views(out@) =~= before.push((i as int, end as int)));
            assert(spot_views(out@) + rest =~= before + (seq![(i as int, end as int)] + rest));
        }
        kept = false;
        if end == chars.len() {
            assert(rest =~= seq![]);
            assert(spots(platform, verbatim, keep, s@, start as int) =~= spot_views(out@));
            return out;
        }
        i = end + 1;
    }
    assert(spots(platform, verbatim, kept, s@, i as int) =~= seq![]);
    assert(spot_views(out@) + seq![] =~= spot_views(out@));
    out
}

fn find_body(platform: Platform, verbatim: bool, prefix: usize, s: &str) -> (n: usize)
    requires
        prefix == path_of(platform, s@).prefix.len(),
        verbatim == is_verbatim(platform, s@),
    ensures
        n == body_start(platform, s@),
        n <= s@.len(),
{
    proof {
        lemma_prefix_fits(platform, s@);
    }
    if prefix < s.unicode_len() && separates(platform, verbatim, s.get_char(prefix)) {
        prefix + 1
    } else {
        prefix
    }
}

fn locate(system: System, s: &str) -> (r: (usize, Vec<(usize, usize)>))
    ensures
        r.0 == body_start(system@, s@),
        r.0 <= s@.len(),
        spot_views(r.1@) == all_spots(system@, s@),
        forall|k: int| 0 <= k < r.1@.len() ==> (#[trigger] r.1@[k]).1 <= s@.len(),
{
    let platform = system.platform();
    let whole = FsPath::parse_on(system, s);
    let verbatim = platform == Platform::Windows && text::starts_with(s, "\\\\?\\");
    let start = find_body(platform, verbatim, whole.prefix.as_str().unicode_len(), s);
    let at = find_spots(platform, verbatim, !whole.rooted, s, start);
    (start, at)
}

fn take_head(system: System, s: &str, n: usize) -> (out: String)
    ensures
        out@ == head_text(system@, s@, n as int),
{
    proof {
        reveal(head_text);
    }
    let (start, at) = locate(system, s);
    assert(spot_views(at@).len() == at@.len());
    if n == 0 {
        text::take(s, start).to_owned()
    } else if n <= at.len() {
        assert(spot_views(at@)[n - 1].1 == at@[n - 1].1);
        text::take(s, at[n - 1].1).to_owned()
    } else {
        s.to_owned()
    }
}

fn take_tail(system: System, s: &str, n: usize) -> (out: String)
    ensures
        out@ == tail_text(system@, s@, n as int),
{
    proof {
        reveal(tail_text);
    }
    let (_, at) = locate(system, s);
    assert(spot_views(at@).len() == at@.len());
    if n < at.len() {
        let last = at.len() - 1;
        assert(spot_views(at@)[n as int].0 == at@[n as int].0);
        assert(spot_views(at@).last().1 == at@[last as int].1);
        if at[n].0 <= at[last].1 {
            return text::skip(text::take(s, at[last].1), at[n].0).to_owned();
        }
    }
    let none = String::new();
    assert(none@ =~= seq![]);
    none
}

fn strip_verbatim(system: System, s: &str) -> (out: String)
    ensures
        out@ == plain_text(system@, s@),
{
    proof {
        reveal(plain_text);
    }
    if system != System::Windows {
        return s.to_owned();
    }
    match text::strip_prefix(s, "\\\\?\\UNC\\") {
        Some(rest) => {
            return text::cat("\\\\", rest);
        },
        None => {},
    }
    match text::strip_prefix(s, "\\\\?\\") {
        Some(rest) => rest.to_owned(),
        None => s.to_owned(),
    }
}

/// The first `n` components of a path.
pub open spec fn head_of(p: PathModel, n: int) -> PathModel {
    PathModel {
        parts: p.parts.take(n),
        spelled: head_text(p.platform, p.spelled, n),
        ..p
    }
}

/// The directory that holds `p`.
pub open spec fn parent_of(p: PathModel) -> Option<PathModel> {
    if p.parts.len() == 0 {
        None
    } else {
        Some(head_of(p, p.parts.len() - 1))
    }
}

/// The last component of `p`, where it names an entry.
pub open spec fn name_of(p: PathModel) -> Option<Seq<char>> {
    if p.parts.len() == 0 || p.parts.last() == ".."@ || p.parts.last() == "."@ {
        None
    } else {
        Some(p.parts.last())
    }
}

/// Whether two paths start at the same place.
pub open spec fn same_start(p: PathModel, q: PathModel) -> bool {
    p.platform == q.platform && p.prefix == q.prefix && p.rooted == q.rooted
}

/// Whether two paths are the same, however they are written.
pub open spec fn same_path(p: PathModel, q: PathModel) -> bool {
    same_start(p, q) && p.parts == q.parts
}

/// Whether one of a list of paths is `p`.
pub open spec fn lists(list: Seq<PathModel>, p: PathModel) -> bool {
    exists|i: int| 0 <= i < list.len() && same_path(#[trigger] list[i], p)
}

/// Whether `p` is `base` or lies below it, letter for letter.
pub open spec fn within(p: PathModel, base: PathModel) -> bool {
    same_start(p, base) && base.parts.len() <= p.parts.len() && p.parts.take(
        base.parts.len() as int,
    ) =~= base.parts
}

/// The way from `base` to `p`, where `p` lies within it.
pub open spec fn relative_to(p: PathModel, base: PathModel) -> Option<PathModel> {
    if within(p, base) {
        Some(
            PathModel {
                platform: p.platform,
                prefix: seq![],
                rooted: false,
                parts: p.parts.skip(base.parts.len() as int),
                spelled: tail_text(p.platform, p.spelled, base.parts.len() as int),
            },
        )
    } else {
        None
    }
}

/// What a text is in lower case, as the Unicode tables of std have it.
pub uninterp spec fn lowercase(s: Seq<char>) -> Seq<char>;

/// `str::to_lowercase`. The contract says only that the result depends on the
/// text alone.
#[verifier::external_body]
fn to_lowercase(s: &str) -> (out: String)
    ensures
        out@ == lowercase(s@),
{
    s.to_lowercase()
}

/// The start of a path and its components, in order.
pub open spec fn steps_of(p: PathModel) -> Seq<Seq<char>> {
    let prefix = if p.prefix.len() > 0 {
        seq![p.prefix]
    } else {
        seq![]
    };
    let root = if p.rooted {
        seq![separator(p.platform)]
    } else {
        seq![]
    };
    prefix + root + p.parts
}

/// The start of a path and its components as names are compared: on Windows
/// in lower case.
pub open spec fn folded(p: PathModel) -> Seq<Seq<char>> {
    match p.platform {
        Platform::Unix => steps_of(p),
        Platform::Windows => Seq::new(steps_of(p).len(), |i: int| lowercase(steps_of(p)[i])),
    }
}

/// Whether `p` is `root` or lies below it, as names are compared.
pub open spec fn lies_in(p: PathModel, root: PathModel) -> bool {
    p.platform == root.platform && folded(root).len() <= folded(p).len() && folded(p).take(
        folded(root).len() as int,
    ) =~= folded(root)
}

/// A path without the `\\?\` that Windows puts before a path whose links it
/// has followed.
pub open spec fn plain_path(p: PathModel) -> PathModel {
    let spelled = plain_text(p.platform, p.spelled);
    match p.platform {
        Platform::Unix => p,
        Platform::Windows => match text::after_prefix(p.prefix, "\\\\?\\UNC\\"@) {
            Some(rest) => PathModel { prefix: "\\\\"@ + rest, spelled, ..p },
            None => match text::after_prefix(p.prefix, "\\\\?\\"@) {
                Some(rest) => if has_drive(rest) && rest.len() == 2 {
                    PathModel { prefix: rest, spelled, ..p }
                } else {
                    PathModel {
                        prefix: seq![],
                        rooted: false,
                        parts: seq![rest] + p.parts,
                        spelled,
                        ..p
                    }
                },
                None => p,
            },
        },
    }
}

/// How a path starts, and what comes behind.
struct Start {
    prefix: String,
    rooted: bool,
    verbatim: bool,
    body: String,
}

impl View for Start {
    type V = StartModel;

    closed spec fn view(&self) -> StartModel {
        StartModel {
            prefix: self.prefix@,
            rooted: self.rooted,
            verbatim: self.verbatim,
            body: self.body@,
        }
    }
}

fn split_first(s: &str) -> (r: (&str, &str))
    ensures
        (r.0@, r.1@) == first_part(s@),
{
    proof {
        reveal_strlit("\\");
        reveal_strlit("");
    }
    match text::split_once(s, "\\") {
        Some((first, rest)) => (first, rest),
        None => {
            assert(""@ =~= seq![]);
            (s, "")
        },
    }
}

fn starts_with_drive(s: &str) -> (r: bool)
    ensures
        r == has_drive(s@),
{
    s.unicode_len() >= 2 && text::is_letter(s.get_char(0)) && s.get_char(1) == ':'
}

fn drive(s: &str) -> (out: String)
    requires
        has_drive(s@),
    ensures
        out@ == drive_of(s@),
{
    let mut out = String::new();
    out.push(text::upper_char(s.get_char(0)));
    out.push(':');
    assert(out@ =~= drive_of(s@));
    out
}

fn read_verbatim(s: &str) -> (r: Start)
    ensures
        r@ == verbatim_start(s@),
{
    match text::strip_prefix(s, "UNC\\") {
        Some(rest) => {
            let (server, behind) = split_first(rest);
            let (share, body) = split_first(behind);
            let prefix = if share.unicode_len() > 0 {
                let tail = text::cat("\\", share);
                text::cat4("\\\\?\\", "UNC\\", server, tail.as_str())
            } else {
                text::cat3("\\\\?\\", "UNC\\", server)
            };
            assert(prefix@ =~= verbatim_start(s@).prefix);
            Start { prefix, rooted: true, verbatim: true, body: body.to_owned() }
        },
        None => {
            if starts_with_drive(s) && (s.unicode_len() == 2 || s.get_char(2) == '\\') {
                let letter = drive(s);
                Start {
                    prefix: text::cat("\\\\?\\", letter.as_str()),
                    rooted: true,
                    verbatim: true,
                    body: text::skip(s, 2).to_owned(),
                }
            } else {
                let (first, body) = split_first(s);
                Start {
                    prefix: text::cat("\\\\?\\", first),
                    rooted: true,
                    verbatim: true,
                    body: body.to_owned(),
                }
            }
        },
    }
}

fn read_plain(s: &str) -> (r: Start)
    ensures
        r@ == plain_start(s@),
{
    if starts_with_drive(s) {
        let body = text::skip(s, 2);
        Start {
            prefix: drive(s),
            rooted: text::starts_with_char(body, '\\'),
            verbatim: false,
            body: body.to_owned(),
        }
    } else {
        let prefix = String::new();
        assert(prefix@ =~= seq![]);
        Start {
            prefix,
            rooted: text::starts_with_char(s, '\\'),
            verbatim: false,
            body: s.to_owned(),
        }
    }
}

fn read_windows(s: &str) -> (r: Start)
    ensures
        r@ == windows_start(s@),
{
    proof {
        reveal(windows_start);
        reveal_strlit("/");
    }
    let slashed = text::replace(s, "/", "\\");
    match text::strip_prefix(s, "\\\\?\\") {
        Some(rest) => {
            return read_verbatim(rest);
        },
        None => {},
    }
    match text::strip_prefix(slashed.as_str(), "\\\\.\\") {
        Some(rest) => {
            let (device, body) = split_first(rest);
            return Start {
                prefix: text::cat("\\\\.\\", device),
                rooted: true,
                verbatim: false,
                body: body.to_owned(),
            };
        },
        None => {},
    }
    match text::strip_prefix(slashed.as_str(), "\\\\") {
        Some(rest) => {
            let (server, behind) = split_first(rest);
            let (share, body) = split_first(behind);
            if server.unicode_len() > 0 && share.unicode_len() > 0 {
                return Start {
                    prefix: text::cat4("\\\\", server, "\\", share),
                    rooted: true,
                    verbatim: false,
                    body: body.to_owned(),
                };
            }
        },
        None => {},
    }
    read_plain(slashed.as_str())
}

fn collect_components(pieces: &Vec<&str>, rooted: bool, verbatim: bool) -> (parts: Vec<String>)
    ensures
        text::texts(parts@) == components(
            text::strs(pieces@),
            pieces@.len() as int,
            rooted,
            verbatim,
        ),
{
    let mut parts: Vec<String> = Vec::new();
    assert(text::texts(parts@) =~= seq![]);
    let mut i: usize = 0;
    while i < pieces.len()
        invariant
            i <= pieces@.len(),
            text::texts(parts@) == components(text::strs(pieces@), i as int, rooted, verbatim),
        decreases pieces.len() - i,
    {
        let piece = pieces[i];
        assert(text::strs(pieces@)[i as int] == piece@);
        if !piece.is_empty() && (!text::same(piece, ".") || verbatim || (i == 0 && !rooted)) {
            text::push_text(&mut parts, piece);
        }
        i += 1;
    }
    parts
}

fn separator_of(platform: Platform) -> (r: &'static str)
    ensures
        r@ == separator(platform),
{
    match platform {
        Platform::Unix => "/",
        Platform::Windows => "\\",
    }
}

impl FsPath {
    /// The path that a text spells on a system.
    pub fn parse_on(system: System, s: &str) -> (p: FsPath)
        ensures
            p@ == path_of(system@, s@),
    {
        proof {
            reveal_strlit("/");
            reveal_strlit("\\");
        }
        match system {
            System::Unix(_) => {
                let rooted = text::starts_with_char(s, '/');
                let pieces = text::split(s, "/");
                let parts = collect_components(&pieces, rooted, false);
                let prefix = String::new();
                assert(prefix@ =~= seq![]);
                assert(text::strs(pieces@).len() == pieces@.len());
                FsPath { system, prefix, rooted, parts, spelled: s.to_owned() }
            },
            System::Windows => {
                let start = read_windows(s);
                let pieces = text::split(start.body.as_str(), "\\");
                let parts = collect_components(&pieces, start.rooted, start.verbatim);
                assert(text::strs(pieces@).len() == pieces@.len());
                FsPath {
                    system,
                    prefix: start.prefix,
                    rooted: start.rooted,
                    parts,
                    spelled: s.to_owned(),
                }
            },
        }
    }

    /// The path that a text spells on the system that the program runs on.
    pub fn parse(s: &str) -> (p: FsPath)
        ensures
            p@ == path_of(Platform::Unix, s@) || p@ == path_of(Platform::Windows, s@),
    {
        FsPath::parse_on(System::host(), s)
    }

    /// Whether the path leads to the same place from everywhere.
    pub fn is_absolute(&self) -> (r: bool)
        ensures
            r == self@.absolute(),
    {
        self.rooted && (self.system != System::Windows || self.prefix.as_str().unicode_len() > 0)
    }

    /// The path as text.
    pub fn to_text(&self) -> (s: String)
        ensures
            s@ == path_text(self@),
    {
        self.spelled.clone()
    }

    /// The path without the `\\?\` that Windows puts before a path whose links
    /// it has followed.
    pub fn plain(&self) -> (p: FsPath)
        ensures
            p@ == plain_path(self@),
    {
        if self.system != System::Windows {
            return self.copy();
        }
        let spelled = strip_verbatim(self.system, self.spelled.as_str());
        match text::strip_prefix(self.prefix.as_str(), "\\\\?\\UNC\\") {
            Some(rest) => {
                return FsPath {
                    system: self.system,
                    prefix: text::cat("\\\\", rest),
                    rooted: self.rooted,
                    parts: text::clone_all(self.parts.as_slice()),
                    spelled,
                };
            },
            None => {},
        }
        match text::strip_prefix(self.prefix.as_str(), "\\\\?\\") {
            Some(rest) => {
                if starts_with_drive(rest) && rest.unicode_len() == 2 {
                    return FsPath {
                        system: self.system,
                        prefix: rest.to_owned(),
                        rooted: self.rooted,
                        parts: text::clone_all(self.parts.as_slice()),
                    spelled,
                    };
                }
                let prefix = String::new();
                assert(prefix@ =~= seq![]);
                let mut parts: Vec<String> = Vec::new();
                text::push_text(&mut parts, rest);
                text::push_texts(&mut parts, self.parts.as_slice());
                assert(text::texts(parts@) =~= seq![rest@] + self@.parts);
                FsPath { system: self.system, prefix, rooted: false, parts, spelled }
            },
            None => self.copy(),
        }
    }

    /// A copy of the path.
    pub fn copy(&self) -> (p: FsPath)
        ensures
            p@ == self@,
    {
        FsPath {
            system: self.system,
            prefix: self.prefix.clone(),
            rooted: self.rooted,
            parts: text::clone_all(self.parts.as_slice()),
            spelled: self.spelled.clone(),
        }
    }

    /// The path with other components and in another spelling.
    fn with_parts(&self, parts: Vec<String>, spelled: String) -> (p: FsPath)
        ensures
            p@ == (PathModel { parts: text::texts(parts@), spelled: spelled@, ..self@ }),
    {
        FsPath {
            system: self.system,
            prefix: self.prefix.clone(),
            rooted: self.rooted,
            parts,
            spelled,
        }
    }

    fn starts_like(&self, other: &FsPath) -> (r: bool)
        ensures
            r == same_start(self@, other@),
    {
        self.system.is_same(other.system) && self.rooted == other.rooted && text::same(
            self.prefix.as_str(),
            other.prefix.as_str(),
        )
    }

    /// Whether two paths are the same, however they are written.
    pub fn same(&self, other: &FsPath) -> (r: bool)
        ensures
            r == same_path(self@, other@),
    {
        self.starts_like(other) && self.same_parts(other)
    }

    /// Whether two paths have the same components.
    pub fn same_parts(&self, other: &FsPath) -> (r: bool)
        ensures
            r == (self@.parts == other@.parts),
    {
        assert(self@.parts.len() == self.parts@.len());
        assert(other@.parts.len() == other.parts@.len());
        if self.parts.len() != other.parts.len() {
            return false;
        }
        let mut i: usize = 0;
        while i < self.parts.len()
            invariant
                i <= self.parts@.len(),
                self.parts@.len() == other.parts@.len(),
                forall|j: int| 0 <= j < i ==> self@.parts[j] == other@.parts[j],
            decreases self.parts.len() - i,
        {
            if self.parts[i] != other.parts[i] {
                assert(self@.parts[i as int] != other@.parts[i as int]);
                return false;
            }
            i += 1;
        }
        assert(self@.parts =~= other@.parts);
        true
    }

    /// The path with `rest` behind it.
    pub fn join(&self, rest: &FsPath) -> (p: FsPath)
        ensures
            p@ == joined_path(self@, rest@),
    {
        assert(self@.parts.len() == self.parts@.len());
        assert(rest@.parts.len() == rest.parts@.len());
        let spelled = join_texts(self.system, self.spelled.as_str(), rest.spelled.as_str());
        if rest.prefix.as_str().unicode_len() > 0 || (!self.rooted && self.prefix.as_str().unicode_len() == 0
            && self.parts.len() == 0) {
            return FsPath { spelled, ..rest.copy() };
        }
        if rest.rooted {
            return FsPath {
                system: self.system,
                prefix: self.prefix.clone(),
                rooted: true,
                parts: text::clone_all(rest.parts.as_slice()),
                spelled,
            };
        }
        let mut parts = text::clone_all(self.parts.as_slice());
        let mut i: usize = 0;
        if rest.parts.len() > 0 {
            assert(rest@.parts[0] == rest.parts@[0]@);
            if text::same(rest.parts[0].as_str(), ".") {
                i = 1;
            }
        }
        let ghost start = i as int;
        assert(text::texts(parts@) + rest@.parts.subrange(start, start) =~= self@.parts);
        while i < rest.parts.len()
            invariant
                0 <= start <= i <= rest.parts@.len(),
                text::texts(parts@) == self@.parts + rest@.parts.subrange(start, i as int),
            decreases rest.parts.len() - i,
        {
            text::push_text(&mut parts, rest.parts[i].as_str());
            assert(text::texts(parts@) =~= self@.parts + rest@.parts.subrange(start, i + 1));
            i += 1;
        }
        proof {
            if start == 1 {
                assert(rest@.parts.subrange(1, i as int) =~= rest@.parts.skip(1));
            } else {
                assert(rest@.parts.subrange(0, i as int) =~= rest@.parts);
            }
        }
        self.with_parts(parts, spelled)
    }

    /// The path with the path that `s` spells behind it.
    pub fn below(&self, s: &str) -> (p: FsPath)
        ensures
            p@ == below(self@, s@),
    {
        self.join(&FsPath::parse_on(self.system, s))
    }

    /// The first `n` components.
    pub fn head(&self, n: usize) -> (p: FsPath)
        requires
            n <= self@.parts.len(),
        ensures
            p@ == head_of(self@, n as int),
    {
        let mut parts: Vec<String> = Vec::new();
        let mut i: usize = 0;
        while i < n
            invariant
                i <= n <= self.parts@.len(),
                text::texts(parts@) == self@.parts.take(i as int),
            decreases n - i,
        {
            text::push_text(&mut parts, self.parts[i].as_str());
            assert(self@.parts.take(i + 1) =~= self@.parts.take(i as int).push(
                self@.parts[i as int],
            ));
            i += 1;
        }
        let spelled = take_head(self.system, self.spelled.as_str(), n);
        self.with_parts(parts, spelled)
    }

    /// The directory that holds the path.
    pub fn parent(&self) -> (r: Option<FsPath>)
        ensures
            opt_path(r) == parent_of(self@),
    {
        if self.parts.len() == 0 {
            return None;
        }
        assert(self@.parts.len() == self.parts@.len());
        Some(self.head(self.parts.len() - 1))
    }

    /// The last component, where it names an entry.
    pub fn file_name(&self) -> (r: Option<String>)
        ensures
            text::opt_text(r) == name_of(self@),
    {
        if self.parts.len() == 0 {
            return None;
        }
        let last = &self.parts[self.parts.len() - 1];
        assert(self@.parts.last() == last@);
        if text::same(last.as_str(), "..") || text::same(last.as_str(), ".") {
            None
        } else {
            Some(last.clone())
        }
    }

    /// Whether the last component is `name`.
    pub fn is_named(&self, name: &str) -> (r: bool)
        ensures
            r == (name_of(self@) == Some(name@)),
    {
        match self.file_name() {
            Some(last) => text::same(last.as_str(), name),
            None => false,
        }
    }

    /// Whether the path is `base` or lies below it, letter for letter.
    pub fn starts_with(&self, base: &FsPath) -> (r: bool)
        ensures
            r == within(self@, base@),
    {
        if !self.starts_like(base) || base.parts.len() > self.parts.len() {
            return false;
        }
        let mut i: usize = 0;
        while i < base.parts.len()
            invariant
                i <= base.parts@.len() <= self.parts@.len(),
                forall|j: int| 0 <= j < i ==> self@.parts[j] == base@.parts[j],
            decreases base.parts.len() - i,
        {
            if self.parts[i] != base.parts[i] {
                assert(self@.parts.take(base@.parts.len() as int)[i as int]
                    != base@.parts[i as int]);
                return false;
            }
            i += 1;
        }
        assert(self@.parts.take(base@.parts.len() as int) =~= base@.parts);
        true
    }

    /// The way from `base` to the path, where it lies within `base`.
    pub fn strip_prefix(&self, base: &FsPath) -> (r: Option<FsPath>)
        ensures
            opt_path(r) == relative_to(self@, base@),
    {
        if !self.starts_with(base) {
            return None;
        }
        let mut parts: Vec<String> = Vec::new();
        let start = base.parts.len();
        let mut i: usize = start;
        while i < self.parts.len()
            invariant
                start == base@.parts.len(),
                start <= i <= self.parts@.len(),
                text::texts(parts@) =~= self@.parts.subrange(start as int, i as int),
            decreases self.parts.len() - i,
        {
            text::push_text(&mut parts, self.parts[i].as_str());
            i += 1;
        }
        assert(self@.parts.subrange(start as int, i as int) =~= self@.parts.skip(start as int));
        let prefix = String::new();
        assert(prefix@ =~= seq![]);
        let spelled = take_tail(self.system, self.spelled.as_str(), start);
        Some(FsPath { system: self.system, prefix, rooted: false, parts, spelled })
    }

    fn steps(&self) -> (out: Vec<String>)
        ensures
            text::texts(out@) == steps_of(self@),
    {
        let mut out: Vec<String> = Vec::new();
        if self.prefix.as_str().unicode_len() > 0 {
            text::push_text(&mut out, self.prefix.as_str());
        }
        if self.rooted {
            text::push_text(&mut out, separator_of(self.system.platform()));
        }
        text::push_texts(&mut out, self.parts.as_slice());
        assert(text::texts(out@) =~= steps_of(self@));
        out
    }

    fn fold(&self) -> (out: Vec<String>)
        ensures
            text::texts(out@) == folded(self@),
    {
        let steps = self.steps();
        if self.system != System::Windows {
            return steps;
        }
        let mut out: Vec<String> = Vec::new();
        let mut i: usize = 0;
        while i < steps.len()
            invariant
                i <= steps@.len(),
                self@.platform == Platform::Windows,
                text::texts(steps@) == steps_of(self@),
                text::texts(out@) =~= folded(self@).take(i as int),
            decreases steps.len() - i,
        {
            let lower = to_lowercase(steps[i].as_str());
            assert(text::texts(steps@)[i as int] == steps@[i as int]@);
            text::push_text(&mut out, lower.as_str());
            i += 1;
        }
        assert(text::texts(steps@).len() == steps@.len());
        assert(folded(self@).take(i as int) =~= folded(self@));
        out
    }

    /// Whether the path is `root` or lies below it, as names are compared.
    pub fn is_in(&self, root: &FsPath) -> (r: bool)
        ensures
            r == lies_in(self@, root@),
    {
        if !self.system.is_same(root.system) {
            return false;
        }
        let own = self.fold();
        let top = root.fold();
        assert(text::texts(own@).len() == own@.len());
        assert(text::texts(top@).len() == top@.len());
        if top.len() > own.len() {
            return false;
        }
        let mut i: usize = 0;
        while i < top.len()
            invariant
                i <= top@.len() <= own@.len(),
                text::texts(own@) == folded(self@),
                text::texts(top@) == folded(root@),
                top@.len() == folded(root@).len(),
                own@.len() == folded(self@).len(),
                forall|j: int| 0 <= j < i ==> folded(self@)[j] == folded(root@)[j],
            decreases top.len() - i,
        {
            assert(text::texts(own@)[i as int] == own@[i as int]@);
            assert(text::texts(top@)[i as int] == top@[i as int]@);
            if !text::same(own[i].as_str(), top[i].as_str()) {
                assert(folded(self@).take(folded(root@).len() as int)[i as int]
                    != folded(root@)[i as int]);
                return false;
            }
            i += 1;
        }
        assert(folded(self@).take(folded(root@).len() as int) =~= folded(root@));
        true
    }
}

/// Appends a path to a list.
pub fn push_path(v: &mut Vec<FsPath>, p: FsPath)
    ensures
        path_views(final(v)@) == path_views(old(v)@).push(p@),
{
    v.push(p);
    assert(path_views(v@) =~= path_views(old(v)@).push(p@));
}

/// Appends copies of the paths of `more` to a list.
pub fn push_paths(v: &mut Vec<FsPath>, more: &[FsPath])
    ensures
        path_views(final(v)@) == path_views(old(v)@) + path_views(more@),
{
    let mut i: usize = 0;
    while i < more.len()
        invariant
            i <= more@.len(),
            path_views(v@) =~= path_views(old(v)@) + path_views(more@).take(i as int),
        decreases more.len() - i,
    {
        push_path(v, more[i].copy());
        assert(path_views(more@).take(i + 1) =~= path_views(more@).take(i as int).push(
            more@[i as int]@,
        ));
        i += 1;
    }
    assert(path_views(more@).take(i as int) =~= path_views(more@));
}

/// A list of copies of paths.
pub fn copy_paths(v: &[FsPath]) -> (out: Vec<FsPath>)
    ensures
        path_views(out@) == path_views(v@),
{
    let mut out: Vec<FsPath> = Vec::new();
    let mut i: usize = 0;
    while i < v.len()
        invariant
            i <= v@.len(),
            path_views(out@) =~= path_views(v@).take(i as int),
        decreases v.len() - i,
    {
        let p = v[i].copy();
        let ghost before = path_views(out@);
        out.push(p);
        assert(path_views(out@) =~= before.push(p@));
        i += 1;
    }
    assert(path_views(v@).take(i as int) =~= path_views(v@));
    out
}

/// Whether `p` is one of the paths of `list`.
pub fn path_listed(list: &[FsPath], p: &FsPath) -> (r: bool)
    ensures
        r == lists(path_views(list@), p@),
{
    let mut i: usize = 0;
    while i < list.len()
        invariant
            i <= list@.len(),
            forall|j: int| 0 <= j < i ==> !same_path(#[trigger] path_views(list@)[j], p@),
        decreases list.len() - i,
    {
        assert(path_views(list@)[i as int] == list@[i as int]@);
        if list[i].same(p) {
            return true;
        }
        i += 1;
    }
    assert(path_views(list@).len() == list@.len());
    false
}

/// What a path names once links are followed.
#[derive(Debug, Clone, Copy, PartialEq, Eq, Structural)]
pub enum FileKind {
    File,
    Directory,
    /// A link whose target is missing, a device, a socket.
    Other,
}

/// One entry of the picture of the file system.
pub struct FsEntry {
    pub path: FsPath,
    /// The path with every link followed, where it leads somewhere.
    pub canonical: Option<FsPath>,
    pub kind: FileKind,
    /// Whether the entry itself is a link.
    pub link: bool,
    /// The text of a file, where it was read.
    pub text: Option<String>,
    /// Why what is here could not be read as text, where it could not.
    pub unreadable: Option<String>,
    /// The names of a directory's entries, in the order of their names.
    pub children: Vec<String>,
}

/// The model of `FsEntry`.
#[verifier::ext_equal]
pub struct EntryModel {
    pub path: PathModel,
    pub canonical: Option<PathModel>,
    pub kind: FileKind,
    pub link: bool,
    pub text: Option<Seq<char>>,
    pub unreadable: Option<Seq<char>>,
    pub children: Seq<Seq<char>>,
}

impl View for FsEntry {
    type V = EntryModel;

    open spec fn view(&self) -> EntryModel {
        EntryModel {
            path: self.path@,
            canonical: opt_path(self.canonical),
            kind: self.kind,
            link: self.link,
            text: text::opt_text(self.text),
            unreadable: text::opt_text(self.unreadable),
            children: text::texts(self.children@),
        }
    }
}

/// The part of the file system that a decision reads. A path that no entry
/// has does not exist; of several entries with one path the first counts.
pub struct FsTree {
    pub entries: Vec<FsEntry>,
}

impl View for FsTree {
    type V = Seq<EntryModel>;

    open spec fn view(&self) -> Seq<EntryModel> {
        Seq::new(self.entries@.len(), |i: int| self.entries@[i]@)
    }
}

/// The entry with the path `p`, from the `i`th entry on.
pub open spec fn entry_from(fs: Seq<EntryModel>, p: PathModel, i: int) -> Option<EntryModel>
    decreases fs.len() - i,
{
    if i < 0 || i >= fs.len() {
        None
    } else if same_path(fs[i].path, p) {
        Some(fs[i])
    } else {
        entry_from(fs, p, i + 1)
    }
}

/// The entry with the path `p`.
pub open spec fn entry_at(fs: Seq<EntryModel>, p: PathModel) -> Option<EntryModel> {
    entry_from(fs, p, 0)
}

/// Whether `p` leads to a directory.
pub open spec fn dir_at(fs: Seq<EntryModel>, p: PathModel) -> bool {
    entry_at(fs, p) matches Some(e) && e.kind == FileKind::Directory
}

/// Whether `p` leads to a file.
pub open spec fn file_at(fs: Seq<EntryModel>, p: PathModel) -> bool {
    entry_at(fs, p) matches Some(e) && e.kind == FileKind::File
}

/// Whether `p` is a file itself, not a link to one.
pub open spec fn regular_at(fs: Seq<EntryModel>, p: PathModel) -> bool {
    entry_at(fs, p) matches Some(e) && e.kind == FileKind::File && !e.link
}

/// Where `p` leads with every link followed.
pub open spec fn canonical_at(fs: Seq<EntryModel>, p: PathModel) -> Option<PathModel> {
    match entry_at(fs, p) {
        Some(e) => e.canonical,
        None => None,
    }
}

/// Where `p` leads with every link followed, in its plain form.
pub open spec fn plain_at(fs: Seq<EntryModel>, p: PathModel) -> Option<PathModel> {
    match canonical_at(fs, p) {
        Some(c) => Some(plain_path(c)),
        None => None,
    }
}

/// The system that the entries are of. Where there are none it does not
/// matter.
pub open spec fn platform_of(fs: Seq<EntryModel>) -> Platform {
    if fs.len() == 0 {
        Platform::Windows
    } else {
        fs[0].path.platform
    }
}

/// The text of the file at `p`.
pub open spec fn text_at(fs: Seq<EntryModel>, p: PathModel) -> Option<Seq<char>> {
    match entry_at(fs, p) {
        Some(e) => e.text,
        None => None,
    }
}

/// Why what is at `p` could not be read as text.
pub open spec fn unreadable_at(fs: Seq<EntryModel>, p: PathModel) -> Option<Seq<char>> {
    match entry_at(fs, p) {
        Some(e) => e.unreadable,
        None => None,
    }
}

/// Whether `p` is a directory itself, not a link to one.
pub open spec fn real_dir_at(fs: Seq<EntryModel>, p: PathModel) -> bool {
    entry_at(fs, p) matches Some(e) && e.kind == FileKind::Directory && !e.link
}

/// The names of the entries of the directory at `p`.
pub open spec fn children_at(fs: Seq<EntryModel>, p: PathModel) -> Seq<Seq<char>> {
    match entry_at(fs, p) {
        Some(e) => e.children,
        None => seq![],
    }
}

impl FsTree {
    /// The entry with the path `p`.
    pub fn entry(&self, p: &FsPath) -> (r: Option<&FsEntry>)
        ensures
            (match r {
                Some(e) => Some(e@),
                None => None,
            }) == entry_at(self@, p@),
    {
        let mut i: usize = 0;
        while i < self.entries.len()
            invariant
                i <= self.entries@.len(),
                entry_at(self@, p@) == entry_from(self@, p@, i as int),
            decreases self.entries.len() - i,
        {
            assert(self@[i as int] == self.entries@[i as int]@);
            if self.entries[i].path.same(p) {
                return Some(&self.entries[i]);
            }
            i += 1;
        }
        None
    }

    /// Whether `p` leads to a directory.
    pub fn is_dir(&self, p: &FsPath) -> (r: bool)
        ensures
            r == dir_at(self@, p@),
    {
        match self.entry(p) {
            Some(e) => e.kind == FileKind::Directory,
            None => false,
        }
    }

    /// Whether `p` leads to a file.
    pub fn is_file(&self, p: &FsPath) -> (r: bool)
        ensures
            r == file_at(self@, p@),
    {
        match self.entry(p) {
            Some(e) => e.kind == FileKind::File,
            None => false,
        }
    }

    /// Whether `p` is a file itself, not a link to one.
    pub fn is_regular_file(&self, p: &FsPath) -> (r: bool)
        ensures
            r == regular_at(self@, p@),
    {
        match self.entry(p) {
            Some(e) => e.kind == FileKind::File && !e.link,
            None => false,
        }
    }

    /// Where `p` leads with every link followed.
    pub fn canonicalize(&self, p: &FsPath) -> (r: Option<FsPath>)
        ensures
            opt_path(r) == canonical_at(self@, p@),
    {
        match self.entry(p) {
            Some(e) => match &e.canonical {
                Some(c) => Some(c.copy()),
                None => None,
            },
            None => None,
        }
    }

    /// Where `p` leads with every link followed, in its plain form.
    pub fn resolve(&self, p: &FsPath) -> (r: Option<FsPath>)
        ensures
            opt_path(r) == plain_at(self@, p@),
    {
        match self.canonicalize(p) {
            Some(c) => Some(c.plain()),
            None => None,
        }
    }

    /// The system that the entries are of.
    pub fn system(&self) -> (r: System)
        ensures
            r@ == platform_of(self@),
    {
        if self.entries.len() == 0 {
            System::Windows
        } else {
            assert(self@[0] == self.entries@[0]@);
            self.entries[0].path.system
        }
    }

    /// The text of the file at `p`.
    pub fn read_text(&self, p: &FsPath) -> (r: Option<String>)
        ensures
            text::opt_text(r) == text_at(self@, p@),
    {
        match self.entry(p) {
            Some(e) => match &e.text {
                Some(s) => Some(s.clone()),
                None => None,
            },
            None => None,
        }
    }

    /// Why what is at `p` could not be read as text.
    pub fn read_failure(&self, p: &FsPath) -> (r: Option<String>)
        ensures
            text::opt_text(r) == unreadable_at(self@, p@),
    {
        match self.entry(p) {
            Some(e) => match &e.unreadable {
                Some(s) => Some(s.clone()),
                None => None,
            },
            None => None,
        }
    }

    /// Whether `p` is a directory itself, not a link to one.
    pub fn is_real_dir(&self, p: &FsPath) -> (r: bool)
        ensures
            r == real_dir_at(self@, p@),
    {
        match self.entry(p) {
            Some(e) => e.kind == FileKind::Directory && !e.link,
            None => false,
        }
    }

    /// The names of the entries of the directory at `p`.
    pub fn read_dir(&self, p: &FsPath) -> (out: Vec<String>)
        ensures
            text::texts(out@) == children_at(self@, p@),
    {
        match self.entry(p) {
            Some(e) => text::clone_all(e.children.as_slice()),
            None => {
                let out: Vec<String> = Vec::new();
                assert(text::texts(out@) =~= seq![]);
                out
            },
        }
    }
}

/// The way from a directory to a path below it leads back to that path.
pub proof fn lemma_relative_leads_back(p: PathModel, base: PathModel)
    requires
        within(p, base),
        relative_to(p, base)->0.parts.len() == 0 || relative_to(p, base)->0.parts[0] != "."@,
        !base.relative() || base.parts.len() > 0,
    ensures
        same_path(joined_path(base, relative_to(p, base)->0), p),
{
    assert(base.parts + p.parts.skip(base.parts.len() as int) =~= p.parts);
}

/// A path stays within the directory that a relative path is joined to.
pub proof fn lemma_join_stays_within(base: PathModel, rest: PathModel)
    requires
        rest.relative(),
        !base.relative() || base.parts.len() > 0,
    ensures
        within(joined_path(base, rest), base),
{
    assert(joined_path(base, rest).parts.take(base.parts.len() as int) =~= base.parts);
}

/// Whether `a` comes before `b` in the order of their characters, from
/// position `i` on.
pub open spec fn text_before(a: Seq<char>, b: Seq<char>, i: int) -> bool
    decreases b.len() - i,
{
    if i < 0 || i >= b.len() {
        false
    } else if i >= a.len() {
        true
    } else if a[i] != b[i] {
        a[i] < b[i]
    } else {
        text_before(a, b, i + 1)
    }
}

/// Whether `a` comes before `b` in the order of their characters.
pub fn text_less(a: &str, b: &str) -> (r: bool)
    ensures
        r == text_before(a@, b@, 0),
{
    let x = text::chars_of(a);
    let y = text::chars_of(b);
    let mut i: usize = 0;
    while i < y.len()
        invariant
            i <= y@.len(),
            x@ == a@,
            y@ == b@,
            text_before(a@, b@, 0) == text_before(a@, b@, i as int),
        decreases y.len() - i,
    {
        if i >= x.len() {
            return true;
        }
        if x[i] != y[i] {
            return x[i] < y[i];
        }
        i += 1;
    }
    false
}

/// The kind of a component: `.` comes before `..`, and both before names.
pub open spec fn part_rank(part: Seq<char>) -> int {
    if part == "."@ {
        0
    } else if part == ".."@ {
        1
    } else {
        2
    }
}

/// Whether the component `a` comes before `b`.
pub open spec fn part_before(a: Seq<char>, b: Seq<char>) -> bool {
    part_rank(a) < part_rank(b) || (part_rank(a) == part_rank(b) && text_before(a, b, 0))
}

/// Whether the components `a` come before `b`, from the `i`th on.
pub open spec fn parts_before(a: Seq<Seq<char>>, b: Seq<Seq<char>>, i: int) -> bool
    decreases b.len() - i,
{
    if i < 0 || i >= b.len() {
        false
    } else if i >= a.len() {
        true
    } else if a[i] != b[i] {
        part_before(a[i], b[i])
    } else {
        parts_before(a, b, i + 1)
    }
}

/// What kind of prefix comes first: a name behind `\\?\`, a share behind it, a
/// drive behind it, a device, a share, a drive.
pub open spec fn prefix_rank(prefix: Seq<char>) -> int {
    if text::begins(prefix, "\\\\?\\UNC\\"@) {
        1
    } else {
        match text::after_prefix(prefix, "\\\\?\\"@) {
            Some(rest) => if has_drive(rest) && rest.len() == 2 {
                2
            } else {
                0
            },
            None => if text::begins(prefix, "\\\\.\\"@) {
                3
            } else if text::begins(prefix, "\\\\"@) {
                4
            } else {
                5
            },
        }
    }
}

/// The names in a prefix: of a share, the server and the share.
pub open spec fn prefix_names(prefix: Seq<char>) -> (Seq<char>, Seq<char>) {
    match text::after_prefix(prefix, "\\\\?\\UNC\\"@) {
        Some(rest) => first_part(rest),
        None => match text::after_prefix(prefix, "\\\\"@) {
            Some(rest) => first_part(rest),
            None => (prefix, seq![]),
        },
    }
}

/// Whether the prefix `a` comes before `b`: by what they are, then by the
/// names in them.
#[verifier::opaque]
pub open spec fn prefix_before(a: Seq<char>, b: Seq<char>) -> bool {
    let (first_a, second_a) = prefix_names(a);
    let (first_b, second_b) = prefix_names(b);
    if prefix_rank(a) != prefix_rank(b) {
        prefix_rank(a) < prefix_rank(b)
    } else if first_a != first_b {
        text_before(first_a, first_b, 0)
    } else if second_a != second_b {
        text_before(second_a, second_b, 0)
    } else {
        text_before(a, b, 0)
    }
}

fn rank_prefix(prefix: &str) -> (r: u8)
    ensures
        r == prefix_rank(prefix@),
{
    if text::starts_with(prefix, "\\\\?\\UNC\\") {
        return 1;
    }
    match text::strip_prefix(prefix, "\\\\?\\") {
        Some(rest) => if starts_with_drive(rest) && rest.unicode_len() == 2 {
            2
        } else {
            0
        },
        None => if text::starts_with(prefix, "\\\\.\\") {
            3
        } else if text::starts_with(prefix, "\\\\") {
            4
        } else {
            5
        },
    }
}

fn names_of_prefix(prefix: &str) -> (r: (&str, &str))
    ensures
        (r.0@, r.1@) == prefix_names(prefix@),
{
    match text::strip_prefix(prefix, "\\\\?\\UNC\\") {
        Some(rest) => split_first(rest),
        None => match text::strip_prefix(prefix, "\\\\") {
            Some(rest) => split_first(rest),
            None => {
                proof {
                    reveal_strlit("");
                    assert(""@ =~= seq![]);
                }
                (prefix, "")
            },
        },
    }
}

fn prefix_less(a: &str, b: &str) -> (r: bool)
    ensures
        r == prefix_before(a@, b@),
{
    proof {
        reveal(prefix_before);
    }
    let rank_a: u8 = rank_prefix(a);
    let rank_b: u8 = rank_prefix(b);
    if rank_a != rank_b {
        return rank_a < rank_b;
    }
    let (first_a, second_a) = names_of_prefix(a);
    let (first_b, second_b) = names_of_prefix(b);
    if !text::same(first_a, first_b) {
        text_less(first_a, first_b)
    } else if !text::same(second_a, second_b) {
        text_less(second_a, second_b)
    } else {
        text_less(a, b)
    }
}

/// Whether a path has neither a start nor components.
pub open spec fn nowhere(p: PathModel) -> bool {
    p.relative() && p.parts.len() == 0
}

/// Whether the path `a` comes before `b`: component by component, the prefix
/// first, then the root.
pub open spec fn path_before(a: PathModel, b: PathModel) -> bool {
    if a.platform != b.platform {
        a.platform == Platform::Unix
    } else if a.prefix != b.prefix {
        if a.prefix.len() == 0 {
            nowhere(a)
        } else if b.prefix.len() == 0 {
            !nowhere(b)
        } else {
            prefix_before(a.prefix, b.prefix)
        }
    } else if a.rooted == b.rooted {
        parts_before(a.parts, b.parts, 0)
    } else if a.rooted {
        b.parts.len() > 0
    } else {
        a.parts.len() == 0
    }
}

fn rank_of(part: &str) -> (r: u8)
    ensures
        r == part_rank(part@),
{
    if text::same(part, ".") {
        0
    } else if text::same(part, "..") {
        1
    } else {
        2
    }
}

impl FsPath {
    /// Whether the path comes before `other`.
    pub fn comes_before(&self, other: &FsPath) -> (r: bool)
        ensures
            r == path_before(self@, other@),
    {
        assert(self@.parts.len() == self.parts@.len());
        assert(other@.parts.len() == other.parts@.len());
        if !self.system.is_same(other.system) {
            return self.system != System::Windows;
        }
        if !text::same(self.prefix.as_str(), other.prefix.as_str()) {
            return if self.prefix.as_str().unicode_len() == 0 {
                !self.rooted && self.parts.len() == 0
            } else if other.prefix.as_str().unicode_len() == 0 {
                other.rooted || other.parts.len() > 0
            } else {
                prefix_less(self.prefix.as_str(), other.prefix.as_str())
            };
        }
        if self.rooted != other.rooted {
            return if self.rooted {
                other.parts.len() > 0
            } else {
                self.parts.len() == 0
            };
        }
        let mut i: usize = 0;
        while i < other.parts.len()
            invariant
                i <= other.parts@.len(),
                same_start(self@, other@),
                parts_before(self@.parts, other@.parts, 0) == parts_before(
                    self@.parts,
                    other@.parts,
                    i as int,
                ),
            decreases other.parts.len() - i,
        {
            if i >= self.parts.len() {
                return true;
            }
            let a = self.parts[i].as_str();
            let b = other.parts[i].as_str();
            assert(self@.parts[i as int] == a@ && other@.parts[i as int] == b@);
            if !text::same(a, b) {
                let x = rank_of(a);
                let y = rank_of(b);
                return x < y || (x == y && text_less(a, b));
            }
            i += 1;
        }
        false
    }
}

/// The first position at or after `i` whose path does not come before `p`.
pub open spec fn slot(list: Seq<PathModel>, p: PathModel, i: int) -> int
    decreases list.len() - i,
{
    if 0 <= i < list.len() && path_before(list[i], p) {
        slot(list, p, i + 1)
    } else {
        i
    }
}

/// A sorted list with `p` in its place; a path that is there is not added
/// again.
pub open spec fn with_path(list: Seq<PathModel>, p: PathModel) -> Seq<PathModel> {
    let k = slot(list, p, 0);
    if k < list.len() && same_path(list[k], p) {
        list
    } else {
        list.insert(k, p)
    }
}

/// A sorted list with each of the first `n` of `more` in its place.
pub open spec fn with_paths(list: Seq<PathModel>, more: Seq<PathModel>, n: int) -> Seq<PathModel>
    decreases n,
{
    if n <= 0 {
        list
    } else {
        with_path(with_paths(list, more, n - 1), more[n - 1])
    }
}

/// Puts `p` in its place in a sorted list.
pub fn insert_path(list: &mut Vec<FsPath>, p: FsPath)
    ensures
        path_views(final(list)@) == with_path(path_views(old(list)@), p@),
{
    let ghost views = path_views(list@);
    let mut k: usize = 0;
    while k < list.len() && list[k].comes_before(&p)
        invariant
            k <= list@.len(),
            views == path_views(list@),
            list@ == old(list)@,
            slot(views, p@, 0) == slot(views, p@, k as int),
        decreases list.len() - k,
    {
        assert(views[k as int] == list@[k as int]@);
        k += 1;
    }
    assert(k < list@.len() ==> views[k as int] == list@[k as int]@);
    if k < list.len() && list[k].same(&p) {
        return;
    }
    list.insert(k, p);
    assert(path_views(list@) =~= views.insert(k as int, p@));
}

/// Puts each of `more` in its place in a sorted list.
pub fn insert_paths(list: &mut Vec<FsPath>, more: &[FsPath])
    ensures
        path_views(final(list)@) == with_paths(
            path_views(old(list)@),
            path_views(more@),
            more@.len() as int,
        ),
{
    let mut i: usize = 0;
    while i < more.len()
        invariant
            i <= more@.len(),
            path_views(list@) == with_paths(path_views(old(list)@), path_views(more@), i as int),
        decreases more.len() - i,
    {
        assert(path_views(more@)[i as int] == more@[i as int]@);
        insert_path(list, more[i].copy());
        i += 1;
    }
}

/// Of two texts that differ, from a common start on, one comes first.
proof fn lemma_text_total(a: Seq<char>, b: Seq<char>, i: int)
    requires
        0 <= i <= a.len(),
        i <= b.len(),
        a.take(i) == b.take(i),
    ensures
        a == b || text_before(a, b, i) || text_before(b, a, i),
    decreases b.len() - i,
{
    if i < a.len() && i < b.len() {
        if a[i] == b[i] {
            assert(a.take(i + 1) =~= a.take(i).push(a[i]));
            assert(b.take(i + 1) =~= b.take(i).push(b[i]));
            lemma_text_total(a, b, i + 1);
        }
    } else if i == a.len() && i == b.len() {
        assert(a.take(i) =~= a);
        assert(b.take(i) =~= b);
    }
}

/// The order of texts is transitive.
proof fn lemma_text_transitive(a: Seq<char>, b: Seq<char>, c: Seq<char>, i: int)
    requires
        0 <= i,
        text_before(a, b, i),
        text_before(b, c, i),
    ensures
        text_before(a, c, i),
    decreases c.len() - i,
{
    if i < a.len() && a[i] == b[i] && b[i] == c[i] {
        lemma_text_transitive(a, b, c, i + 1);
    }
}

/// Of two components that differ one comes first, and the order is
/// transitive.
proof fn lemma_part_order(a: Seq<char>, b: Seq<char>, c: Seq<char>)
    ensures
        a == b || part_before(a, b) || part_before(b, a),
        part_before(a, b) && part_before(b, c) ==> part_before(a, c),
        !part_before(a, a),
{
    assert(a.take(0) =~= b.take(0));
    lemma_text_total(a, b, 0);
    if text_before(a, b, 0) && text_before(b, c, 0) {
        lemma_text_transitive(a, b, c, 0);
    }
    lemma_text_irreflexive(a, 0);
}

proof fn lemma_text_irreflexive(a: Seq<char>, i: int)
    ensures
        !text_before(a, a, i),
    decreases a.len() - i,
{
    if 0 <= i < a.len() {
        lemma_text_irreflexive(a, i + 1);
    }
}

proof fn lemma_parts_irreflexive(a: Seq<Seq<char>>, i: int)
    ensures
        !parts_before(a, a, i),
    decreases a.len() - i,
{
    if 0 <= i < a.len() {
        lemma_parts_irreflexive(a, i + 1);
    }
}

proof fn lemma_parts_total(a: Seq<Seq<char>>, b: Seq<Seq<char>>, i: int)
    requires
        0 <= i <= a.len(),
        i <= b.len(),
        a.take(i) == b.take(i),
    ensures
        a == b || parts_before(a, b, i) || parts_before(b, a, i),
    decreases b.len() - i,
{
    if i < a.len() && i < b.len() {
        if a[i] == b[i] {
            assert(a.take(i + 1) =~= a.take(i).push(a[i]));
            assert(b.take(i + 1) =~= b.take(i).push(b[i]));
            lemma_parts_total(a, b, i + 1);
        } else {
            lemma_part_order(a[i], b[i], b[i]);
        }
    } else if i == a.len() && i == b.len() {
        assert(a.take(i) =~= a);
        assert(b.take(i) =~= b);
    }
}

proof fn lemma_parts_transitive(a: Seq<Seq<char>>, b: Seq<Seq<char>>, c: Seq<Seq<char>>, i: int)
    requires
        0 <= i,
        parts_before(a, b, i),
        parts_before(b, c, i),
    ensures
        parts_before(a, c, i),
    decreases c.len() - i,
{
    if i < a.len() {
        lemma_part_order(a[i], b[i], c[i]);
        lemma_part_order(a[i], b[i], a[i]);
        if a[i] == b[i] && b[i] == c[i] {
            lemma_parts_transitive(a, b, c, i + 1);
        }
    }
}

/// Of two texts that differ one comes first, and the order is strict.
pub proof fn lemma_text_order(a: Seq<char>, b: Seq<char>, c: Seq<char>)
    ensures
        a == b || text_before(a, b, 0) || text_before(b, a, 0),
        text_before(a, b, 0) && text_before(b, c, 0) ==> text_before(a, c, 0),
        !text_before(a, a, 0),
{
    assert(a.take(0) =~= b.take(0));
    lemma_text_total(a, b, 0);
    lemma_text_irreflexive(a, 0);
    if text_before(a, b, 0) && text_before(b, c, 0) {
        lemma_text_transitive(a, b, c, 0);
    }
}

proof fn lemma_prefix_order(a: Seq<char>, b: Seq<char>, c: Seq<char>)
    ensures
        a == b || prefix_before(a, b) || prefix_before(b, a),
        prefix_before(a, b) && prefix_before(b, c) ==> prefix_before(a, c),
        !prefix_before(a, a),
{
    reveal(prefix_before);
    let (first_a, second_a) = prefix_names(a);
    let (first_b, second_b) = prefix_names(b);
    let (first_c, second_c) = prefix_names(c);
    lemma_text_order(a, b, c);
    lemma_text_order(first_a, first_b, first_c);
    lemma_text_order(second_a, second_b, second_c);
    lemma_text_order(first_a, first_b, first_a);
    lemma_text_order(second_a, second_b, second_a);
}

/// The order of paths is total and transitive, and no path comes before
/// itself.
pub proof fn lemma_path_order(a: PathModel, b: PathModel, c: PathModel)
    ensures
        same_path(a, b) || path_before(a, b) || path_before(b, a),
        path_before(a, b) && path_before(b, c) ==> path_before(a, c),
        same_path(a, b) ==> !path_before(a, b),
{
    assert(a.parts.take(0) =~= b.parts.take(0));
    lemma_parts_total(a.parts, b.parts, 0);
    lemma_prefix_order(a.prefix, b.prefix, c.prefix);
    lemma_prefix_order(a.prefix, b.prefix, a.prefix);
    assert(a.prefix.len() == 0 && b.prefix.len() == 0 ==> a.prefix =~= b.prefix);
    assert(b.prefix.len() == 0 && c.prefix.len() == 0 ==> b.prefix =~= c.prefix);
    assert(a.prefix.len() == 0 && c.prefix.len() == 0 ==> a.prefix =~= c.prefix);
    if same_start(a, b) && same_start(b, c) && path_before(a, b) && path_before(b, c) {
        lemma_parts_transitive(a.parts, b.parts, c.parts, 0);
    }
    lemma_parts_irreflexive(a.parts, 0);
}

/// Whether every path of a list comes before those behind it.
pub open spec fn strictly_sorted(list: Seq<PathModel>) -> bool {
    forall|i: int, j: int|
        0 <= i < j < list.len() ==> path_before(#[trigger] list[i], #[trigger] list[j])
}

proof fn lemma_slot(list: Seq<PathModel>, p: PathModel, i: int)
    requires
        0 <= i <= list.len(),
        forall|j: int| 0 <= j < i ==> path_before(#[trigger] list[j], p),
    ensures
        i <= slot(list, p, i) <= list.len(),
        forall|j: int| 0 <= j < slot(list, p, i) ==> path_before(#[trigger] list[j], p),
        slot(list, p, i) < list.len() ==> !path_before(list[slot(list, p, i)], p),
    decreases list.len() - i,
{
    if i < list.len() && path_before(list[i], p) {
        lemma_slot(list, p, i + 1);
    }
}

/// Putting a path in its place keeps a list sorted and without repetition,
/// and adds that path alone.
pub proof fn lemma_with_path(list: Seq<PathModel>, p: PathModel)
    requires
        strictly_sorted(list),
    ensures
        strictly_sorted(with_path(list, p)),
        lists(with_path(list, p), p),
        forall|q: PathModel| #[trigger]
            with_path(list, p).contains(q) ==> q == p || list.contains(q),
        forall|q: PathModel| #[trigger]
            list.contains(q) ==> with_path(list, p).contains(q),
{
    lemma_slot(list, p, 0);
    let k = slot(list, p, 0);
    let out = with_path(list, p);
    if k < list.len() && same_path(list[k], p) {
        assert(same_path(out[k], p));
    } else {
        assert(out[k] == p);
        assert(same_path(out[k], p));
        assert forall|i: int, j: int| 0 <= i < j < out.len() implies path_before(
            #[trigger] out[i],
            #[trigger] out[j],
        ) by {
            if i < k && j > k {
                assert(out[i] == list[i] && out[j] == list[j - 1]);
            } else if i == k {
                assert(out[j] == list[j - 1]);
                lemma_path_order(p, list[k], list[j - 1]);
            } else if j == k {
                assert(out[i] == list[i]);
            } else if i > k {
                assert(out[i] == list[i - 1] && out[j] == list[j - 1]);
            } else {
                assert(out[i] == list[i] && out[j] == list[j]);
            }
        }
        assert forall|q: PathModel| #[trigger] out.contains(q) implies q == p || list.contains(
            q,
        ) by {
            let i = choose|i: int| 0 <= i < out.len() && out[i] == q;
            if i < k {
                assert(list[i] == q);
            } else if i > k {
                assert(list[i - 1] == q);
            }
        }
        assert forall|q: PathModel| #[trigger] list.contains(q) implies out.contains(q) by {
            let i = choose|i: int| 0 <= i < list.len() && list[i] == q;
            if i < k {
                assert(out[i] == q);
            } else {
                assert(out[i + 1] == q);
            }
        }
    }
}

/// A list of paths that are put in their places one by one is sorted and
/// without repetition, keeps what it held, and gets nothing but what was put
/// in.
pub proof fn lemma_with_paths(list: Seq<PathModel>, more: Seq<PathModel>, n: int)
    requires
        strictly_sorted(list),
        0 <= n <= more.len(),
    ensures
        strictly_sorted(with_paths(list, more, n)),
        forall|q: PathModel| #[trigger]
            with_paths(list, more, n).contains(q) ==> list.contains(q) || more.contains(q),
        forall|q: PathModel| #[trigger]
            list.contains(q) ==> with_paths(list, more, n).contains(q),
        forall|k: int| 0 <= k < n ==> lists(with_paths(list, more, n), #[trigger] more[k]),
    decreases n,
{
    if n > 0 {
        lemma_with_paths(list, more, n - 1);
        let before = with_paths(list, more, n - 1);
        lemma_with_path(before, more[n - 1]);
        let after = with_paths(list, more, n);
        assert(more.contains(more[n - 1]));
        assert forall|k: int| 0 <= k < n implies lists(after, #[trigger] more[k]) by {
            if k < n - 1 {
                assert(lists(before, more[k]));
                let i = choose|i: int|
                    0 <= i < before.len() && same_path(#[trigger] before[i], more[k]);
                assert(before.contains(before[i]));
                assert(after.contains(before[i]));
                let j = choose|j: int| 0 <= j < after.len() && after[j] == before[i];
                assert(same_path(after[j], more[k]));
            }
        }
    }
}

/// However a path is written, the same entry stands there.
pub proof fn lemma_same_entry(fs: Seq<EntryModel>, p: PathModel, q: PathModel, i: int)
    requires
        same_path(p, q),
    ensures
        entry_from(fs, p, i) == entry_from(fs, q, i),
    decreases fs.len() - i,
{
    if 0 <= i < fs.len() {
        lemma_same_entry(fs, p, q, i + 1);
    }
}

} // verus!
