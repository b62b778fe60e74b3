//! Events, the event journal, exported sessions, frontmatter and replies.

use vstd::prelude::*;

use crate::event_log;
use crate::event_log::{EventsExit, EventsModel};
use crate::events;
use crate::events::{EventModel, WatchModel};
use crate::export;
use crate::frontmatter;
use crate::json;
use crate::laws::texts;
use crate::paths;
use crate::paths::PathModel;
use crate::remote;
use crate::remote::{PumpedModel, ReplyModel};
use crate::search_bar;
use crate::search_bar::SearchModel;
use crate::text;

verus! {

/// How many of the first `n` watches have a listener.
pub open spec fn listeners(watches: Seq<WatchModel>, n: int) -> int
    decreases n,
{
    if n <= 0 {
        0
    } else if watches[n - 1].listener is Some {
        listeners(watches, n - 1) + 1
    } else {
        listeners(watches, n - 1)
    }
}

/// An event goes to every watch with a listener, once and in the order of the
/// watches, and to no other.
pub proof fn lemma_event_reaches_every_listener(
    watches: Seq<WatchModel>,
    event: EventModel,
    n: int,
    i: int,
)
    requires
        0 <= i < n <= watches.len(),
    ensures
        events::deliveries_among(watches, event, n).len() == listeners(watches, n),
        watches[i].listener matches Some(listener) ==> 0 <= listeners(watches, i) < listeners(
            watches,
            n,
        ) && events::deliveries_among(watches, event, n)[listeners(watches, i)] == (
            listener,
            event,
        ),
    decreases n,
{
    lemma_delivery_count(watches, event, n - 1);
    if i < n - 1 {
        lemma_event_reaches_every_listener(watches, event, n - 1, i);
    }
}

proof fn lemma_delivery_count(watches: Seq<WatchModel>, event: EventModel, n: int)
    requires
        0 <= n <= watches.len(),
    ensures
        events::deliveries_among(watches, event, n).len() == listeners(watches, n),
        0 <= listeners(watches, n),
    decreases n,
{
    if n > 0 {
        lemma_delivery_count(watches, event, n - 1);
    }
}

/// A watch without a listener keeps an event behind those it has kept; one
/// with a listener keeps none.
pub proof fn lemma_event_is_kept_for_later(w: WatchModel, event: EventModel)
    ensures
        events::after_event(w, event).id == w.id,
        events::after_event(w, event).listener == w.listener,
        w.listener is None ==> events::after_event(w, event).buffer == w.buffer.push(event),
        w.listener is Some ==> events::after_event(w, event).buffer == w.buffer,
{
}

/// What the journal's commands are.
pub proof fn lemma_journal_commands(args: Seq<Seq<char>>)
    requires
        args.len() > 0,
    ensures
        event_log::command_of(args) is Tail <==> args[0] == seq!['t', 'a', 'i', 'l'],
        event_log::command_of(args) is Path <==> args[0] == seq!['p', 'a', 't', 'h'],
        event_log::command_of(args) is Help <==> args[0] == seq![
            '-',
            '-',
            'h',
            'e',
            'l',
            'p',
        ] || args[0] == seq!['-', 'h'],
        event_log::command_of(args) matches EventsModel::Unknown(other) ==> other == args[0],
        event_log::command_of(seq![]) is Help,
{
    reveal_strlit("tail");
    reveal_strlit("path");
    reveal_strlit("--help");
    reveal_strlit("-h");
    assert("tail"@ =~= seq!['t', 'a', 'i', 'l']);
    assert("path"@ =~= seq!['p', 'a', 't', 'h']);
    assert("--help"@ =~= seq!['-', '-', 'h', 'e', 'l', 'p']);
    assert("-h"@ =~= seq!['-', 'h']);
    assert("tail"@[0] == 't' && "path"@[0] == 'p' && "--help"@[0] == '-' && "-h"@[0] == '-');
    assert("--help"@.len() == 6 && "-h"@.len() == 2);
}

/// Only `tail` with a known place follows the journal. Without a known place
/// `path` and `tail` fail; an unknown command is a mistake of usage.
pub proof fn lemma_journal_replies(command: EventsModel, path: Option<Seq<char>>)
    ensures
        event_log::reply_to(command, path).follow <==> command is Tail && path is Some,
        event_log::reply_to(command, path).exit == EventsExit::Usage <==> command is Unknown,
        event_log::reply_to(command, path).exit == EventsExit::Runtime <==> (command is Tail
            || command is Path) && path is None,
        command is Path && path is Some ==> event_log::reply_to(command, path).lines.len() == 1
            && event_log::reply_to(command, path).lines[0].text == path->0
            && !event_log::reply_to(command, path).lines[0].error,
{
}

/// A journal that has grown is read on from where reading stopped; one that
/// was cut short is read again from its start; otherwise nothing is read.
pub proof fn lemma_journal_is_read_on(offset: u64, length: u64)
    ensures
        length > offset ==> event_log::read_from(offset, length) == Some(offset),
        length == offset ==> event_log::read_from(offset, length) is None,
        0 < length < offset ==> event_log::read_from(offset, length) == Some(0u64),
        length == 0 ==> event_log::read_from(offset, length) is None,
        length < offset ==> event_log::kept_offset(offset, length) == 0,
        length >= offset ==> event_log::kept_offset(offset, length) == offset,
{
}

/// What is printed of a chunk is all of it up to its last line end.
pub proof fn lemma_whole_lines_are_printed(a: Seq<char>, b: Seq<char>)
    requires
        !b.contains('\n'),
    ensures
        event_log::complete_lines(a + seq!['\n'] + b) == a + seq!['\n'],
        event_log::complete_lines(b).len() == 0,
{
    reveal_strlit("\n");
    let s = a + seq!['\n'] + b;
    let n = a.len() as int;
    text::lemma_last_index_to(s, "\n"@, s.len() - 1);
    assert(s.subrange(n, n + 1) =~= "\n"@);
    assert(text::stands_at(s, "\n"@, n));
    let k = text::last_index_of(s, "\n"@)->0;
    if k > n {
        assert(s.subrange(k, k + 1)[0] == s[k]);
        assert(b.contains(b[k - n - 1]));
    }
    assert(s.take(n + 1) =~= a + seq!['\n']);
    text::lemma_last_index_to(b, "\n"@, b.len() - 1);
    if let Some(j) = text::last_index_of(b, "\n"@) {
        assert(b.subrange(j, j + 1)[0] == b[j]);
        assert(b.contains(b[j]));
    }
}

/// What stands for each character in a page.
pub proof fn lemma_entities(c: char)
    ensures
        c == '&' ==> export::entity_of(c) == seq!['&', 'a', 'm', 'p', ';'],
        c == '<' ==> export::entity_of(c) == seq!['&', 'l', 't', ';'],
        c == '>' ==> export::entity_of(c) == seq!['&', 'g', 't', ';'],
        c == '"' ==> export::entity_of(c) == seq!['&', 'q', 'u', 'o', 't', ';'],
        c == '\'' ==> export::entity_of(c) == seq!['&', '#', '3', '9', ';'],
        c != '&' && c != '<' && c != '>' && c != '"' && c != '\'' ==> export::entity_of(c) == seq![
            c,
        ],
{
    reveal_strlit("&amp;");
    reveal_strlit("&lt;");
    reveal_strlit("&gt;");
    reveal_strlit("&quot;");
    reveal_strlit("&#39;");
    assert("&amp;"@ =~= seq!['&', 'a', 'm', 'p', ';']);
    assert("&lt;"@ =~= seq!['&', 'l', 't', ';']);
    assert("&gt;"@ =~= seq!['&', 'g', 't', ';']);
    assert("&quot;"@ =~= seq!['&', 'q', 'u', 'o', 't', ';']);
    assert("&#39;"@ =~= seq!['&', '#', '3', '9', ';']);
}

/// A text is escaped piece by piece, nothing left out.
pub proof fn lemma_escaping_goes_piecewise(a: Seq<char>, b: Seq<char>)
    ensures
        export::escaped(a + b) == export::escaped(a) + export::escaped(b),
    decreases b.len(),
{
    lemma_escaped_prefix(a + b, a, a.len() as int);
    lemma_escaped_rest(a, b, b.len() as int);
}

proof fn lemma_escaped_prefix(s: Seq<char>, t: Seq<char>, n: int)
    requires
        n <= s.len(),
        n <= t.len(),
        forall|i: int| 0 <= i < n ==> s[i] == #[trigger] t[i],
    ensures
        export::escaped_to(s, n) == export::escaped_to(t, n),
    decreases n,
{
    if n > 0 {
        lemma_escaped_prefix(s, t, n - 1);
        assert(s[n - 1] == t[n - 1]);
    }
}

proof fn lemma_escaped_rest(a: Seq<char>, b: Seq<char>, n: int)
    requires
        0 <= n <= b.len(),
    ensures
        export::escaped_to(a + b, a.len() + n) == export::escaped_to(a, a.len() as int)
            + export::escaped_to(b, n),
    decreases n,
{
    let s = a + b;
    if n > 0 {
        lemma_escaped_rest(a, b, n - 1);
        assert(s[a.len() + n - 1] == b[n - 1]);
        assert(export::escaped_to(s, a.len() + n) =~= export::escaped_to(a, a.len() as int)
            + export::escaped_to(b, n));
    } else {
        lemma_escaped_prefix(s, a, a.len() as int);
        assert(export::escaped_to(a, a.len() as int) + export::escaped_to(b, 0)
            =~= export::escaped_to(a, a.len() as int));
    }
}

/// Each line of a session that is not blank is shown, in order, escaped; a
/// blank one is not.
pub proof fn lemma_lines_are_shown(lines: Seq<Seq<char>>, n: int)
    requires
        0 < n <= lines.len(),
    ensures
        text::trim_of(lines[n - 1]).len() == 0 ==> export::shown_lines(lines, n)
            == export::shown_lines(lines, n - 1),
        text::trim_of(lines[n - 1]).len() > 0 ==> export::shown_lines(lines, n)
            == export::shown_lines(lines, n - 1) + ("<pre>"@ + export::escaped(
            json::json_pretty(lines[n - 1]).unwrap_or(lines[n - 1]),
        ) + "</pre>\n"@),
        export::shown_lines(lines, 0).len() == 0,
{
}

/// A session that is exported to a file whose name ends in `.jsonl`, in
/// letters of any case, is copied as it is; to any other file it is written
/// as a page.
pub proof fn lemma_lines_file_is_a_copy(
    source: Seq<char>,
    output: PathModel,
    stem: Seq<char>,
    extension: Seq<char>,
)
    requires
        paths::name_of(output) == Some(stem + seq!['.'] + extension),
        stem.len() > 0,
        !extension.contains('.'),
    ensures
        text::lower_of(extension) == seq!['j', 's', 'o', 'n', 'l'] ==> export::exported(
            source,
            output,
        ) == source,
        text::lower_of(extension) != seq!['j', 's', 'o', 'n', 'l'] ==> export::exported(
            source,
            output,
        ) == export::page_of(source),
{
    reveal_strlit("jsonl");
    reveal_strlit(".");
    let plain = seq!['j', 's', 'o', 'n', 'l'];
    assert("jsonl"@ =~= plain);
    assert(text::lower_of(plain) =~= plain);
    let name = stem + seq!['.'] + extension;
    let n = stem.len() as int;
    text::lemma_last_index_to(name, "."@, name.len() - 1);
    assert(name.subrange(n, n + 1) =~= "."@);
    assert(text::stands_at(name, "."@, n));
    let k = text::last_index_of(name, "."@)->0;
    if k > n {
        assert(name.subrange(k, k + 1)[0] == name[k]);
        assert(extension.contains(extension[k - n - 1]));
    }
    assert(name.skip(n + 1) =~= extension);
}

/// A session that cannot be read is not exported.
pub proof fn lemma_unreadable_session_is_told(
    input: PathModel,
    read: Result<Seq<char>, Seq<char>>,
    output: PathModel,
)
    ensures
        export::export_outcome(input, read, output) is Ok <==> read is Ok,
        read matches Ok(source) ==> export::export_outcome(input, read, output) == Ok::<
            Seq<char>,
            Seq<char>,
        >(export::exported(source, output)),
{
}

/// A document that does not begin with a fence has no frontmatter: all of it
/// is body.
pub proof fn lemma_without_fence_all_is_body(content: Seq<char>)
    requires
        !content.contains('\r'),
        content.len() < 3 || content[0] != '-' || content[1] != '-' || content[2] != '-',
    ensures
        frontmatter::parsed(content) == Ok::<(Seq<char>, Seq<char>), Seq<char>>(
            ("{}"@, content),
        ),
{
    reveal_strlit("---");
    frontmatter::lemma_feeds_stay(content);
    if text::begins(content, "---"@) {
        let head = content.subrange(0, 3);
        assert(head[0] == content[0] && head[1] == content[1] && head[2] == content[2]);
    }
}

/// A value with a colon in it is put into quotation marks, unless it opens a
/// collection or a text of its own; comments, lines that are set in and
/// other values stay as they are.
pub proof fn lemma_colons_are_quoted(key: Seq<char>, value: Seq<char>)
    requires
        key.len() > 0,
        !text::is_whitespace(key[0]),
        !text::is_whitespace(key.last()),
        key[0] != '#',
        !key.contains(':'),
        value.len() > 0,
        !text::is_whitespace(value[0]),
        !text::is_whitespace(value.last()),
    ensures
        ({
            let line = key + seq![':'] + (seq![' '] + value);
            frontmatter::quoted_line(line) == (if text::holds(value, ": "@)
                && !frontmatter::opens_collection(value[0]) {
                key + ": "@ + json::json_quoted(value)
            } else {
                line
            })
        }),
{
    reveal_strlit(":");
    assert(":"@ =~= seq![':']);
    let raw = seq![' '] + value;
    let line = key + seq![':'] + raw;
    texts::lemma_divided(key, ":"@, raw);
    texts::lemma_trim_takes_space(seq![' '], value, Seq::<char>::empty());
    assert(seq![' '] + value + Seq::<char>::empty() =~= raw);
    assert(line[0] == key[0]);
    assert(line.skip(0) =~= line);
    assert(text::trim_start_of(line) == line);
    assert(key.take(key.len() as int) =~= key);
    assert(text::trim_end_of(key) == key);
}

/// A line that is set in, and a comment, stay as they are.
pub proof fn lemma_other_lines_stay(line: Seq<char>)
    requires
        line.len() > 0,
        text::is_whitespace(line[0]) || line[0] == '#',
    ensures
        frontmatter::quoted_line(line) == line,
{
    if !text::is_whitespace(line[0]) {
        assert(line.skip(0) =~= line);
        assert(text::trim_start_of(line) == line);
    }
}

/// A response to a request that carries an error has failed with its message;
/// otherwise it brings its result. A line for another request, and one that
/// names a method, is no response.
pub proof fn lemma_response_brings_result(line: Seq<char>, id: u64)
    requires
        text::trim_of(line) == line,
        line.len() > 0,
    ensures
        json::get_of(line, "method"@) is Some ==> remote::reply_of(line, id) is Ignored,
        (json::get_of(line, "id"@) matches Some(found) ==> remote::number_in(found) != Some(id))
            ==> remote::reply_of(line, id) is Ignored,
        json::get_of(line, "method"@) is None && (json::get_of(line, "id"@) matches Some(found)
            && remote::number_in(found) == Some(id)) ==> (match json::get_of(line, "error"@) {
            Some(error) => remote::reply_of(line, id) == ReplyModel::Failed(
                json::string_at(error, "message"@).unwrap_or(error),
            ),
            None => match json::get_of(line, "result"@) {
                Some(result) => remote::reply_of(line, id) == ReplyModel::Done(result),
                None => remote::reply_of(line, id) is Done,
            },
        }),
{
}

/// A notice of an event is handed on to its subscription with its event.
pub proof fn lemma_notice_is_handed_on(line: Seq<char>, subscription: u64, params: Seq<char>)
    requires
        text::trim_of(line) == line,
        line.len() > 0,
        json::string_at(line, "method"@) == Some("event"@),
        json::get_of(line, "params"@) == Some(params),
    ensures
        remote::pumped(line, subscription) is Event <==> (json::get_of(
            params,
            "subscriptionId"@,
        ) matches Some(value) && remote::number_in(value) == Some(subscription)),
        remote::pumped(line, subscription) matches PumpedModel::Event(event) ==> event
            == json::get_of(params, "event"@).unwrap_or("null"@),
{
}

/// The bar counts matches from one; without a match it says so, and without a
/// query it says nothing.
pub proof fn lemma_matches_are_counted(m: SearchModel)
    ensures
        m.match_count > 0 ==> search_bar::match_info_of(m) == text::digits_of(m.current_match + 1)
            + seq!['/'] + text::digits_of(m.match_count),
        m.match_count == 0 && m.query.len() == 0 ==> search_bar::match_info_of(m).len() == 0,
        m.match_count == 0 && m.query.len() > 0 ==> search_bar::match_info_of(m)
            == "No matches"@,
{
    reveal_strlit("/");
    assert("/"@ =~= seq!['/']);
}

} // verus!
