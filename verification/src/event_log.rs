//! The event journal: the `events` command, and following the journal.

use vstd::prelude::*;

use crate::package_cli;
use crate::package_cli::{Line, LineModel};
use crate::text;

verus! {

/// What `events` is asked to do.
pub enum EventsCommand {
    Tail,
    Path,
    Help,
    Unknown(String),
}

/// The model of `EventsCommand`.
pub enum EventsModel {
    Tail,
    Path,
    Help,
    Unknown(Seq<char>),
}

impl View for EventsCommand {
    type V = EventsModel;

    open spec fn view(&self) -> EventsModel {
        match self {
            EventsCommand::Tail => EventsModel::Tail,
            EventsCommand::Path => EventsModel::Path,
            EventsCommand::Help => EventsModel::Help,
            EventsCommand::Unknown(other) => EventsModel::Unknown(other@),
        }
    }
}

/// How `events` ends.
#[derive(Debug, Clone, Copy, PartialEq, Eq, Structural)]
pub enum EventsExit {
    Success,
    Runtime,
    Usage,
}

/// What the arguments ask for.
pub open spec fn command_of(args: Seq<Seq<char>>) -> EventsModel {
    if args.len() == 0 || args[0] == "--help"@ || args[0] == "-h"@ {
        EventsModel::Help
    } else if args[0] == "tail"@ {
        EventsModel::Tail
    } else if args[0] == "path"@ {
        EventsModel::Path
    } else {
        EventsModel::Unknown(args[0])
    }
}

/// What the arguments of `events` ask for.
pub fn events_command(args: &[String]) -> (r: EventsCommand)
    ensures
        r@ == command_of(text::texts(args@)),
{
    if args.len() == 0 {
        return EventsCommand::Help;
    }
    let first = args[0].as_str();
    assert(text::texts(args@)[0] == first@);
    if text::same(first, "--help") || text::same(first, "-h") {
        EventsCommand::Help
    } else if text::same(first, "tail") {
        EventsCommand::Tail
    } else if text::same(first, "path") {
        EventsCommand::Path
    } else {
        EventsCommand::Unknown(first.to_owned())
    }
}

/// The help of `events`.
pub open spec fn help_of() -> Seq<LineModel> {
    seq![
        package_cli::said("Usage: rpi events <command>"@),
        package_cli::said(""@),
        package_cli::said("Commands:"@),
        package_cli::said("  path    Print the event log path (JSONL)"@),
        package_cli::said(
            "  tail    Print the log and follow new entries (Ctrl+C to stop)"@,
        ),
        package_cli::said(""@),
        package_cli::said(
            "The journal is written only when RPI_EVENT_LOG=1 is set at run time."@,
        ),
    ]
}

fn push_help(out: &mut Vec<Line>)
    ensures
        package_cli::line_views(final(out)@) == package_cli::line_views(old(out)@) + help_of(),
{
    package_cli::push_line(out, false, "Usage: rpi events <command>".to_owned());
    package_cli::push_line(out, false, "".to_owned());
    package_cli::push_line(out, false, "Commands:".to_owned());
    package_cli::push_line(out, false, "  path    Print the event log path (JSONL)".to_owned());
    package_cli::push_line(
        out,
        false,
        "  tail    Print the log and follow new entries (Ctrl+C to stop)".to_owned(),
    );
    package_cli::push_line(out, false, "".to_owned());
    package_cli::push_line(
        out,
        false,
        "The journal is written only when RPI_EVENT_LOG=1 is set at run time.".to_owned(),
    );
    assert(package_cli::line_views(out@) =~= package_cli::line_views(old(out)@) + help_of());
}

/// What `events` says, how it ends, and whether it follows the journal.
pub struct EventsReply {
    pub lines: Vec<Line>,
    pub exit: EventsExit,
    pub follow: bool,
}

/// The model of `EventsReply`.
#[verifier::ext_equal]
pub struct ReplyModel {
    pub lines: Seq<LineModel>,
    pub exit: EventsExit,
    pub follow: bool,
}

impl View for EventsReply {
    type V = ReplyModel;

    open spec fn view(&self) -> ReplyModel {
        ReplyModel {
            lines: package_cli::line_views(self.lines@),
            exit: self.exit,
            follow: self.follow,
        }
    }
}

/// The reply where the place of the journal is not known.
pub open spec fn no_journal() -> ReplyModel {
    ReplyModel {
        lines: seq![
            package_cli::warned(
                "error: could not resolve the event log path (set RPI_EVENT_LOG_PATH)"@,
            ),
        ],
        exit: EventsExit::Runtime,
        follow: false,
    }
}

/// The reply to a command, with the journal at `path`.
pub open spec fn reply_to(command: EventsModel, path: Option<Seq<char>>) -> ReplyModel {
    match command {
        EventsModel::Help => ReplyModel {
            lines: help_of(),
            exit: EventsExit::Success,
            follow: false,
        },
        EventsModel::Unknown(other) => ReplyModel {
            lines: seq![
                package_cli::warned("error: unknown `events` subcommand `"@ + other + "`"@),
            ] + help_of(),
            exit: EventsExit::Usage,
            follow: false,
        },
        EventsModel::Path => match path {
            Some(p) => ReplyModel {
                lines: seq![package_cli::said(p)],
                exit: EventsExit::Success,
                follow: false,
            },
            None => no_journal(),
        },
        EventsModel::Tail => match path {
            Some(p) => ReplyModel {
                lines: seq![package_cli::warned("tailing "@ + p + " — Ctrl+C to stop"@)],
                exit: EventsExit::Success,
                follow: true,
            },
            None => no_journal(),
        },
    }
}

/// The reply to the arguments of `events`, with the journal at `path`.
pub fn run(args: &[String], path: Option<&str>) -> (r: EventsReply)
    ensures
        r@ == reply_to(command_of(text::texts(args@)), text::opt_str(path)),
{
    let mut lines: Vec<Line> = Vec::new();
    assert(package_cli::line_views(lines@) =~= seq![]);
    let mut exit = EventsExit::Success;
    let mut follow = false;
    match events_command(args) {
        EventsCommand::Help => {
            push_help(&mut lines);
        },
        EventsCommand::Unknown(other) => {
            package_cli::push_line(
                &mut lines,
                true,
                text::cat3("error: unknown `events` subcommand `", other.as_str(), "`"),
            );
            push_help(&mut lines);
            exit = EventsExit::Usage;
        },
        EventsCommand::Path => match path {
            Some(p) => {
                package_cli::push_line(&mut lines, false, p.to_owned());
            },
            None => {
                package_cli::push_line(
                    &mut lines,
                    true,
                    "error: could not resolve the event log path (set RPI_EVENT_LOG_PATH)".to_owned(),
                );
                exit = EventsExit::Runtime;
            },
        },
        EventsCommand::Tail => match path {
            Some(p) => {
                package_cli::push_line(
                    &mut lines,
                    true,
                    text::cat3("tailing ", p, " — Ctrl+C to stop"),
                );
                follow = true;
            },
            None => {
                package_cli::push_line(
                    &mut lines,
                    true,
                    "error: could not resolve the event log path (set RPI_EVENT_LOG_PATH)".to_owned(),
                );
                exit = EventsExit::Runtime;
            },
        },
    }
    let reply = EventsReply { lines, exit, follow };
    assert(reply@ =~= reply_to(command_of(text::texts(args@)), text::opt_str(path)));
    reply
}

/// Where to read a journal of `length` bytes, read up to `offset` before: a
/// journal that became shorter is read from its start. Nothing is read where
/// there is nothing new.
pub open spec fn read_from(offset: u64, length: u64) -> Option<u64> {
    if length < offset {
        if length > 0 {
            Some(0)
        } else {
            None
        }
    } else if length > offset {
        Some(offset)
    } else {
        None
    }
}

/// The offset that is kept where nothing is read.
pub open spec fn kept_offset(offset: u64, length: u64) -> u64 {
    if length < offset {
        0
    } else {
        offset
    }
}

/// What to do about a journal of `length` bytes: the offset that is kept, and
/// whether to read on from there.
pub fn plan_read(offset: u64, length: u64) -> (r: (u64, bool))
    ensures
        r.0 == kept_offset(offset, length),
        r.1 <==> read_from(offset, length) is Some,
        r.1 ==> read_from(offset, length) == Some(r.0),
{
    let start: u64 = if length < offset {
        0
    } else {
        offset
    };
    (start, length > start)
}

/// The complete lines of a chunk.
pub open spec fn complete_lines(chunk: Seq<char>) -> Seq<char> {
    match text::last_index_of(chunk, "\n"@) {
        Some(k) => chunk.take(k + 1),
        None => seq![],
    }
}

/// The complete lines of the chunk that was read at `offset`, and where to
/// read on. A line that is not complete is read again.
pub fn take_lines(offset: u64, chunk: &str) -> (r: (String, u64))
    requires
        offset + text::width_of(chunk@) <= u64::MAX,
    ensures
        r.0@ == complete_lines(chunk@),
        r.1 == offset + text::width_of(complete_lines(chunk@)),
{
    proof {
        reveal_strlit("\n");
    }
    match text::rfind(chunk, "\n") {
        None => {
            let none = String::new();
            assert(none@ =~= seq![]);
            (none, offset)
        },
        Some(k) => {
            let lines = text::take(chunk, k + 1);
            let chars = text::chars_of(lines);
            let mut next: u64 = offset;
            let mut i: usize = 0;
            assert(lines@.take(0) =~= seq![]);
            while i < chars.len()
                invariant
                    i <= chars@.len(),
                    chars@ == lines@,
                    lines@ == chunk@.take(k + 1),
                    k + 1 <= chunk@.len(),
                    offset + text::width_of(chunk@) <= u64::MAX,
                    next == offset + text::width_of(lines@.take(i as int)),
                decreases chars.len() - i,
            {
                assert(lines@.take(i + 1).drop_last() =~= lines@.take(i as int));
                proof {
                    text::lemma_width_grows(chunk@, i + 1, chunk@.len() as int);
                    assert(chunk@.take(i + 1) =~= lines@.take(i + 1));
                    assert(chunk@.take(chunk@.len() as int) =~= chunk@);
                }
                next = next + text::char_width(chars[i]) as u64;
                i += 1;
            }
            assert(lines@.take(i as int) =~= lines@);
            (lines.to_owned(), next)
        },
    }
}

proof fn lemma_complete_lines(chunk: Seq<char>)
    ensures
        complete_lines(chunk).len() <= chunk.len(),
        chunk.take(complete_lines(chunk).len() as int) == complete_lines(chunk),
        complete_lines(chunk).len() > 0 ==> complete_lines(chunk).last() == '\n',
        forall|i: int|
            complete_lines(chunk).len() <= i < chunk.len() ==> #[trigger] chunk[i] != '\n',
{
    reveal_strlit("\n");
    text::lemma_last_index_to(chunk, "\n"@, chunk.len() - 1);
    match text::last_index_of(chunk, "\n"@) {
        Some(k) => {
            assert(chunk.subrange(k, k + 1)[0] == chunk[k]);
            assert(chunk.take(k + 1).last() == '\n');
            assert forall|i: int| k + 1 <= i < chunk.len() implies #[trigger] chunk[i] != '\n' by {
                if chunk[i] == '\n' {
                    assert(chunk.subrange(i, i + 1) =~= "\n"@);
                    assert(text::stands_at(chunk, "\n"@, i));
                }
            }
        },
        None => {
            assert forall|i: int| 0 <= i < chunk.len() implies #[trigger] chunk[i] != '\n' by {
                if chunk[i] == '\n' {
                    assert(chunk.subrange(i, i + 1) =~= "\n"@);
                    assert(text::stands_at(chunk, "\n"@, i));
                }
            }
            assert(chunk.take(0) =~= seq![]);
        },
    }
}

/// No line is printed in part: what is printed of a chunk is nothing, or ends
/// a line.
pub proof fn lemma_no_line_is_split(chunk: Seq<char>)
    ensures
        complete_lines(chunk).len() == 0 || complete_lines(chunk).last() == '\n',
{
    lemma_complete_lines(chunk);
}

/// Nothing is lost or printed twice: with what is left of one chunk read
/// again, two prints make one print of the whole.
pub proof fn lemma_prints_join(chunk: Seq<char>, more: Seq<char>)
    ensures
        complete_lines(chunk) + complete_lines(
            chunk.skip(complete_lines(chunk).len() as int) + more,
        ) == complete_lines(chunk + more),
{
    lemma_complete_lines(chunk);
    let first = complete_lines(chunk);
    let n = first.len() as int;
    let rest = chunk.skip(n) + more;
    let whole = chunk + more;
    assert(whole =~= first + rest);
    lemma_complete_lines(rest);
    lemma_complete_lines(whole);
    let second = complete_lines(rest);
    let all = complete_lines(whole);
    if all.len() > 0 {
        assert(all.last() == whole[all.len() - 1]);
    }
    if first.len() > 0 {
        assert(first.last() == whole[n - 1]);
    }
    if second.len() > 0 {
        assert(second.last() == rest[second.len() - 1]);
        assert(rest[second.len() - 1] == whole[n + second.len() - 1]);
    }
    if all.len() > n {
        assert(whole[all.len() - 1] == rest[all.len() - 1 - n]);
    }
    assert(all.len() == n + second.len());
    assert(first + second =~= whole.take(all.len() as int));
}

} // verus!
