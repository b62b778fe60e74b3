//! Sessions as documents for others: the lines as they are, or a page of
//! HTML.

use vstd::prelude::*;

use crate::json;
use crate::paths;
use crate::paths::{FsPath, PathModel};
use crate::resources;
use crate::text;

verus! {

/// A character as HTML text.
pub open spec fn entity_of(c: char) -> Seq<char> {
    if c == '&' {
        "&amp;"@
    } else if c == '<' {
        "&lt;"@
    } else if c == '>' {
        "&gt;"@
    } else if c == '"' {
        "&quot;"@
    } else if c == '\'' {
        "&#39;"@
    } else {
        seq![c]
    }
}

/// The first `n` characters of `s` as HTML text.
pub open spec fn escaped_to(s: Seq<char>, n: int) -> Seq<char>
    decreases n,
{
    if n <= 0 {
        seq![]
    } else {
        escaped_to(s, n - 1) + entity_of(s[n - 1])
    }
}

/// A text as HTML text.
pub open spec fn escaped(s: Seq<char>) -> Seq<char> {
    escaped_to(s, s.len() as int)
}

/// A text as HTML text.
pub fn escape_html(s: &str) -> (out: String)
    ensures
        out@ == escaped(s@),
{
    let chars = text::chars_of(s);
    let mut out = String::new();
    assert(out@ =~= seq![]);
    let mut i: usize = 0;
    while i < chars.len()
        invariant
            i <= chars@.len(),
            chars@ == s@,
            out@ == escaped_to(s@, i as int),
        decreases chars.len() - i,
    {
        let c = chars[i];
        let ghost before = out@;
        if c == '&' {
            out = text::cat(out.as_str(), "&amp;");
        } else if c == '<' {
            out = text::cat(out.as_str(), "&lt;");
        } else if c == '>' {
            out = text::cat(out.as_str(), "&gt;");
        } else if c == '"' {
            out = text::cat(out.as_str(), "&quot;");
        } else if c == '\'' {
            out = text::cat(out.as_str(), "&#39;");
        } else {
            out.push(c);
            assert(out@ =~= before + seq![c]);
        }
        i += 1;
    }
    out
}

/// What a page shows of a line: the document that it is, with line breaks
/// and indents, else the line.
pub open spec fn shown_line(line: Seq<char>, pretty: Option<Seq<char>>) -> Seq<char> {
    "<pre>"@ + escaped(
        match pretty {
            Some(document) => document,
            None => line,
        },
    ) + "</pre>\n"@
}

/// What a page shows of a line, given the line as a document.
pub fn show_line(line: &str, pretty: Option<String>) -> (out: String)
    ensures
        out@ == shown_line(line@, text::opt_text(pretty)),
{
    let shown = match pretty {
        Some(document) => escape_html(document.as_str()),
        None => escape_html(line),
    };
    text::cat3("<pre>", shown.as_str(), "</pre>\n")
}

/// What a page shows of the first `n` lines: blank ones are left out.
pub open spec fn shown_lines(lines: Seq<Seq<char>>, n: int) -> Seq<char>
    decreases n,
{
    if n <= 0 {
        seq![]
    } else {
        let rest = shown_lines(lines, n - 1);
        if text::trim_of(lines[n - 1]).len() == 0 {
            rest
        } else {
            rest + shown_line(lines[n - 1], json::json_pretty(lines[n - 1]))
        }
    }
}

/// What stands on a page before the lines.
pub const PAGE_HEAD: &'static str = "<!doctype html><html><head><meta charset=\"utf-8\"><title>Pi session</title><style>body{font:14px ui-monospace,monospace;background:#111;color:#eee;padding:24px}pre{white-space:pre-wrap;border-bottom:1px solid #444;padding:12px 0}</style></head><body><h1>Pi session</h1>";

/// What stands on a page behind the lines.
pub const PAGE_TAIL: &'static str = "</body></html>";

/// A session as a page of HTML.
pub open spec fn page_of(source: Seq<char>) -> Seq<char> {
    PAGE_HEAD@ + shown_lines(text::lines_of(source), text::lines_of(source).len() as int)
        + PAGE_TAIL@
}

/// A session as a page of HTML.
pub fn export_page(source: &str) -> (out: String)
    ensures
        out@ == page_of(source@),
{
    let lines = text::lines(source);
    let ghost all = text::lines_of(source@);
    let mut body = String::new();
    assert(body@ =~= seq![]);
    let mut i: usize = 0;
    while i < lines.len()
        invariant
            i <= lines@.len(),
            all == text::strs(lines@),
            body@ == shown_lines(all, i as int),
        decreases lines.len() - i,
    {
        assert(all[i as int] == lines@[i as int]@);
        if text::trim(lines[i]).unicode_len() > 0 {
            let shown = show_line(lines[i], json::pretty_json(lines[i]));
            body = text::cat(body.as_str(), shown.as_str());
        }
        i += 1;
    }
    assert(all.len() == lines@.len());
    text::cat3(PAGE_HEAD, body.as_str(), PAGE_TAIL)
}

/// Whether a file holds the lines of a session as they are.
pub open spec fn is_lines_file(output: PathModel) -> bool {
    match paths::name_of(output) {
        Some(name) => match resources::extension_of(name) {
            Some(extension) => text::lower_of(extension) == text::lower_of("jsonl"@),
            None => false,
        },
        None => false,
    }
}

/// What is written to `output` of a session: a file of lines gets the source
/// as it is, any other a page of HTML.
pub open spec fn exported(source: Seq<char>, output: PathModel) -> Seq<char> {
    if is_lines_file(output) {
        source
    } else {
        page_of(source)
    }
}

/// What is written to `output` of a session.
pub fn export_document(source: &str, output: &FsPath) -> (out: String)
    ensures
        out@ == exported(source@, output@),
{
    let as_lines = match output.file_name() {
        Some(name) => match resources::split_extension(name.as_str()).1 {
            Some(extension) => text::same_ignoring_case(extension.as_str(), "jsonl"),
            None => false,
        },
        None => false,
    };
    if as_lines {
        source.to_owned()
    } else {
        export_page(source)
    }
}

/// What is written to `output`, or why nothing is, given what came of reading
/// the session at `input`.
pub open spec fn export_outcome(
    input: PathModel,
    read: Result<Seq<char>, Seq<char>>,
    output: PathModel,
) -> Result<Seq<char>, Seq<char>> {
    match read {
        Ok(source) => Ok(exported(source, output)),
        Err(error) => Err(
            "could not read session "@ + paths::path_text(input) + ": "@ + error,
        ),
    }
}

/// What to write to `output`, given what came of reading the session at
/// `input`.
pub fn export_file(input: &FsPath, read: Result<String, String>, output: &FsPath) -> (r: Result<
    String,
    String,
>)
    ensures
        (match r {
            Ok(document) => Ok(document@),
            Err(message) => Err(message@),
        }) == export_outcome(
            input@,
            match read {
                Ok(source) => Ok(source@),
                Err(error) => Err(error@),
            },
            output@,
        ),
{
    match read {
        Ok(source) => Ok(export_document(source.as_str(), output)),
        Err(error) => {
            let shown = input.to_text();
            Err(text::cat4("could not read session ", shown.as_str(), ": ", error.as_str()))
        },
    }
}

/// What is said where `output` could not be written.
pub fn write_failure(output: &FsPath, error: &str) -> (out: String)
    ensures
        out@ == "could not write export "@ + paths::path_text(output@) + ": "@ + error@,
{
    let shown = output.to_text();
    text::cat4("could not write export ", shown.as_str(), ": ", error)
}

proof fn lemma_entity_is_plain(c: char, i: int)
    requires
        0 <= i < entity_of(c).len(),
    ensures
        entity_of(c)[i] != '<',
        entity_of(c)[i] != '>',
        entity_of(c)[i] != '"',
        entity_of(c)[i] != '\'',
{
    reveal_strlit("&amp;");
    reveal_strlit("&lt;");
    reveal_strlit("&gt;");
    reveal_strlit("&quot;");
    reveal_strlit("&#39;");
}

/// Nothing in a session ends up as markup: an escaped text holds no angle
/// bracket and no quotation mark.
pub proof fn lemma_escaped_is_plain(s: Seq<char>, n: int, i: int)
    requires
        0 <= n <= s.len(),
        0 <= i < escaped_to(s, n).len(),
    ensures
        escaped_to(s, n)[i] != '<',
        escaped_to(s, n)[i] != '>',
        escaped_to(s, n)[i] != '"',
        escaped_to(s, n)[i] != '\'',
    decreases n,
{
    if n > 0 {
        let rest = escaped_to(s, n - 1);
        if i < rest.len() {
            lemma_escaped_is_plain(s, n - 1, i);
        } else {
            lemma_entity_is_plain(s[n - 1], i - rest.len());
        }
    }
}

/// The character that an entity at the start of `s` stands for, and what
/// follows it.
pub open spec fn unescaped_first(s: Seq<char>) -> (char, Seq<char>) {
    if text::begins(s, "&amp;"@) {
        ('&', s.skip(5))
    } else if text::begins(s, "&lt;"@) {
        ('<', s.skip(4))
    } else if text::begins(s, "&gt;"@) {
        ('>', s.skip(4))
    } else if text::begins(s, "&quot;"@) {
        ('"', s.skip(6))
    } else if text::begins(s, "&#39;"@) {
        ('\'', s.skip(5))
    } else {
        (s[0], s.skip(1))
    }
}

/// Escaping loses nothing: the first entity of an escaped text stands for
/// the character that was escaped first.
pub proof fn lemma_escaping_is_exact(c: char, rest: Seq<char>)
    ensures
        unescaped_first(entity_of(c) + rest) == (c, rest),
{
    reveal_strlit("&amp;");
    reveal_strlit("&lt;");
    reveal_strlit("&gt;");
    reveal_strlit("&quot;");
    reveal_strlit("&#39;");
    let s = entity_of(c) + rest;
    let n = entity_of(c).len() as int;
    assert(s.skip(n) =~= rest);
    assert(s[0] == entity_of(c)[0]);
    if c != '&' && c != '<' && c != '>' && c != '"' && c != '\'' {
        assert(s[0] == c);
        if s.len() >= 4 {
            assert(s.take(4)[0] == c);
        }
        if s.len() >= 5 {
            assert(s.take(5)[0] == c);
        }
        if s.len() >= 6 {
            assert(s.take(6)[0] == c);
        }
    } else {
        assert(s.take(n) =~= entity_of(c));
        assert(s[1] == entity_of(c)[1]);
        if s.len() >= 4 {
            assert(s.take(4)[1] == s[1]);
        }
        if s.len() >= 5 {
            assert(s.take(5)[1] == s[1]);
        }
        if s.len() >= 6 {
            assert(s.take(6)[1] == s[1]);
        }
    }
}

} // verus!
