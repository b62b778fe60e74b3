//! Documents with YAML frontmatter between two fences of dashes.

use vstd::prelude::*;

use crate::json;
use crate::text;

verus! {

/// What `yaml_serde` reads a text as, written as a JSON document, or the
/// message of its error.
pub uninterp spec fn yaml_read(s: Seq<char>) -> Result<Seq<char>, Seq<char>>;

/// The view of a text or of a message.
pub open spec fn text_result(r: Result<String, String>) -> Result<Seq<char>, Seq<char>> {
    match r {
        Ok(s) => Ok(s@),
        Err(message) => Err(message@),
    }
}

/// `yaml_serde::from_str` into a JSON value, written out as `Value` displays
/// it.
#[verifier::external_body]
fn read_yaml(s: &str) -> (r: Result<String, String>)
    ensures
        text_result(r) == yaml_read(s@),
{
    match yaml_serde::from_str::<serde_json::Value>(s) {
        Ok(value) => Ok(value.to_string()),
        Err(error) => Err(error.to_string()),
    }
}

/// A text with every line end as a line feed.
pub open spec fn normalized(s: Seq<char>) -> Seq<char> {
    text::replaced(text::replaced(s, "\r\n"@, "\n"@), "\r"@, "\n"@)
}

/// The YAML and the body of a document with frontmatter. The character
/// behind the first fence is skipped, where it is a single byte.
pub open spec fn fenced(s: Seq<char>) -> Option<(Seq<char>, Seq<char>)> {
    if !text::begins(s, "---"@) {
        None
    } else {
        match text::index_of(s.skip(3), "\n---"@) {
            None => None,
            Some(k) => Some(
                (
                    if k >= 1 && text::char_width(s[3]) == 1 {
                        s.subrange(4, k + 3)
                    } else {
                        seq![]
                    },
                    text::trim_of(s.skip(k + 7)),
                ),
            ),
        }
    }
}

/// The view of a pair of texts, where there is one.
pub open spec fn pair_view(o: Option<(String, String)>) -> Option<(Seq<char>, Seq<char>)> {
    match o {
        Some(p) => Some((p.0@, p.1@)),
        None => None,
    }
}

/// The YAML and the body of a document with frontmatter and line feeds.
pub fn split_fences(s: &str) -> (r: Option<(String, String)>)
    ensures
        pair_view(r) == fenced(s@),
{
    proof {
        reveal_strlit("---");
        reveal_strlit("\n---");
    }
    if !text::starts_with(s, "---") {
        return None;
    }
    let rest = text::skip(s, 3);
    proof {
        text::lemma_index_from(rest@, "\n---"@, 0);
    }
    match text::find(rest, "\n---") {
        None => None,
        Some(k) => {
            let body = text::trim(text::skip(rest, k + 4)).to_owned();
            assert(rest@.skip(k + 4) =~= s@.skip(k + 7));
            let yaml = if k >= 1 && text::char_width(rest.get_char(0)) == 1 {
                assert(rest@.subrange(1, k as int) =~= s@.subrange(4, k + 3));
                text::slice(rest, 1, k).to_owned()
            } else {
                let none = String::new();
                assert(none@ =~= seq![]);
                none
            };
            Some((yaml, body))
        },
    }
}

/// Whether a value starts like a collection or a quoted text.
#[verifier::allow_in_spec]
pub fn opens_collection(c: char) -> bool
    returns
        (c == '"' || c == '\'' || c == '[' || c == '{' || c == '|' || c == '>'),
{
    c == '"' || c == '\'' || c == '[' || c == '{' || c == '|' || c == '>'
}

/// A line of YAML with its value quoted, where the value is a plain text
/// with a colon and a space in it and the line stands at the margin.
pub open spec fn quoted_line(line: Seq<char>) -> Seq<char> {
    if line.len() > 0 && text::is_whitespace(line[0]) {
        line
    } else if text::first_is(text::trim_start_of(line), '#') {
        line
    } else {
        match text::cut(line, ":"@) {
            None => line,
            Some((key, raw)) => {
                let value = text::trim_of(raw);
                if text::holds(value, ": "@) && !(value.len() > 0 && opens_collection(value[0])) {
                    text::trim_end_of(key) + ": "@ + json::json_quoted(value)
                } else {
                    line
                }
            },
        }
    }
}

/// A line of YAML with its value quoted, where it needs to be.
pub fn quote_legacy_line(line: &str) -> (out: String)
    ensures
        out@ == quoted_line(line@),
{
    if line.unicode_len() > 0 && text::is_whitespace(line.get_char(0)) {
        return line.to_owned();
    }
    if text::starts_with_char(text::trim_start(line), '#') {
        return line.to_owned();
    }
    proof {
        reveal_strlit(":");
    }
    match text::split_once(line, ":") {
        None => line.to_owned(),
        Some((key, raw)) => {
            let value = text::trim(raw);
            let collection = value.unicode_len() > 0 && opens_collection(value.get_char(0));
            if text::contains(value, ": ") && !collection {
                let quoted = json::quote_json(value);
                text::cat3(text::trim_end(key), ": ", quoted.as_str())
            } else {
                line.to_owned()
            }
        },
    }
}

/// The lines of a text, each with its value quoted where it needs to be.
pub open spec fn quoted_lines(lines: Seq<Seq<char>>) -> Seq<Seq<char>> {
    Seq::new(lines.len(), |i: int| quoted_line(lines[i]))
}

/// YAML with the values at the margin quoted, where they need to be.
pub open spec fn quoted_yaml(s: Seq<char>) -> Seq<char> {
    text::joined(quoted_lines(text::lines_of(s)), "\n"@)
}

/// YAML with the values at the margin quoted, where they need to be.
pub fn quote_legacy_top_level_scalars(s: &str) -> (out: String)
    ensures
        out@ == quoted_yaml(s@),
{
    let lines = text::lines(s);
    let ghost all = quoted_lines(text::lines_of(s@));
    let mut quoted: Vec<String> = Vec::new();
    let mut i: usize = 0;
    while i < lines.len()
        invariant
            i <= lines@.len(),
            text::strs(lines@) == text::lines_of(s@),
            all == quoted_lines(text::lines_of(s@)),
            text::texts(quoted@) =~= all.take(i as int),
        decreases lines.len() - i,
    {
        assert(text::strs(lines@)[i as int] == lines@[i as int]@);
        let line = quote_legacy_line(lines[i]);
        let ghost before = text::texts(quoted@);
        let ghost added = line@;
        quoted.push(line);
        assert(text::texts(quoted@) =~= before.push(added));
        i += 1;
    }
    assert(text::strs(lines@).len() == lines@.len());
    assert(all.take(i as int) =~= all);
    text::join(&quoted, "\n")
}

/// What two attempts at a YAML text come to: the second counts where the
/// first failed, but its error does not.
pub open spec fn settled(
    first: Result<Seq<char>, Seq<char>>,
    second: Option<Result<Seq<char>, Seq<char>>>,
) -> Result<Seq<char>, Seq<char>> {
    match (first, second) {
        (Err(_), Some(Ok(document))) => Ok(document),
        _ => first,
    }
}

/// What two attempts at a YAML text come to.
pub fn settle(first: Result<String, String>, second: Option<Result<String, String>>) -> (r: Result<
    String,
    String,
>)
    ensures
        text_result(r) == settled(
            text_result(first),
            match second {
                Some(s) => Some(text_result(s)),
                None => None,
            },
        ),
{
    match first {
        Ok(document) => Ok(document),
        Err(error) => match second {
            Some(Ok(document)) => Ok(document),
            _ => Err(error),
        },
    }
}

/// The JSON document that a YAML text is: an empty object where it is blank.
/// Where it cannot be read, it is tried again with its values quoted.
pub open spec fn yaml_document(s: Seq<char>) -> Result<Seq<char>, Seq<char>> {
    if text::trim_of(s).len() == 0 {
        Ok("{}"@)
    } else {
        settled(
            yaml_read(s),
            if quoted_yaml(s) == s {
                None
            } else {
                Some(yaml_read(quoted_yaml(s)))
            },
        )
    }
}

/// The JSON document that a YAML text is.
pub fn parse_yaml(s: &str) -> (r: Result<String, String>)
    ensures
        text_result(r) == yaml_document(s@),
{
    if text::trim(s).unicode_len() == 0 {
        return Ok("{}".to_owned());
    }
    let first = read_yaml(s);
    if first.is_ok() {
        return first;
    }
    let compatible = quote_legacy_top_level_scalars(s);
    let second = if text::same(compatible.as_str(), s) {
        None
    } else {
        Some(read_yaml(compatible.as_str()))
    };
    settle(first, second)
}

/// The frontmatter of a document, as a JSON document, and its body; or what
/// is wrong with the frontmatter.
pub open spec fn parsed(content: Seq<char>) -> Result<(Seq<char>, Seq<char>), Seq<char>> {
    match fenced(normalized(content)) {
        None => Ok(("{}"@, normalized(content))),
        Some((yaml, body)) => match yaml_document(yaml) {
            Ok(document) => Ok((document, body)),
            Err(message) => Err(message),
        },
    }
}

/// The view of a document's frontmatter and body.
pub open spec fn parsed_view(r: Result<(String, String), String>) -> Result<
    (Seq<char>, Seq<char>),
    Seq<char>,
> {
    match r {
        Ok(p) => Ok((p.0@, p.1@)),
        Err(message) => Err(message@),
    }
}

/// The frontmatter of a document, as a JSON document, and its body. Without
/// both fences there is no frontmatter, and the body is the whole document.
pub fn parse_frontmatter(content: &str) -> (r: Result<(String, String), String>)
    ensures
        parsed_view(r) == parsed(content@),
{
    proof {
        reveal_strlit("\r\n");
        reveal_strlit("\r");
    }
    let feeds = text::replace(content, "\r\n", "\n");
    let whole = text::replace(feeds.as_str(), "\r", "\n");
    match split_fences(whole.as_str()) {
        None => Ok(("{}".to_owned(), whole)),
        Some((yaml, body)) => match parse_yaml(yaml.as_str()) {
            Ok(document) => Ok((document, body)),
            Err(message) => Err(message),
        },
    }
}

proof fn lemma_nothing_to_replace(s: Seq<char>, from: Seq<char>, to: Seq<char>)
    requires
        from.len() > 0,
        forall|i: int| !#[trigger] text::stands_at(s, from, i),
    ensures
        text::replaced(s, from, to) == s,
{
    text::lemma_index_from(s, from, 0);
}

/// A document without carriage returns is its own normal form.
pub proof fn lemma_feeds_stay(s: Seq<char>)
    requires
        !s.contains('\r'),
    ensures
        normalized(s) == s,
{
    reveal_strlit("\r\n");
    reveal_strlit("\r");
    assert forall|i: int| !#[trigger] text::stands_at(s, "\r\n"@, i) by {
        if text::stands_at(s, "\r\n"@, i) {
            assert(s.subrange(i, i + 2)[0] == s[i]);
            assert(s[i] == '\r');
        }
    }
    assert forall|i: int| !#[trigger] text::stands_at(s, "\r"@, i) by {
        if text::stands_at(s, "\r"@, i) {
            assert(s.subrange(i, i + 1)[0] == s[i]);
            assert(s[i] == '\r');
        }
    }
    lemma_nothing_to_replace(s, "\r\n"@, "\n"@);
    lemma_nothing_to_replace(s, "\r"@, "\n"@);
}

/// The closing fence of a document stands behind its frontmatter.
proof fn lemma_closing_fence(yaml: Seq<char>, body: Seq<char>)
    requires
        !text::holds("\n"@ + yaml + "\n--"@, "\n---"@),
    ensures
        text::index_of(("---\n"@ + yaml + "\n---\n"@ + body).skip(3), "\n---"@) == Some(
            yaml.len() as int + 1,
        ),
{
    reveal_strlit("---\n");
    reveal_strlit("\n---");
    reveal_strlit("\n---\n");
    reveal_strlit("\n");
    reveal_strlit("\n--");
    let rest = ("---\n"@ + yaml + "\n---\n"@ + body).skip(3);
    let inner = "\n"@ + yaml + "\n--"@;
    let k = yaml.len() as int + 1;
    text::lemma_index_from(inner, "\n---"@, 0);
    text::lemma_index_from(rest, "\n---"@, 0);
    assert(rest.subrange(k, k + 4) =~= "\n---"@);
    assert(text::stands_at(rest, "\n---"@, k));
    assert forall|j: int| 0 <= j < k implies !#[trigger] text::stands_at(rest, "\n---"@, j) by {
        if text::stands_at(rest, "\n---"@, j) {
            assert(j + 4 <= inner.len());
            assert(rest.subrange(j, j + 4) =~= inner.subrange(j, j + 4));
            assert(text::stands_at(inner, "\n---"@, j));
        }
    }
}

/// A line feed before a trimmed text is trimmed off.
proof fn lemma_feed_is_trimmed(body: Seq<char>)
    requires
        text::trim_of(body) == body,
    ensures
        text::trim_of("\n"@ + body) == body,
{
    reveal_strlit("\n");
    let behind = "\n"@ + body;
    let (a, b) = text::lemma_trim_core(body);
    assert(body.subrange(a, b) == body);
    assert(a == 0 && b == body.len());
    assert(text::is_whitespace('\n'));
    if body.len() > 0 {
        assert(behind[1] == body[0]);
        assert(behind[body.len() as int] == body[body.len() - 1]);
    }
    text::lemma_trim_is(behind, 1, behind.len() as int);
    assert(behind.subrange(1, behind.len() as int) =~= body);
}

/// A document that is put together from frontmatter and body comes apart
/// into the two.
pub proof fn lemma_frontmatter_reads_back(yaml: Seq<char>, body: Seq<char>)
    requires
        !yaml.contains('\r'),
        !body.contains('\r'),
        !text::holds("\n"@ + yaml + "\n--"@, "\n---"@),
        text::trim_of(body) == body,
    ensures
        parsed("---\n"@ + yaml + "\n---\n"@ + body) == (match yaml_document(yaml) {
            Ok(document) => Ok((document, body)),
            Err(message) => Err(message),
        }),
{
    let s = "---\n"@ + yaml + "\n---\n"@ + body;
    let n = yaml.len() as int;
    lemma_closing_fence(yaml, body);
    lemma_feed_is_trimmed(body);
    reveal_strlit("---");
    reveal_strlit("---\n");
    reveal_strlit("\n---\n");
    reveal_strlit("\n");
    assert(!s.contains('\r')) by {
        if s.contains('\r') {
            let i = choose|i: int| 0 <= i < s.len() && s[i] == '\r';
            if 4 <= i < 4 + n {
                assert(yaml[i - 4] == '\r');
            } else if i >= n + 9 {
                assert(body[i - n - 9] == '\r');
            }
        }
    }
    lemma_feeds_stay(s);
    assert(s.take(3) =~= "---"@);
    assert(s.subrange(4, n + 4) =~= yaml);
    assert(s.skip(n + 8) =~= "\n"@ + body);
}

} // verus!
