//! JSON documents, one level at a time.

use vstd::prelude::*;

use crate::text;

verus! {

/// The outermost level of a JSON document. The values inside an array or an
/// object are JSON documents of their own.
pub enum JsonNode {
    Null,
    Bool(bool),
    /// A number, with its value where it is a whole one of 64 bits.
    Number(Option<u64>),
    Text(String),
    Array(Vec<String>),
    Object(Vec<(String, String)>),
}

/// The model of `JsonNode`.
pub enum JsonModel {
    Null,
    Bool(bool),
    Number(Option<u64>),
    Text(Seq<char>),
    Array(Seq<Seq<char>>),
    Object(Seq<(Seq<char>, Seq<char>)>),
}

/// The members of an object as pairs of a name and a document.
pub open spec fn members(v: Seq<(String, String)>) -> Seq<(Seq<char>, Seq<char>)> {
    Seq::new(v.len(), |i: int| (v[i].0@, v[i].1@))
}

impl View for JsonNode {
    type V = JsonModel;

    open spec fn view(&self) -> JsonModel {
        match self {
            JsonNode::Null => JsonModel::Null,
            JsonNode::Bool(b) => JsonModel::Bool(*b),
            JsonNode::Number(n) => JsonModel::Number(*n),
            JsonNode::Text(s) => JsonModel::Text(s@),
            JsonNode::Array(items) => JsonModel::Array(text::texts(items@)),
            JsonNode::Object(fields) => JsonModel::Object(members(fields@)),
        }
    }
}

/// What `serde_json` reads a text as, or the message of its error.
pub uninterp spec fn json_read(s: Seq<char>) -> Result<JsonModel, Seq<char>>;

/// `serde_json::from_str`: the outermost level of the document, its inner
/// values written out again as `Value` displays them.
#[verifier::external_body]
fn read_json(s: &str) -> (r: Result<JsonNode, String>)
    ensures
        (match r {
            Ok(node) => Ok(node@),
            Err(message) => Err(message@),
        }) == json_read(s@),
{
    Ok(match serde_json::from_str::<serde_json::Value>(s).map_err(|error| error.to_string())? {
        serde_json::Value::Null => JsonNode::Null,
        serde_json::Value::Bool(b) => JsonNode::Bool(b),
        serde_json::Value::Number(n) => JsonNode::Number(n.as_u64()),
        serde_json::Value::String(t) => JsonNode::Text(t),
        serde_json::Value::Array(v) => JsonNode::Array(v.iter().map(|i| i.to_string()).collect()),
        serde_json::Value::Object(m) => JsonNode::Object(m.iter().map(|(k, v)| (k.clone(), v.to_string())).collect()),
    })
}

/// What `serde_json` writes a string as.
pub uninterp spec fn json_quoted(s: Seq<char>) -> Seq<char>;

/// `serde_json::Value::to_string` of a string: the string as a JSON
/// document, which is read back as that string.
#[verifier::external_body]
pub(crate) fn quote_json(s: &str) -> (out: String)
    ensures
        out@ == json_quoted(s@),
        string_in(out@) == Some(s@),
{
    serde_json::Value::String(s.to_string()).to_string()
}

/// What `serde_json` writes an object of two strings as.
pub uninterp spec fn json_pair(
    first: Seq<char>,
    a: Seq<char>,
    second: Seq<char>,
    b: Seq<char>,
) -> Seq<char>;

/// `serde_json::to_string_pretty` of an object with two members that are
/// strings: reading it back gives both.
#[verifier::external_body]
pub(crate) fn write_pair(first: &str, a: &str, second: &str, b: &str) -> (out: String)
    requires
        first@ != second@,
    ensures
        out@ == json_pair(first@, a@, second@, b@),
        string_at(out@, first@) == Some(a@),
        string_at(out@, second@) == Some(b@),
{
    let mut fields = serde_json::Map::new();
    fields.insert(first.to_string(), serde_json::Value::String(a.to_string()));
    fields.insert(second.to_string(), serde_json::Value::String(b.to_string()));
    serde_json::to_string_pretty(&serde_json::Value::Object(fields)).unwrap()
}

/// What `serde_json` writes a document as, with line breaks and indents.
pub uninterp spec fn json_pretty(s: Seq<char>) -> Option<Seq<char>>;

/// `serde_json::to_string_pretty` of what `serde_json::from_str` reads: there
/// is a result exactly where the text is a JSON document.
#[verifier::external_body]
pub(crate) fn pretty_json(s: &str) -> (r: Option<String>)
    ensures
        text::opt_text(r) == json_pretty(s@),
        r is Some <==> json_read(s@) is Ok,
{
    let value = serde_json::from_str::<serde_json::Value>(s).ok()?;
    serde_json::to_string_pretty(&value).ok()
}

/// The outermost level of a JSON document.
pub fn node_of(s: &str) -> (r: Result<JsonNode, String>)
    ensures
        (match r {
            Ok(node) => Ok(node@),
            Err(message) => Err(message@),
        }) == json_read(s@),
{
    read_json(s)
}

/// The document behind the first member named `key`, from the `i`th on.
pub open spec fn member_from(
    fields: Seq<(Seq<char>, Seq<char>)>,
    key: Seq<char>,
    i: int,
) -> Option<Seq<char>>
    decreases fields.len() - i,
{
    if i < 0 || i >= fields.len() {
        None
    } else if fields[i].0 == key {
        Some(fields[i].1)
    } else {
        member_from(fields, key, i + 1)
    }
}

/// The document behind the member `key` of an object.
pub open spec fn member_of(node: JsonModel, key: Seq<char>) -> Option<Seq<char>> {
    match node {
        JsonModel::Object(fields) => member_from(fields, key, 0),
        _ => None,
    }
}

/// The document behind the member `key` of an object.
pub fn member(node: &JsonNode, key: &str) -> (r: Option<String>)
    ensures
        text::opt_text(r) == member_of(node@, key@),
{
    match node {
        JsonNode::Object(fields) => {
            let mut i: usize = 0;
            while i < fields.len()
                invariant
                    i <= fields@.len(),
                    node@ == JsonModel::Object(members(fields@)),
                    member_from(members(fields@), key@, 0) == member_from(
                        members(fields@),
                        key@,
                        i as int,
                    ),
                decreases fields.len() - i,
            {
                assert(members(fields@)[i as int] == (fields@[i as int].0@, fields@[i as int].1@));
                if text::same(fields[i].0.as_str(), key) {
                    return Some(fields[i].1.clone());
                }
                i += 1;
            }
            None
        },
        _ => None,
    }
}

/// The document behind the member `key` of the document `s`.
pub open spec fn get_of(s: Seq<char>, key: Seq<char>) -> Option<Seq<char>> {
    match json_read(s) {
        Ok(node) => member_of(node, key),
        Err(_) => None,
    }
}

/// The document behind the member `key` of the document `s`.
pub fn get(s: &str, key: &str) -> (r: Option<String>)
    ensures
        text::opt_text(r) == get_of(s@, key@),
{
    match read_json(s) {
        Ok(node) => member(&node, key),
        Err(_) => None,
    }
}

/// The string that the document `s` is.
pub open spec fn string_in(s: Seq<char>) -> Option<Seq<char>> {
    match json_read(s) {
        Ok(JsonModel::Text(t)) => Some(t),
        _ => None,
    }
}

/// The string that the document `s` is.
pub fn as_string(s: &str) -> (r: Option<String>)
    ensures
        text::opt_text(r) == string_in(s@),
{
    match read_json(s) {
        Ok(JsonNode::Text(t)) => Some(t),
        _ => None,
    }
}

/// The string behind the member `key` of the document `s`.
pub open spec fn string_at(s: Seq<char>, key: Seq<char>) -> Option<Seq<char>> {
    match get_of(s, key) {
        Some(value) => string_in(value),
        None => None,
    }
}

/// The string behind the member `key` of the document `s`.
pub fn get_string(s: &str, key: &str) -> (r: Option<String>)
    ensures
        text::opt_text(r) == string_at(s@, key@),
{
    match get(s, key) {
        Some(value) => as_string(value.as_str()),
        None => None,
    }
}

/// The documents of the array that `s` is, or `s` itself where it is none.
pub open spec fn items_or_self(s: Seq<char>) -> Seq<Seq<char>> {
    match json_read(s) {
        Ok(JsonModel::Array(items)) => items,
        _ => seq![s],
    }
}

/// The documents of the array that `s` is, or `s` itself where it is none.
pub fn items_or_whole(s: &str) -> (out: Vec<String>)
    ensures
        text::texts(out@) == items_or_self(s@),
{
    match read_json(s) {
        Ok(JsonNode::Array(items)) => items,
        _ => {
            let mut out: Vec<String> = Vec::new();
            text::push_text(&mut out, s);
            assert(text::texts(out@) =~= seq![s@]);
            out
        },
    }
}

/// Where a scan for comments stands: in code, in a string, or in a comment.
#[derive(Debug, Clone, Copy, PartialEq, Eq, Structural)]
pub enum Scan {
    Code,
    Quoted,
    Comment,
}

/// `s` from `i` on without the comments that `//` starts outside strings and
/// the end of the line ends.
pub open spec fn uncommented(s: Seq<char>, i: int, scan: Scan) -> Seq<char>
    decreases s.len() - i,
{
    if i < 0 || i >= s.len() {
        seq![]
    } else {
        match scan {
            Scan::Quoted => if s[i] == '\\' && i + 1 < s.len() {
                seq![s[i], s[i + 1]] + uncommented(s, i + 2, Scan::Quoted)
            } else if s[i] == '"' {
                seq![s[i]] + uncommented(s, i + 1, Scan::Code)
            } else {
                seq![s[i]] + uncommented(s, i + 1, Scan::Quoted)
            },
            Scan::Comment => if s[i] == '\n' {
                seq![s[i]] + uncommented(s, i + 1, Scan::Code)
            } else {
                uncommented(s, i + 1, Scan::Comment)
            },
            Scan::Code => if s[i] == '/' && i + 1 < s.len() && s[i + 1] == '/' {
                uncommented(s, i + 2, Scan::Comment)
            } else if s[i] == '"' {
                seq![s[i]] + uncommented(s, i + 1, Scan::Quoted)
            } else {
                seq![s[i]] + uncommented(s, i + 1, Scan::Code)
            },
        }
    }
}

/// `s` without its line comments.
pub fn strip_line_comments(s: &str) -> (out: String)
    ensures
        out@ == uncommented(s@, 0, Scan::Code),
{
    let chars = text::chars_of(s);
    let mut out = String::new();
    let mut scan = Scan::Code;
    let mut i: usize = 0;
    while i < chars.len()
        invariant
            i <= chars@.len(),
            chars@ == s@,
            uncommented(s@, 0, Scan::Code) == out@ + uncommented(s@, i as int, scan),
        decreases chars.len() - i,
    {
        let c = chars[i];
        let ghost before = out@;
        let follows = chars.len() - i > 1;
        match scan {
            Scan::Quoted => {
                out.push(c);
                if c == '\\' && follows {
                    let d = chars[i + 1];
                    out.push(d);
                    assert(before + (seq![c, d] + uncommented(s@, i + 2, Scan::Quoted)) =~= out@
                        + uncommented(s@, i + 2, Scan::Quoted));
                    i += 2;
                } else {
                    if c == '"' {
                        scan = Scan::Code;
                    }
                    assert(before + (seq![c] + uncommented(s@, i + 1, scan)) =~= out@
                        + uncommented(s@, i + 1, scan));
                    i += 1;
                }
            },
            Scan::Comment => {
                if c == '\n' {
                    out.push(c);
                    scan = Scan::Code;
                    assert(before + (seq![c] + uncommented(s@, i + 1, scan)) =~= out@
                        + uncommented(s@, i + 1, scan));
                }
                i += 1;
            },
            Scan::Code => {
                if c == '/' && follows && chars[i + 1] == '/' {
                    scan = Scan::Comment;
                    i += 2;
                } else {
                    out.push(c);
                    if c == '"' {
                        scan = Scan::Quoted;
                    }
                    assert(before + (seq![c] + uncommented(s@, i + 1, scan)) =~= out@
                        + uncommented(s@, i + 1, scan));
                    i += 1;
                }
            },
        }
    }
    assert(out@ + seq![] =~= out@);
    out
}

/// The JSON document that `s` is, if need be without its line comments; else
/// the message of the first error.
pub open spec fn document_of(s: Seq<char>) -> Result<Seq<char>, Seq<char>> {
    match json_read(s) {
        Ok(_) => Ok(s),
        Err(first) => {
            let stripped = uncommented(s, 0, Scan::Code);
            match json_read(stripped) {
                Ok(_) => Ok(stripped),
                Err(_) => Err(first),
            }
        },
    }
}

/// The JSON document that `s` is, if need be without its line comments; else
/// the message of the first error.
pub fn parse_json_with_comments(s: &str) -> (r: Result<String, String>)
    ensures
        (match r {
            Ok(document) => Ok(document@),
            Err(message) => Err(message@),
        }) == document_of(s@),
{
    match read_json(s) {
        Ok(_) => Ok(s.to_owned()),
        Err(first) => {
            let stripped = strip_line_comments(s);
            match read_json(stripped.as_str()) {
                Ok(_) => Ok(stripped),
                Err(_) => Err(first),
            }
        },
    }
}

/// The strings among the first `n` of the documents `items`.
pub open spec fn strings_among(items: Seq<Seq<char>>, n: int) -> Seq<Seq<char>>
    decreases n,
{
    if n <= 0 {
        seq![]
    } else {
        match string_in(items[n - 1]) {
            Some(t) => strings_among(items, n - 1).push(t),
            None => strings_among(items, n - 1),
        }
    }
}

/// The string that a document is, or the strings of its array.
pub open spec fn strings_in(s: Seq<char>) -> Seq<Seq<char>> {
    match json_read(s) {
        Ok(JsonModel::Text(t)) => seq![t],
        Ok(JsonModel::Array(items)) => strings_among(items, items.len() as int),
        _ => seq![],
    }
}

/// The string that a document is, or the strings of its array.
pub fn string_values(s: &str) -> (out: Vec<String>)
    ensures
        text::texts(out@) == strings_in(s@),
{
    let mut out: Vec<String> = Vec::new();
    match read_json(s) {
        Ok(JsonNode::Text(t)) => {
            text::push_text(&mut out, t.as_str());
            assert(text::texts(out@) =~= seq![t@]);
        },
        Ok(JsonNode::Array(items)) => {
            let mut i: usize = 0;
            assert(text::texts(out@) =~= seq![]);
            while i < items.len()
                invariant
                    i <= items@.len(),
                    text::texts(out@) == strings_among(text::texts(items@), i as int),
                decreases items.len() - i,
            {
                assert(text::texts(items@)[i as int] == items@[i as int]@);
                match as_string(items[i].as_str()) {
                    Some(t) => {
                        text::push_text(&mut out, t.as_str());
                    },
                    None => {},
                }
                i += 1;
            }
        },
        _ => {
            assert(text::texts(out@) =~= seq![]);
        },
    }
    out
}

} // verus!
