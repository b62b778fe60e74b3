//! Themes of the terminal interface, read from JSON documents.
//!
//! A theme document changes colours and styles of the default theme; what it
//! does not name stays as it is there.

use vstd::prelude::*;

use crate::json;
use crate::json::{JsonModel, JsonNode};
use crate::packages;
use crate::packages::{PackageResources, ResourcesModel};
use crate::paths;
use crate::paths::{EntryModel, FsPath, FsTree, PathModel};
use crate::text;

verus! {

/// A colour.
#[derive(Debug, Clone, Copy, PartialEq, Eq, Structural)]
pub enum Color {
    Rgb(u8, u8, u8),
    Ansi256(u8),
}

/// How borders are drawn.
#[derive(Debug, Clone, Copy, PartialEq, Eq, Structural)]
pub enum BorderStyle {
    Rounded,
    Sharp,
    Double,
    Thick,
    Borderless,
}

/// How corners are drawn.
#[derive(Debug, Clone, Copy, PartialEq, Eq, Structural)]
pub enum CornerStyle {
    Rounded,
    Sharp,
}

/// A colour of the theme that a document changes.
#[derive(Debug, Clone, Copy)]
pub struct ThemeColor {
    pub field: &'static str,
    pub color: Color,
}

/// What a theme document changes.
pub struct Theme {
    pub colors: Vec<ThemeColor>,
    pub border_style: Option<BorderStyle>,
    pub corner_style: Option<CornerStyle>,
}

/// The model of `Theme`.
#[verifier::ext_equal]
pub struct ThemeModel {
    pub colors: Seq<(Seq<char>, Color)>,
    pub border_style: Option<BorderStyle>,
    pub corner_style: Option<CornerStyle>,
}

/// The views of a list of colours.
pub open spec fn color_views(v: Seq<ThemeColor>) -> Seq<(Seq<char>, Color)> {
    Seq::new(v.len(), |i: int| (v[i].field@, v[i].color))
}

impl View for Theme {
    type V = ThemeModel;

    open spec fn view(&self) -> ThemeModel {
        ThemeModel {
            colors: color_views(self.colors@),
            border_style: self.border_style,
            corner_style: self.corner_style,
        }
    }
}

/// How many colours a theme has.
pub const COLOR_COUNT: usize = 37;

/// The `i`th colour of a theme: its field, the key by which documents name
/// it, and another key.
pub open spec fn slot_of(i: int) -> (Seq<char>, Seq<char>, Option<Seq<char>>) {
    if i == 0 {
        ("text"@, "text"@, None)
    } else if i == 1 {
        ("muted"@, "muted"@, None)
    } else if i == 2 {
        ("dim"@, "dim"@, None)
    } else if i == 3 {
        ("accent"@, "accent"@, None)
    } else if i == 4 {
        ("error"@, "error"@, None)
    } else if i == 5 {
        ("success"@, "success"@, None)
    } else if i == 6 {
        ("warning"@, "warning"@, None)
    } else if i == 7 {
        ("info"@, "info"@, None)
    } else if i == 8 {
        ("background"@, "background"@, Some("bg"@))
    } else if i == 9 {
        ("surface"@, "surface"@, Some("userMessageBg"@))
    } else if i == 10 {
        ("border"@, "border"@, None)
    } else if i == 11 {
        ("border_accent"@, "borderAccent"@, None)
    } else if i == 12 {
        ("border_muted"@, "borderMuted"@, None)
    } else if i == 13 {
        ("selection"@, "selection"@, Some("selectedBg"@))
    } else if i == 14 {
        ("cursor"@, "cursor"@, None)
    } else if i == 15 {
        ("thinking_text"@, "thinkingText"@, None)
    } else if i == 16 {
        ("md_heading"@, "mdHeading"@, None)
    } else if i == 17 {
        ("md_link"@, "mdLink"@, None)
    } else if i == 18 {
        ("md_link_url"@, "mdLinkUrl"@, None)
    } else if i == 19 {
        ("md_code"@, "mdCode"@, None)
    } else if i == 20 {
        ("md_code_bg"@, "mdCodeBg"@, None)
    } else if i == 21 {
        ("md_code_block"@, "mdCodeBlock"@, None)
    } else if i == 22 {
        ("md_code_block_bg"@, "mdCodeBlockBg"@, None)
    } else if i == 23 {
        ("md_code_block_border"@, "mdCodeBlockBorder"@, None)
    } else if i == 24 {
        ("md_quote"@, "mdQuote"@, None)
    } else if i == 25 {
        ("md_quote_border"@, "mdQuoteBorder"@, None)
    } else if i == 26 {
        ("md_hr"@, "mdHr"@, None)
    } else if i == 27 {
        ("md_list_bullet"@, "mdListBullet"@, None)
    } else if i == 28 {
        ("tool_pending_bg"@, "toolPendingBg"@, None)
    } else if i == 29 {
        ("tool_success_bg"@, "toolSuccessBg"@, None)
    } else if i == 30 {
        ("tool_error_bg"@, "toolErrorBg"@, None)
    } else if i == 31 {
        ("tool_title"@, "toolTitle"@, None)
    } else if i == 32 {
        ("tool_output"@, "toolOutput"@, None)
    } else if i == 33 {
        ("bash_mode"@, "bashMode"@, None)
    } else if i == 34 {
        ("tool_diff_added"@, "toolDiffAdded"@, None)
    } else if i == 35 {
        ("tool_diff_removed"@, "toolDiffRemoved"@, None)
    } else {
        ("tool_diff_context"@, "toolDiffContext"@, None)
    }
}

/// The `i`th colour of a theme: its field, the key by which documents name
/// it, and another key.
pub fn color_slot(i: usize) -> (r: (&'static str, &'static str, Option<&'static str>))
    requires
        i < COLOR_COUNT,
    ensures
        (r.0@, r.1@, text::opt_str(r.2)) == slot_of(i as int),
{
    if i == 0 {
        ("text", "text", None)
    } else if i == 1 {
        ("muted", "muted", None)
    } else if i == 2 {
        ("dim", "dim", None)
    } else if i == 3 {
        ("accent", "accent", None)
    } else if i == 4 {
        ("error", "error", None)
    } else if i == 5 {
        ("success", "success", None)
    } else if i == 6 {
        ("warning", "warning", None)
    } else if i == 7 {
        ("info", "info", None)
    } else if i == 8 {
        ("background", "background", Some("bg"))
    } else if i == 9 {
        ("surface", "surface", Some("userMessageBg"))
    } else if i == 10 {
        ("border", "border", None)
    } else if i == 11 {
        ("border_accent", "borderAccent", None)
    } else if i == 12 {
        ("border_muted", "borderMuted", None)
    } else if i == 13 {
        ("selection", "selection", Some("selectedBg"))
    } else if i == 14 {
        ("cursor", "cursor", None)
    } else if i == 15 {
        ("thinking_text", "thinkingText", None)
    } else if i == 16 {
        ("md_heading", "mdHeading", None)
    } else if i == 17 {
        ("md_link", "mdLink", None)
    } else if i == 18 {
        ("md_link_url", "mdLinkUrl", None)
    } else if i == 19 {
        ("md_code", "mdCode", None)
    } else if i == 20 {
        ("md_code_bg", "mdCodeBg", None)
    } else if i == 21 {
        ("md_code_block", "mdCodeBlock", None)
    } else if i == 22 {
        ("md_code_block_bg", "mdCodeBlockBg", None)
    } else if i == 23 {
        ("md_code_block_border", "mdCodeBlockBorder", None)
    } else if i == 24 {
        ("md_quote", "mdQuote", None)
    } else if i == 25 {
        ("md_quote_border", "mdQuoteBorder", None)
    } else if i == 26 {
        ("md_hr", "mdHr", None)
    } else if i == 27 {
        ("md_list_bullet", "mdListBullet", None)
    } else if i == 28 {
        ("tool_pending_bg", "toolPendingBg", None)
    } else if i == 29 {
        ("tool_success_bg", "toolSuccessBg", None)
    } else if i == 30 {
        ("tool_error_bg", "toolErrorBg", None)
    } else if i == 31 {
        ("tool_title", "toolTitle", None)
    } else if i == 32 {
        ("tool_output", "toolOutput", None)
    } else if i == 33 {
        ("bash_mode", "bashMode", None)
    } else if i == 34 {
        ("tool_diff_added", "toolDiffAdded", None)
    } else if i == 35 {
        ("tool_diff_removed", "toolDiffRemoved", None)
    } else {
        ("tool_diff_context", "toolDiffContext", None)
    }
}

/// The value of two digits in base sixteen. A plus sign may stand for the
/// first.
pub open spec fn hex_pair(a: char, b: char) -> Option<u8> {
    if a == '+' {
        match text::hex_value(b) {
            Some(low) => Some(low as u8),
            None => None,
        }
    } else {
        match (text::hex_value(a), text::hex_value(b)) {
            (Some(high), Some(low)) => Some((high * 16 + low) as u8),
            _ => None,
        }
    }
}

/// The colour that a string names: a number sign and six digits in base
/// sixteen, with space round them.
pub open spec fn hex_color(raw: Seq<char>) -> Option<Color> {
    match text::after_prefix(text::trim_of(raw), "#"@) {
        Some(h) => if h.len() == 6 {
            match (hex_pair(h[0], h[1]), hex_pair(h[2], h[3]), hex_pair(h[4], h[5])) {
                (Some(r), Some(g), Some(b)) => Some(Color::Rgb(r, g, b)),
                _ => None,
            }
        } else {
            None
        },
        None => None,
    }
}

fn parse_hex_pair(a: char, b: char) -> (r: Option<u8>)
    ensures
        r == hex_pair(a, b),
{
    if a == '+' {
        match text::hex_value(b) {
            Some(low) => Some(low as u8),
            None => None,
        }
    } else {
        match text::hex_value(a) {
            Some(high) => match text::hex_value(b) {
                Some(low) => Some((high * 16 + low) as u8),
                None => None,
            },
            None => None,
        }
    }
}

/// The colour that a string names.
pub fn parse_hex_color(raw: &str) -> (r: Option<Color>)
    ensures
        r == hex_color(raw@),
{
    match text::strip_prefix(text::trim(raw), "#") {
        Some(hex) => {
            let chars = text::chars_of(hex);
            if chars.len() != 6 {
                return None;
            }
            match parse_hex_pair(chars[0], chars[1]) {
                Some(r) => match parse_hex_pair(chars[2], chars[3]) {
                    Some(g) => match parse_hex_pair(chars[4], chars[5]) {
                        Some(b) => Some(Color::Rgb(r, g, b)),
                        None => None,
                    },
                    None => None,
                },
                None => None,
            }
        },
        None => None,
    }
}

/// The number of the document `s`, where it is one of eight bits.
pub open spec fn byte_in(s: Seq<char>) -> Option<u8> {
    match json::json_read(s) {
        Ok(JsonModel::Number(Some(n))) => if n <= 255 {
            Some(n as u8)
        } else {
            None
        },
        _ => None,
    }
}

fn parse_byte(s: &str) -> (r: Option<u8>)
    ensures
        r == byte_in(s@),
{
    match json::node_of(s) {
        Ok(JsonNode::Number(Some(n))) => if n <= 255 {
            Some(n as u8)
        } else {
            None
        },
        _ => None,
    }
}

/// The colour of three documents.
pub open spec fn rgb_of(r: Seq<char>, g: Seq<char>, b: Seq<char>) -> Option<Color> {
    match (byte_in(r), byte_in(g), byte_in(b)) {
        (Some(r), Some(g), Some(b)) => Some(Color::Rgb(r, g, b)),
        _ => None,
    }
}

fn parse_rgb(r: &str, g: &str, b: &str) -> (out: Option<Color>)
    ensures
        out == rgb_of(r@, g@, b@),
{
    match parse_byte(r) {
        Some(r) => match parse_byte(g) {
            Some(g) => match parse_byte(b) {
                Some(b) => Some(Color::Rgb(r, g, b)),
                None => None,
            },
            None => None,
        },
        None => None,
    }
}

/// The colour that a JSON value is: a string of digits in base sixteen, a
/// list of three numbers, or an object with `r`, `g` and `b`.
pub open spec fn color_of(node: JsonModel) -> Option<Color> {
    match node {
        JsonModel::Text(raw) => hex_color(raw),
        JsonModel::Array(items) => if items.len() == 3 {
            rgb_of(items[0], items[1], items[2])
        } else {
            None
        },
        JsonModel::Object(_) => match (
            json::member_of(node, "r"@),
            json::member_of(node, "g"@),
            json::member_of(node, "b"@),
        ) {
            (Some(r), Some(g), Some(b)) => rgb_of(r, g, b),
            _ => None,
        },
        _ => None,
    }
}

/// The colour that a JSON value is.
pub fn parse_color(node: &JsonNode) -> (r: Option<Color>)
    ensures
        r == color_of(node@),
{
    match node {
        JsonNode::Text(raw) => parse_hex_color(raw.as_str()),
        JsonNode::Array(items) => {
            assert(text::texts(items@).len() == items@.len());
            if items.len() == 3 {
                parse_rgb(items[0].as_str(), items[1].as_str(), items[2].as_str())
            } else {
                None
            }
        },
        JsonNode::Object(_) => match json::member(node, "r") {
            Some(r) => match json::member(node, "g") {
                Some(g) => match json::member(node, "b") {
                    Some(b) => parse_rgb(r.as_str(), g.as_str(), b.as_str()),
                    None => None,
                },
                None => None,
            },
            None => None,
        },
        _ => None,
    }
}

/// The document behind the first of two keys that the document `s` has.
pub open spec fn first_of(s: Seq<char>, key: Seq<char>, other: Option<Seq<char>>) -> Option<
    Seq<char>,
> {
    match json::get_of(s, key) {
        Some(value) => Some(value),
        None => match other {
            Some(alias) => json::get_of(s, alias),
            None => None,
        },
    }
}

/// The document behind the first of two keys that the document `s` has.
pub fn first_value(s: &str, key: &str, other: Option<&str>) -> (r: Option<String>)
    ensures
        text::opt_text(r) == first_of(s@, key@, text::opt_str(other)),
{
    match json::get(s, key) {
        Some(value) => Some(value),
        None => match other {
            Some(alias) => json::get(s, alias),
            None => None,
        },
    }
}

/// The colour that the document `s` gives to the `i`th colour of the theme.
pub open spec fn override_of(s: Seq<char>, i: int) -> Option<Color> {
    match first_of(s, slot_of(i).1, slot_of(i).2) {
        Some(value) => match json::json_read(value) {
            Ok(node) => color_of(node),
            Err(_) => None,
        },
        None => None,
    }
}

/// What the document `s` changes of the first `n` colours.
pub open spec fn overrides_among(s: Seq<char>, n: int) -> Seq<(Seq<char>, Color)>
    decreases n,
{
    if n <= 0 {
        seq![]
    } else {
        match override_of(s, n - 1) {
            Some(color) => overrides_among(s, n - 1).push((slot_of(n - 1).0, color)),
            None => overrides_among(s, n - 1),
        }
    }
}

/// The border style that goes by a name, in any case.
pub open spec fn border_of(name: Seq<char>) -> BorderStyle {
    let lower = text::lower_of(name);
    if lower == "sharp"@ {
        BorderStyle::Sharp
    } else if lower == "double"@ {
        BorderStyle::Double
    } else if lower == "thick"@ {
        BorderStyle::Thick
    } else if lower == "none"@ {
        BorderStyle::Borderless
    } else {
        BorderStyle::Rounded
    }
}

/// The border style that goes by a name, in any case.
pub fn border_style(name: &str) -> (r: BorderStyle)
    ensures
        r == border_of(name@),
{
    let lower = text::lower(name);
    if text::same(lower.as_str(), "sharp") {
        BorderStyle::Sharp
    } else if text::same(lower.as_str(), "double") {
        BorderStyle::Double
    } else if text::same(lower.as_str(), "thick") {
        BorderStyle::Thick
    } else if text::same(lower.as_str(), "none") {
        BorderStyle::Borderless
    } else {
        BorderStyle::Rounded
    }
}

/// The corner style that goes by a name, in any case.
pub open spec fn corner_of(name: Seq<char>) -> CornerStyle {
    if text::lower_of(name) == text::lower_of("sharp"@) {
        CornerStyle::Sharp
    } else {
        CornerStyle::Rounded
    }
}

/// The corner style that goes by a name, in any case.
pub fn corner_style(name: &str) -> (r: CornerStyle)
    ensures
        r == corner_of(name@),
{
    if text::same_ignoring_case(name, "sharp") {
        CornerStyle::Sharp
    } else {
        CornerStyle::Rounded
    }
}

/// What the document `s` changes of the default theme. Its colours stand
/// under `colors`, or in the document itself.
pub open spec fn theme_of(s: Seq<char>) -> ThemeModel {
    let colors = match json::get_of(s, "colors"@) {
        Some(inner) => inner,
        None => s,
    };
    ThemeModel {
        colors: overrides_among(colors, COLOR_COUNT as int),
        border_style: match json::string_at(s, "borderStyle"@) {
            Some(name) => Some(border_of(name)),
            None => None,
        },
        corner_style: match json::string_at(s, "cornerStyle"@) {
            Some(name) => Some(corner_of(name)),
            None => None,
        },
    }
}

/// What the document `s` changes of the default theme.
pub fn read_theme(s: &str) -> (r: Theme)
    ensures
        r@ == theme_of(s@),
{
    let colors_text = match json::get(s, "colors") {
        Some(inner) => inner,
        None => s.to_owned(),
    };
    let mut colors: Vec<ThemeColor> = Vec::new();
    assert(color_views(colors@) =~= seq![]);
    let mut i: usize = 0;
    while i < COLOR_COUNT
        invariant
            i <= COLOR_COUNT,
            color_views(colors@) == overrides_among(colors_text@, i as int),
        decreases COLOR_COUNT - i,
    {
        let (field, key, alias) = color_slot(i);
        let found = match first_value(colors_text.as_str(), key, alias) {
            Some(value) => match json::node_of(value.as_str()) {
                Ok(node) => parse_color(&node),
                Err(_) => None,
            },
            None => None,
        };
        assert(found == override_of(colors_text@, i as int));
        match found {
            Some(color) => {
                let ghost before = color_views(colors@);
                colors.push(ThemeColor { field, color });
                assert(color_views(colors@) =~= before.push((field@, color)));
            },
            None => {},
        }
        i += 1;
    }
    let border = match json::get_string(s, "borderStyle") {
        Some(name) => Some(border_style(name.as_str())),
        None => None,
    };
    let corner = match json::get_string(s, "cornerStyle") {
        Some(name) => Some(corner_style(name.as_str())),
        None => None,
    };
    Theme { colors, border_style: border, corner_style: corner }
}

/// The file of the theme `name`: a file of that path, else a theme of an
/// enabled package.
pub open spec fn theme_path(fs: Seq<EntryModel>, name: Seq<char>, resources: ResourcesModel) -> Option<
    PathModel,
> {
    if paths::file_at(fs, paths::path_of(paths::platform_of(fs), name)) {
        Some(paths::path_of(paths::platform_of(fs), name))
    } else {
        packages::theme_from(
            packages::themes_among(fs, resources.packages, resources.packages.len() as int),
            name,
            0,
        )
    }
}

/// The theme `name`, or what is wrong with it.
pub open spec fn loaded_theme(
    fs: Seq<EntryModel>,
    name: Seq<char>,
    resources: ResourcesModel,
) -> Result<ThemeModel, Seq<char>> {
    match theme_path(fs, name, resources) {
        None => Err("theme `"@ + name + "` was not found in enabled packages"@),
        Some(path) => match paths::text_at(fs, path) {
            None => Err(
                "could not read theme "@ + paths::path_text(path) + ": "@ + (
                match paths::unreadable_at(fs, path) {
                    Some(reason) => reason,
                    None => ""@,
                }),
            ),
            Some(raw) => match json::document_of(raw) {
                Err(error) => Err(
                    "invalid theme "@ + paths::path_text(path) + ": "@ + error,
                ),
                Ok(document) => Ok(theme_of(document)),
            },
        },
    }
}

/// The model of a theme, or of what is wrong with it.
pub open spec fn theme_view(r: Result<Theme, String>) -> Result<ThemeModel, Seq<char>> {
    match r {
        Ok(theme) => Ok(theme@),
        Err(message) => Err(message@),
    }
}

/// Loads a theme from a path, or from the packages in `resources` by name.
/// No other package is looked at.
pub fn load_theme_with_resources(
    fs: &FsTree,
    name_or_path: &str,
    resources: &PackageResources,
) -> (r: Result<Theme, String>)
    ensures
        theme_view(r) == loaded_theme(fs@, name_or_path@, resources@),
{
    let direct = FsPath::parse_on(fs.system(), name_or_path);
    let found = if fs.is_file(&direct) {
        Some(direct)
    } else {
        resources.find_theme(fs, name_or_path)
    };
    let path = match found {
        Some(path) => path,
        None => {
            return Err(
                text::cat3("theme `", name_or_path, "` was not found in enabled packages"),
            );
        },
    };
    let shown = path.to_text();
    let raw = match fs.read_text(&path) {
        Some(raw) => raw,
        None => {
            let reason = match fs.read_failure(&path) {
                Some(reason) => reason,
                None => "".to_owned(),
            };
            return Err(
                text::cat4("could not read theme ", shown.as_str(), ": ", reason.as_str()),
            );
        },
    };
    match json::parse_json_with_comments(raw.as_str()) {
        Ok(document) => Ok(read_theme(document.as_str())),
        Err(error) => Err(text::cat4("invalid theme ", shown.as_str(), ": ", error.as_str())),
    }
}

/// Loads a theme from a path alone.
pub fn load_theme(fs: &FsTree, name_or_path: &str) -> (r: Result<Theme, String>)
    ensures
        theme_view(r) == loaded_theme(
            fs@,
            name_or_path@,
            (ResourcesModel { packages: seq![], diagnostics: seq![] }),
        ),
{
    let none = PackageResources { packages: Vec::new(), diagnostics: Vec::new() };
    assert(none@ =~= (ResourcesModel { packages: seq![], diagnostics: seq![] }));
    load_theme_with_resources(fs, name_or_path, &none)
}

/// A theme that is neither a file nor in the enabled packages is never
/// loaded: without packages only a path names a theme.
pub proof fn lemma_no_packages_no_names(fs: Seq<EntryModel>, name: Seq<char>)
    requires
        !paths::file_at(fs, paths::path_of(paths::platform_of(fs), name)),
    ensures
        loaded_theme(
            fs,
            name,
            (ResourcesModel { packages: seq![], diagnostics: seq![] }),
        ) is Err,
{
}

} // verus!
