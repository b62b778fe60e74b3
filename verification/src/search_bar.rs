//! The bar that shows a search: what is sought, and which match is shown.

use vstd::prelude::*;

use crate::text;

verus! {

/// What stands round a text to style it.
pub struct Style {
    pub open: String,
    pub close: String,
}

/// The model of `Style`.
#[verifier::ext_equal]
pub struct StyleModel {
    pub open: Seq<char>,
    pub close: Seq<char>,
}

impl View for Style {
    type V = StyleModel;

    open spec fn view(&self) -> StyleModel {
        StyleModel { open: self.open@, close: self.close@ }
    }
}

/// A text with its style.
pub open spec fn styled(style: StyleModel, s: Seq<char>) -> Seq<char> {
    style.open + s + style.close
}

impl Style {
    /// No style.
    pub fn plain() -> (r: Style)
        ensures
            r@ == (StyleModel { open: seq![], close: seq![] }),
    {
        let r = Style { open: String::new(), close: String::new() };
        assert(r@ =~= (StyleModel { open: seq![], close: seq![] }));
        r
    }

    /// A text with its style.
    pub fn apply(&self, s: &str) -> (out: String)
        ensures
            out@ == styled(self@, s@),
    {
        text::cat3(self.open.as_str(), s, self.close.as_str())
    }
}

/// The search bar.
pub struct SearchBar {
    pub query: String,
    pub match_count: usize,
    pub current_match: usize,
    pub visible: bool,
    pub query_style: Style,
    pub match_style: Style,
}

/// The model of `SearchBar`.
#[verifier::ext_equal]
pub struct SearchModel {
    pub query: Seq<char>,
    pub match_count: nat,
    pub current_match: nat,
    pub visible: bool,
    pub query_style: StyleModel,
    pub match_style: StyleModel,
}

impl View for SearchBar {
    type V = SearchModel;

    open spec fn view(&self) -> SearchModel {
        SearchModel {
            query: self.query@,
            match_count: self.match_count as nat,
            current_match: self.current_match as nat,
            visible: self.visible,
            query_style: self.query_style@,
            match_style: self.match_style@,
        }
    }
}

/// A number of spaces.
pub open spec fn spaces_of(n: nat) -> Seq<char> {
    Seq::new(n, |i: int| ' ')
}

/// A number of spaces.
pub fn spaces(n: usize) -> (out: String)
    ensures
        out@ == spaces_of(n as nat),
{
    let mut out = String::new();
    let mut i: usize = 0;
    while i < n
        invariant
            i <= n,
            out@ =~= spaces_of(i as nat),
        decreases n - i,
    {
        out.push(' ');
        i += 1;
    }
    out
}

/// What the bar says of the matches.
pub open spec fn match_info_of(m: SearchModel) -> Seq<char> {
    if m.match_count == 0 {
        if m.query.len() == 0 {
            seq![]
        } else {
            "No matches"@
        }
    } else {
        text::digits_of(m.current_match + 1) + "/"@ + text::digits_of(m.match_count)
    }
}

/// What the bar says of the query.
pub open spec fn query_info_of(m: SearchModel) -> Seq<char> {
    "🔍 Search: "@ + m.query
}

/// How many columns stand between the two.
pub open spec fn padding_of(width: nat, left: nat, right: nat) -> nat {
    if width > left + right + 2 {
        (width - left - right - 2) as nat
    } else {
        1
    }
}

/// The line of the bar.
pub open spec fn bar_of(m: SearchModel, width: nat) -> Seq<char> {
    styled(m.query_style, query_info_of(m)) + spaces_of(
        padding_of(width, query_info_of(m).len(), match_info_of(m).len()),
    ) + styled(m.match_style, match_info_of(m)) + spaces_of(2)
}

impl Default for SearchBar {
    fn default() -> (bar: SearchBar)
        ensures
            bar@.query.len() == 0,
            bar@.match_count == 0,
            bar@.current_match == 0,
            !bar@.visible,
    {
        SearchBar::new()
    }
}

impl SearchBar {
    /// A hidden bar without a query.
    pub fn new() -> (bar: SearchBar)
        ensures
            bar@ == (SearchModel {
                query: seq![],
                match_count: 0,
                current_match: 0,
                visible: false,
                query_style: StyleModel { open: seq![], close: seq![] },
                match_style: StyleModel { open: seq![], close: seq![] },
            }),
    {
        let bar = SearchBar {
            query: String::new(),
            match_count: 0,
            current_match: 0,
            visible: false,
            query_style: Style::plain(),
            match_style: Style::plain(),
        };
        assert(bar@.query =~= seq![]);
        bar
    }

    /// Sets how the query and the matches are styled.
    pub fn set_styles(&mut self, query: Style, matches: Style)
        ensures
            final(self)@ == (SearchModel {
                query_style: query@,
                match_style: matches@,
                ..old(self)@
            }),
    {
        self.query_style = query;
        self.match_style = matches;
    }

    /// Sets what is sought.
    pub fn set_query(&mut self, query: &str)
        ensures
            final(self)@ == (SearchModel { query: query@, ..old(self)@ }),
    {
        self.query = query.to_owned();
    }

    /// Sets which match is shown, counted from 0, and how many there are.
    pub fn set_match_info(&mut self, current: usize, total: usize)
        ensures
            final(self)@ == (SearchModel {
                current_match: current as nat,
                match_count: total as nat,
                ..old(self)@
            }),
    {
        self.current_match = current;
        self.match_count = total;
    }

    /// Shows or hides the bar.
    pub fn set_visible(&mut self, visible: bool)
        ensures
            final(self)@ == (SearchModel { visible, ..old(self)@ }),
    {
        self.visible = visible;
    }

    /// Whether the bar is shown.
    pub fn is_visible(&self) -> (r: bool)
        ensures
            r == self@.visible,
    {
        self.visible
    }

    /// The lines that are drawn of the bar: one, or none where it is hidden.
    pub fn render(&self, width: usize) -> (lines: Vec<String>)
        requires
            self@.visible && self@.match_count > 0 ==> self@.current_match < usize::MAX,
        ensures
            text::texts(lines@) == (if self@.visible {
                seq![bar_of(self@, width as nat)]
            } else {
                seq![]
            }),
    {
        let mut lines: Vec<String> = Vec::new();
        if !self.visible {
            assert(text::texts(lines@) =~= seq![]);
            return lines;
        }
        let right = if self.match_count == 0 {
            if self.query.as_str().unicode_len() == 0 {
                let none = String::new();
                assert(none@ =~= seq![]);
                none
            } else {
                "No matches".to_owned()
            }
        } else {
            let current = text::number_text(self.current_match as u64 + 1);
            let total = text::number_text(self.match_count as u64);
            text::cat3(current.as_str(), "/", total.as_str())
        };
        let left = text::cat("🔍 Search: ", self.query.as_str());
        let left_len = left.as_str().unicode_len();
        let right_len = right.as_str().unicode_len();
        let padding: usize = if width > left_len && width - left_len > right_len && width - left_len
            - right_len > 2 {
            width - left_len - right_len - 2
        } else {
            1
        };
        let shown_left = self.query_style.apply(left.as_str());
        let shown_right = self.match_style.apply(right.as_str());
        let line = text::cat4(
            shown_left.as_str(),
            spaces(padding).as_str(),
            shown_right.as_str(),
            spaces(2).as_str(),
        );
        let ghost only = line@;
        lines.push(line);
        assert(text::texts(lines@) =~= seq![only]);
        lines
    }
}

/// Where the bar has room, it fills the width: without styles its line is as
/// long as the bar is wide.
pub proof fn lemma_bar_fills_width(m: SearchModel, width: nat)
    requires
        m.query_style.open.len() == 0 && m.query_style.close.len() == 0,
        m.match_style.open.len() == 0 && m.match_style.close.len() == 0,
        width > query_info_of(m).len() + match_info_of(m).len() + 2,
    ensures
        bar_of(m, width).len() == width,
{
}

} // verus!
