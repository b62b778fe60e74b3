//! What the file of a theme says, and which file it is.

use vstd::prelude::*;

use crate::json;
use crate::json::JsonModel;
use crate::laws::texts;
use crate::packages;
use crate::packages::ResourcesModel;
use crate::paths;
use crate::paths::{EntryModel, PathModel};
use crate::text;
use crate::theme;
use crate::theme::{BorderStyle, Color, CornerStyle, COLOR_COUNT};

verus! {

/// The value of a digit in base sixteen, in letters of either case.
pub open spec fn sixteen(c: char) -> Option<int> {
    if '0' <= c && c <= '9' {
        Some(c as int - '0' as int)
    } else if 'a' <= c && c <= 'f' {
        Some(c as int - 'a' as int + 10)
    } else if 'A' <= c && c <= 'F' {
        Some(c as int - 'A' as int + 10)
    } else {
        None
    }
}

/// A color is written with `#` and two digits each for red, green and blue.
pub proof fn lemma_color_reads(a: char, b: char, c: char, d: char, e: char, f: char)
    requires
        sixteen(a) is Some,
        sixteen(b) is Some,
        sixteen(c) is Some,
        sixteen(d) is Some,
        sixteen(e) is Some,
        sixteen(f) is Some,
    ensures
        theme::hex_color(seq!['#', a, b, c, d, e, f]) matches Some(Color::Rgb(red, green, blue))
            && red == sixteen(a)->0 * 16 + sixteen(b)->0 && green == sixteen(c)->0 * 16 + sixteen(
            d,
        )->0 && blue == sixteen(e)->0 * 16 + sixteen(f)->0,
{
    reveal_strlit("#");
    let s = seq!['#', a, b, c, d, e, f];
    texts::lemma_trimmed(s);
    assert(s.subrange(0, 1) =~= "#"@);
    assert(s.skip(1) =~= seq![a, b, c, d, e, f]);
}

/// A text without `#` in front, or with another number of digits, is no
/// color.
pub proof fn lemma_other_texts_are_no_color(s: Seq<char>)
    requires
        text::trim_of(s) == s,
        s.len() != 7 || s[0] != '#',
    ensures
        theme::hex_color(s) is None,
{
    reveal_strlit("#");
    if text::begins(s, "#"@) {
        assert(s.subrange(0, 1)[0] == s[0]);
    }
}

/// A color is also three numbers up to two hundred and fifty-five, in a list
/// or under the names `r`, `g` and `b`.
pub proof fn lemma_color_as_numbers(node: JsonModel, r: Seq<char>, g: Seq<char>, b: Seq<char>)
    requires
        node == JsonModel::Array(seq![r, g, b]) || (node is Object && json::member_of(node, "r"@)
            == Some(r) && json::member_of(node, "g"@) == Some(g) && json::member_of(node, "b"@)
            == Some(b)),
    ensures
        theme::color_of(node) == (match (json::json_read(r), json::json_read(g), json::json_read(
            b,
        )) {
            (
                Ok(JsonModel::Number(Some(x))),
                Ok(JsonModel::Number(Some(y))),
                Ok(JsonModel::Number(Some(z))),
            ) => if x <= 255 && y <= 255 && z <= 255 {
                Some(Color::Rgb(x as u8, y as u8, z as u8))
            } else {
                None
            },
            _ => None,
        }),
{
}

proof fn lemma_overrides(s: Seq<char>, n: int)
    requires
        0 <= n,
    ensures
        forall|i: int|
            0 <= i < n && #[trigger] theme::override_of(s, i) is Some ==> theme::overrides_among(
                s,
                n,
            ).contains((theme::slot_of(i).0, theme::override_of(s, i)->0)),
        forall|k: int|
            0 <= k < theme::overrides_among(s, n).len() ==> comes_from(
                s,
                n,
                #[trigger] theme::overrides_among(s, n)[k],
            ),
    decreases n,
{
    if n > 0 {
        lemma_overrides(s, n - 1);
        let rest = theme::overrides_among(s, n - 1);
        let out = theme::overrides_among(s, n);
        assert forall|i: int|
            0 <= i < n && #[trigger] theme::override_of(s, i) is Some implies out.contains(
            (theme::slot_of(i).0, theme::override_of(s, i)->0),
        ) by {
            let wanted = (theme::slot_of(i).0, theme::override_of(s, i)->0);
            if i < n - 1 {
                assert(rest.contains(wanted));
                let k = choose|k: int| 0 <= k < rest.len() && rest[k] == wanted;
                assert(out[k] == wanted);
            } else {
                assert(out[rest.len() as int] == wanted);
            }
        }
        assert forall|k: int| 0 <= k < out.len() implies comes_from(s, n, #[trigger] out[k]) by {
            if k < rest.len() {
                assert(comes_from(s, n - 1, rest[k]));
                let i = choose|i: int|
                    0 <= i < n - 1 && #[trigger] theme::override_of(s, i) == Some(rest[k].1)
                        && theme::slot_of(i).0 == rest[k].0;
                assert(theme::override_of(s, i) == Some(out[k].1));
            } else {
                assert(theme::override_of(s, n - 1) == Some(out[k].1));
            }
        }
    }
}

/// Whether one of the first `n` fields has this name and this color.
pub open spec fn comes_from(s: Seq<char>, n: int, color: (Seq<char>, Color)) -> bool {
    exists|i: int|
        0 <= i < n && #[trigger] theme::override_of(s, i) == Some(color.1) && theme::slot_of(i).0
            == color.0
}

/// A theme has the colors that its file gives and no others; they stand under
/// `colors` or, without that, in the file itself.
pub proof fn lemma_theme_has_its_colors(s: Seq<char>, i: int, k: int)
    ensures
        ({
            let colors = json::get_of(s, "colors"@).unwrap_or(s);
            let out = theme::theme_of(s).colors;
            &&& 0 <= i < COLOR_COUNT && theme::override_of(colors, i) is Some ==> out.contains(
                (theme::slot_of(i).0, theme::override_of(colors, i)->0),
            )
            &&& 0 <= k < out.len() ==> comes_from(colors, COLOR_COUNT as int, out[k])
        }),
{
    lemma_overrides(json::get_of(s, "colors"@).unwrap_or(s), COLOR_COUNT as int);
}

/// A field is read under its name or, without that, under its other one.
pub proof fn lemma_other_name_counts(s: Seq<char>, key: Seq<char>, other: Option<Seq<char>>)
    ensures
        json::get_of(s, key) is Some ==> theme::first_of(s, key, other) == json::get_of(s, key),
        json::get_of(s, key) is None ==> theme::first_of(s, key, other) == (match other {
            Some(alias) => json::get_of(s, alias),
            None => None,
        }),
        theme::slot_of(8).2 == Some("bg"@) && theme::slot_of(9).2 == Some("userMessageBg"@)
            && theme::slot_of(13).2 == Some("selectedBg"@),
{
}

/// Borders are named without regard to case; an unknown name means rounded
/// ones.
pub proof fn lemma_borders_are_named(name: Seq<char>)
    ensures
        text::lower_of(name) == seq!['s', 'h', 'a', 'r', 'p'] ==> theme::border_of(name)
            == BorderStyle::Sharp && theme::corner_of(name) == CornerStyle::Sharp,
        text::lower_of(name) == seq!['d', 'o', 'u', 'b', 'l', 'e'] ==> theme::border_of(name)
            == BorderStyle::Double,
        text::lower_of(name) == seq!['t', 'h', 'i', 'c', 'k'] ==> theme::border_of(name)
            == BorderStyle::Thick,
        text::lower_of(name) == seq!['n', 'o', 'n', 'e'] ==> theme::border_of(name)
            == BorderStyle::Borderless,
        name.len() == 0 || name.len() > 6 ==> theme::border_of(name) == BorderStyle::Rounded
            && theme::corner_of(name) == CornerStyle::Rounded,
        text::lower_of(name) == seq!['r', 'o', 'u', 'n', 'd', 'e', 'd'] ==> theme::border_of(name)
            == BorderStyle::Rounded,
{
    reveal_strlit("sharp");
    reveal_strlit("double");
    reveal_strlit("thick");
    reveal_strlit("none");
    let sharp = seq!['s', 'h', 'a', 'r', 'p'];
    assert("sharp"@ =~= sharp);
    assert("double"@ =~= seq!['d', 'o', 'u', 'b', 'l', 'e']);
    assert("thick"@ =~= seq!['t', 'h', 'i', 'c', 'k']);
    assert("none"@ =~= seq!['n', 'o', 'n', 'e']);
    assert(text::lower_of(sharp) =~= sharp);
    assert("sharp"@.len() == 5 && "double"@.len() == 6 && "thick"@.len() == 5 && "none"@.len()
        == 4);
    assert("sharp"@[0] == 's' && "thick"@[0] == 't');
    assert(text::lower_of(name).len() == name.len());
}

proof fn lemma_theme_from(files: Seq<PathModel>, name: Seq<char>, i: int, k: int)
    requires
        0 <= i <= k <= files.len(),
        forall|j: int| i <= j < k ==> !packages::theme_named(#[trigger] files[j], name),
    ensures
        packages::theme_from(files, name, i) == packages::theme_from(files, name, k),
    decreases k - i,
{
    if i < k {
        lemma_theme_from(files, name, i + 1, k);
    }
}

/// A theme is the file of that path where there is one; otherwise the first
/// file among those of the packages that has that name, with its extension
/// or without.
pub proof fn lemma_theme_is_found(
    fs: Seq<EntryModel>,
    name: Seq<char>,
    resources: ResourcesModel,
    k: int,
)
    requires
        ({
            let files = packages::themes_among(
                fs,
                resources.packages,
                resources.packages.len() as int,
            );
            &&& 0 <= k <= files.len()
            &&& forall|j: int| 0 <= j < k ==> !packages::theme_named(#[trigger] files[j], name)
        }),
    ensures
        ({
            let files = packages::themes_among(
                fs,
                resources.packages,
                resources.packages.len() as int,
            );
            let own = paths::path_of(paths::platform_of(fs), name);
            &&& paths::file_at(fs, own) ==> theme::theme_path(fs, name, resources) == Some(own)
            &&& !paths::file_at(fs, own) && k < files.len() && packages::theme_named(files[k], name)
                ==> theme::theme_path(fs, name, resources) == Some(files[k])
            &&& !paths::file_at(fs, own) && k == files.len() ==> theme::theme_path(
                fs,
                name,
                resources,
            ) is None && theme::loaded_theme(fs, name, resources) is Err
        }),
{
    let files = packages::themes_among(fs, resources.packages, resources.packages.len() as int);
    lemma_theme_from(files, name, 0, k);
}

/// What a file of a theme is called.
pub proof fn lemma_theme_goes_by_its_name(p: PathModel, stem: Seq<char>, extension: Seq<char>)
    requires
        paths::name_of(p) == Some(stem + seq!['.'] + extension),
        stem.len() > 0,
        !extension.contains('.'),
    ensures
        packages::theme_named(p, stem),
        packages::theme_named(p, stem + seq!['.'] + extension),
{
    reveal_strlit(".");
    let name = stem + seq!['.'] + extension;
    let n = stem.len() as int;
    text::lemma_last_index_to(name, "."@, name.len() - 1);
    assert(name.subrange(n, n + 1) =~= "."@);
    assert(text::stands_at(name, "."@, n));
    let k = text::last_index_of(name, "."@)->0;
    if k > n {
        assert(name.subrange(k, k + 1)[0] == name[k]);
        assert(extension.contains(extension[k - n - 1]));
    }
    assert(name.take(n) =~= stem);
}

} // verus!
