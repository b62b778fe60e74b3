//! Semantic versions and npm version ranges.

use vstd::prelude::*;

use crate::text;

verus! {

/// A semantic version.
pub struct Version {
    pub major: u64,
    pub minor: u64,
    pub patch: u64,
    pub pre: String,
    pub build: String,
}

/// The model of `Version`.
#[verifier::ext_equal]
pub struct VersionModel {
    pub major: u64,
    pub minor: u64,
    pub patch: u64,
    pub pre: Seq<char>,
    pub build: Seq<char>,
}

impl View for Version {
    type V = VersionModel;

    open spec fn view(&self) -> VersionModel {
        VersionModel {
            major: self.major,
            minor: self.minor,
            patch: self.patch,
            pre: self.pre@,
            build: self.build@,
        }
    }
}

/// The view of an optional version.
pub open spec fn version_view(o: Option<Version>) -> Option<VersionModel> {
    match o {
        Some(v) => Some(v@),
        None => None,
    }
}

/// How two versions are ordered.
#[derive(Debug, Clone, Copy, PartialEq, Eq, Structural)]
pub enum Order {
    Less,
    Equal,
    Greater,
}

/// A character of a pre-release or build identifier.
#[verifier::allow_in_spec]
pub fn is_identifier_char(c: char) -> bool
    returns
        (text::is_alphanumeric(c) || c == '-'),
{
    text::is_alphanumeric(c) || c == '-'
}

/// A character that no identifier holds.
#[verifier::allow_in_spec]
pub fn not_identifier_char(c: char) -> bool
    returns
        (!is_identifier_char(c)),
{
    !is_identifier_char(c)
}

/// Whether `s` is one identifier. Where `strict` is set, a number has no
/// leading zero.
pub open spec fn identifier(s: Seq<char>, strict: bool) -> bool {
    &&& s.len() > 0
    &&& forall|i: int| 0 <= i < s.len() ==> is_identifier_char(#[trigger] s[i])
    &&& !strict || !text::only_digits(s) || s.len() == 1 || s[0] != '0'
}

/// Whether `s` is a list of identifiers between dots.
pub open spec fn identifiers(s: Seq<char>, strict: bool) -> bool {
    forall|i: int|
        0 <= i < text::pieces(s, "."@).len() ==> identifier(
            #[trigger] text::pieces(s, "."@)[i],
            strict,
        )
}

/// Whether `value` is a list of identifiers between dots.
pub fn valid_semver_identifiers(value: &str, reject_numeric_leading_zero: bool) -> (r: bool)
    ensures
        r == identifiers(value@, reject_numeric_leading_zero),
{
    proof {
        reveal_strlit(".");
    }
    let parts = text::split(value, ".");
    let mut i: usize = 0;
    while i < parts.len()
        invariant
            i <= parts@.len(),
            text::strs(parts@) == text::pieces(value@, "."@),
            forall|j: int|
                0 <= j < i ==> identifier(
                    #[trigger] text::pieces(value@, "."@)[j],
                    reject_numeric_leading_zero,
                ),
        decreases parts.len() - i,
    {
        let part = parts[i];
        assert(text::strs(parts@)[i as int] == part@);
        if part.is_empty() || text::any_char(
            part,
            not_identifier_char,
            Ghost(|c: char| not_identifier_char(c)),
        ) {
            return false;
        }
        if reject_numeric_leading_zero && text::digits_only(part) && part.unicode_len() != 1
            && text::starts_with_char(part, '0') {
            return false;
        }
        i += 1;
    }
    true
}

/// Whether `s` is a number in decimal without a leading zero.
pub open spec fn core_number(s: Seq<char>) -> bool {
    text::all_digits(s) && (s.len() == 1 || s[0] != '0')
}

fn is_core_number(s: &str) -> (r: bool)
    ensures
        r == core_number(s@),
{
    !s.is_empty() && text::digits_only(s) && (s.unicode_len() == 1 || !text::starts_with_char(
        s,
        '0',
    ))
}

/// A version text as its numbers, its pre-release and its build metadata;
/// the latter two are absent where nothing introduces them.
#[verifier::ext_equal]
pub struct VersionParts {
    pub major: Seq<char>,
    pub minor: Seq<char>,
    pub patch: Seq<char>,
    pub pre: Option<Seq<char>>,
    pub build: Option<Seq<char>>,
}

/// The three numbers of `core`, where it is three numbers between dots.
pub open spec fn core_of(core: Seq<char>, pre: Option<Seq<char>>, build: Option<Seq<char>>) -> Option<
    VersionParts,
> {
    let numbers = text::pieces(core, "."@);
    if numbers.len() == 3 && core_number(numbers[0]) && core_number(numbers[1]) && core_number(
        numbers[2],
    ) {
        Some(VersionParts { major: numbers[0], minor: numbers[1], patch: numbers[2], pre, build })
    } else {
        None
    }
}

/// The parts of a text that the grammar of semantic versions accepts.
pub open spec fn parts_of(s: Seq<char>) -> Option<VersionParts> {
    let split = text::pieces(s, "+"@);
    let build = if split.len() > 1 {
        Some(split[1])
    } else {
        None
    };
    if split.len() > 2 || (build matches Some(b) && !identifiers(b, false)) {
        None
    } else {
        match text::cut(split[0], "-"@) {
            Some((core, pre)) => if identifiers(pre, true) {
                core_of(core, Some(pre), build)
            } else {
                None
            },
            None => core_of(split[0], None, build),
        }
    }
}

/// The semantic version that a text spells: one that the grammar accepts and
/// whose numbers fit a machine word.
pub open spec fn semver_of(s: Seq<char>) -> Option<VersionModel> {
    match parts_of(s) {
        None => None,
        Some(p) => if text::decimal(p.major) <= u64::MAX && text::decimal(p.minor) <= u64::MAX
            && text::decimal(p.patch) <= u64::MAX {
            Some(
                VersionModel {
                    major: text::decimal(p.major) as u64,
                    minor: text::decimal(p.minor) as u64,
                    patch: text::decimal(p.patch) as u64,
                    pre: p.pre.unwrap_or(seq![]),
                    build: p.build.unwrap_or(seq![]),
                },
            )
        } else {
            None
        },
    }
}

/// Whether the pre-release and the build metadata of `v` are absent or lists
/// of identifiers, as in every version that a text spells.
pub open spec fn well_formed(v: VersionModel) -> bool {
    (v.pre.len() == 0 || identifiers(v.pre, true)) && (v.build.len() == 0 || identifiers(
        v.build,
        false,
    ))
}

/// `semver::Version::parse`: accepts the grammar of semantic versions with
/// numbers of 64 bits, and gives back the parts of the text.
#[verifier::external_body]
fn parse_version(s: &str) -> (r: Option<Version>)
    ensures
        version_view(r) == semver_of(s@),
{
    semver::Version::parse(s).ok().map(|v| Version { major: v.major, minor: v.minor, patch: v.patch, pre: v.pre.as_str().to_string(), build: v.build.as_str().to_string() })
}

/// The order that `semver::Version` gives two versions.
pub uninterp spec fn semver_order(a: VersionModel, b: VersionModel) -> Order;

/// How the numbers of two versions are ordered.
pub open spec fn core_order(a: VersionModel, b: VersionModel) -> Order {
    if a.major != b.major {
        number_order(a.major, b.major)
    } else if a.minor != b.minor {
        number_order(a.minor, b.minor)
    } else {
        number_order(a.patch, b.patch)
    }
}

/// How two numbers are ordered.
pub open spec fn number_order(a: u64, b: u64) -> Order {
    if a < b {
        Order::Less
    } else if a == b {
        Order::Equal
    } else {
        Order::Greater
    }
}

/// `Ord::cmp` of `semver::Version`. The numbers decide first, from the major
/// one down; between equal numbers a version without a pre-release is the
/// greater; equal versions are equal. How two pre-releases or two builds are
/// ordered is left to the crate.
#[verifier::external_body]
fn order_of(a: &Version, b: &Version) -> (r: Order)
    requires
        well_formed(a@),
        well_formed(b@),
    ensures
        r == semver_order(a@, b@),
        core_order(a@, b@) != Order::Equal ==> r == core_order(a@, b@),
        core_order(a@, b@) == Order::Equal && a@.pre.len() == 0 && b@.pre.len() > 0 ==> r
            == Order::Greater,
        core_order(a@, b@) == Order::Equal && a@.pre.len() > 0 && b@.pre.len() == 0 ==> r
            == Order::Less,
        a@ == b@ ==> r == Order::Equal,
{
    let left = semver::Version { major: a.major, minor: a.minor, patch: a.patch, pre: semver::Prerelease::new(&a.pre).unwrap(), build: semver::BuildMetadata::new(&a.build).unwrap() };
    let right = semver::Version { major: b.major, minor: b.minor, patch: b.patch, pre: semver::Prerelease::new(&b.pre).unwrap(), build: semver::BuildMetadata::new(&b.build).unwrap() };
    match left.cmp(&right) {
        std::cmp::Ordering::Less => Order::Less,
        std::cmp::Ordering::Equal => Order::Equal,
        std::cmp::Ordering::Greater => Order::Greater,
    }
}

/// How two versions are ordered: by their numbers, from the major one down;
/// between equal numbers a version without a pre-release is the greater; what
/// is left, `semver` decides.
pub open spec fn version_order(a: VersionModel, b: VersionModel) -> Order {
    if core_order(a, b) != Order::Equal {
        core_order(a, b)
    } else if a.pre.len() == 0 && b.pre.len() > 0 {
        Order::Greater
    } else if a.pre.len() > 0 && b.pre.len() == 0 {
        Order::Less
    } else if a == b {
        Order::Equal
    } else {
        semver_order(a, b)
    }
}

/// How two versions are ordered.
pub fn compare_versions(a: &Version, b: &Version) -> (r: Order)
    requires
        well_formed(a@),
        well_formed(b@),
    ensures
        r == version_order(a@, b@),
{
    order_of(a, b)
}

/// Whether `semver::VersionReq` reads a text as a requirement.
pub uninterp spec fn semver_requirement(text: Seq<char>) -> bool;

/// Whether the requirement that a text spells admits a version.
pub uninterp spec fn semver_admits(text: Seq<char>, version: VersionModel) -> bool;

/// `semver::VersionReq::parse`: whether a text is a requirement.
#[verifier::external_body]
fn is_requirement(s: &str) -> (r: bool)
    ensures
        r == semver_requirement(s@),
{
    semver::VersionReq::parse(s).is_ok()
}

/// `semver::VersionReq::matches`: whether a requirement admits a version.
#[verifier::external_body]
fn requirement_admits(s: &str, v: &Version) -> (r: bool)
    requires
        semver_requirement(s@),
        well_formed(v@),
    ensures
        r == semver_admits(s@, v@),
{
    let version = semver::Version { major: v.major, minor: v.minor, patch: v.patch, pre: semver::Prerelease::new(&v.pre).unwrap(), build: semver::BuildMetadata::new(&v.build).unwrap() };
    semver::VersionReq::parse(s).unwrap().matches(&version)
}

/// `s` without white space around it and without one `v` in front.
pub open spec fn without_v(s: Seq<char>) -> Seq<char> {
    match text::after_prefix(text::trim_of(s), "v"@) {
        Some(rest) => rest,
        None => text::trim_of(s),
    }
}

/// Whether `value` spells one exact version.
pub open spec fn exact_version(value: Seq<char>) -> bool {
    parts_of(without_v(value)) is Some
}

/// Whether `value` spells one exact version, as opposed to a range or a tag.
pub fn is_exact_npm_version(value: &str) -> (r: bool)
    ensures
        r == exact_version(value@),
{
    proof {
        reveal_strlit("+");
        reveal_strlit(".");
    }
    let trimmed = text::trim(value);
    let body = match text::strip_prefix(trimmed, "v") {
        Some(rest) => rest,
        None => trimmed,
    };
    let split = text::split(body, "+");
    assert(split@.len() == text::strs(split@).len());
    assert(text::strs(split@)[0] == split@[0]@);
    if split.len() > 2 {
        return false;
    }
    if split.len() > 1 {
        assert(text::strs(split@)[1] == split@[1]@);
        if !valid_semver_identifiers(split[1], false) {
            return false;
        }
    }
    let core = match text::split_once(split[0], "-") {
        Some((core, pre)) => {
            if !valid_semver_identifiers(pre, true) {
                return false;
            }
            core
        },
        None => split[0],
    };
    let numbers = text::split(core, ".");
    assert(numbers@.len() == text::strs(numbers@).len());
    if numbers.len() != 3 {
        return false;
    }
    assert(text::strs(numbers@)[0] == numbers@[0]@ && text::strs(numbers@)[1] == numbers@[1]@
        && text::strs(numbers@)[2] == numbers@[2]@);
    is_core_number(numbers[0]) && is_core_number(numbers[1]) && is_core_number(numbers[2])
}

/// A version of which the last parts may be missing, and how many parts it
/// has.
pub open spec fn partial_version(value: Seq<char>) -> Option<(VersionModel, nat)> {
    let s = text::trim_start_char_of(text::trim_of(value), 'v');
    match semver_of(s) {
        Some(v) => Some((v, 3)),
        None => {
            let parts = text::pieces(s, "."@);
            if parts.len() > 3 || (exists|i: int|
                0 <= i < parts.len() && !text::all_digits(#[trigger] parts[i]))
                || text::number_of(parts[0], u64::MAX as nat) is None {
                None
            } else {
                Some(
                    (
                        VersionModel {
                            major: text::decimal(parts[0]) as u64,
                            minor: part_or_zero(parts, 1),
                            patch: part_or_zero(parts, 2),
                            pre: seq![],
                            build: seq![],
                        },
                        parts.len(),
                    ),
                )
            }
        },
    }
}

/// The number of the part `i`, or zero where it is missing or too large.
pub open spec fn part_or_zero(parts: Seq<Seq<char>>, i: int) -> u64 {
    if i < parts.len() {
        match text::number_of(parts[i], u64::MAX as nat) {
            Some(n) => n as u64,
            None => 0,
        }
    } else {
        0
    }
}

fn number_or_zero(parts: &Vec<&str>, i: usize) -> (n: u64)
    ensures
        n == part_or_zero(text::strs(parts@), i as int),
{
    if i < parts.len() {
        assert(text::strs(parts@)[i as int] == parts@[i as int]@);
        match text::parse_number(parts[i], u64::MAX) {
            Some(n) => n,
            None => 0,
        }
    } else {
        0
    }
}

/// A version of which the last parts may be missing, and how many parts it
/// has.
pub fn parse_npm_partial_version(value: &str) -> (r: Option<(Version, usize)>)
    ensures
        (match r {
            Some(p) => Some((p.0@, p.1 as nat)),
            None => None,
        }) == partial_version(value@),
        r matches Some(p) ==> well_formed(p.0@),
{
    proof {
        reveal_strlit(".");
    }
    let s = text::trim_start_char(text::trim(value), 'v');
    match parse_version(s) {
        Some(version) => {
            return Some((version, 3));
        },
        None => {},
    }
    let parts = text::split(s, ".");
    assert(parts@.len() == text::strs(parts@).len());
    if parts.len() > 3 {
        return None;
    }
    let mut i: usize = 0;
    while i < parts.len()
        invariant
            i <= parts@.len(),
            parts@.len() <= 3,
            text::strs(parts@) == text::pieces(s@, "."@),
            s@ == text::trim_start_char_of(text::trim_of(value@), 'v'),
            semver_of(s@) is None,
            forall|j: int|
                0 <= j < i ==> text::all_digits(#[trigger] text::strs(parts@)[j]),
        decreases parts.len() - i,
    {
        assert(text::strs(parts@)[i as int] == parts@[i as int]@);
        if parts[i].is_empty() || !text::digits_only(parts[i]) {
            assert(!text::all_digits(text::pieces(s@, "."@)[i as int]));
            return None;
        }
        i += 1;
    }
    assert(text::strs(parts@)[0] == parts@[0]@);
    match text::parse_number(parts[0], u64::MAX) {
        Some(major) => {
            assert(text::all_digits(text::strs(parts@)[0]));
            assert(!text::first_is(parts@[0]@, '+'));
            let version = Version {
                major,
                minor: number_or_zero(&parts, 1),
                patch: number_or_zero(&parts, 2),
                pre: String::new(),
                build: String::new(),
            };
            Some((version, parts.len()))
        },
        None => None,
    }
}

/// An operator that stands apart from its version.
pub open spec fn lone_operator(token: Seq<char>) -> bool {
    ||| token == "<"@
    ||| token == "<="@
    ||| token == ">"@
    ||| token == ">="@
    ||| token == "="@
    ||| token == "^"@
    ||| token == "~"@
}

fn is_lone_operator(token: &str) -> (r: bool)
    ensures
        r == lone_operator(token@),
{
    text::same(token, "<") || text::same(token, "<=") || text::same(token, ">") || text::same(
        token,
        ">=",
    ) || text::same(token, "=") || text::same(token, "^") || text::same(token, "~")
}

/// Whether `s` starts with a decimal digit.
pub open spec fn digit_first(s: Seq<char>) -> bool {
    s.len() > 0 && text::is_digit(s[0])
}

/// Whether `s` starts with a decimal digit.
fn starts_with_digit(s: &str) -> (r: bool)
    ensures
        r == digit_first(s@),
{
    !s.is_empty() && text::is_digit(s.get_char(0))
}

/// Whether `s` starts as a comparator does: with an operator or a digit.
pub open spec fn comparator_first(s: Seq<char>) -> bool {
    s.len() > 0 && (s[0] == '<' || s[0] == '>' || s[0] == '=' || s[0] == '^' || s[0] == '~'
        || text::is_digit(s[0]))
}

fn starts_comparator(s: &str) -> (r: bool)
    ensures
        r == comparator_first(s@),
{
    if s.is_empty() {
        return false;
    }
    let c = s.get_char(0);
    c == '<' || c == '>' || c == '=' || c == '^' || c == '~' || text::is_digit(c)
}

/// The comparators that `tokens` spell from `i` on, each operator joined to
/// its version.
pub open spec fn comparators_from(tokens: Seq<Seq<char>>, i: int) -> Option<Seq<Seq<char>>>
    decreases tokens.len() - i,
{
    if i >= tokens.len() {
        Some(seq![])
    } else if lone_operator(tokens[i]) {
        if i + 1 < tokens.len() && digit_first(text::trim_start_char_of(tokens[i + 1], 'v')) {
            match comparators_from(tokens, i + 2) {
                Some(rest) => Some(seq![tokens[i] + tokens[i + 1]] + rest),
                None => None,
            }
        } else {
            None
        }
    } else if comparator_first(tokens[i]) {
        match comparators_from(tokens, i + 1) {
            Some(rest) => Some(seq![tokens[i]] + rest),
            None => None,
        }
    } else {
        None
    }
}

/// Two or more tokens as one requirement with commas between comparators.
pub open spec fn comparator_set(tokens: Seq<Seq<char>>) -> Option<Seq<char>> {
    if tokens.len() <= 1 {
        None
    } else {
        match comparators_from(tokens, 0) {
            Some(parts) => Some(text::joined(parts, ", "@)),
            None => None,
        }
    }
}

/// Writes the comparators that npm separates by spaces as the requirement
/// that `semver` reads. Tags and other syntax of npm's own give `None`.
pub fn normalize_npm_comparator_set(tokens: &Vec<&str>) -> (r: Option<String>)
    ensures
        text::opt_text(r) == comparator_set(text::strs(tokens@)),
{
    if tokens.len() <= 1 {
        return None;
    }
    let ghost words = text::strs(tokens@);
    let mut parts: Vec<String> = Vec::new();
    let mut i: usize = 0;
    while i < tokens.len()
        invariant
            i <= tokens@.len(),
            tokens@.len() > 1,
            words == text::strs(tokens@),
            comparators_from(words, 0) == (match comparators_from(words, i as int) {
                Some(rest) => Some(text::texts(parts@) + rest),
                None => None,
            }),
        decreases tokens.len() - i,
    {
        let token = tokens[i];
        let ghost before = text::texts(parts@);
        assert(words[i as int] == token@);
        if is_lone_operator(token) {
            if tokens.len() - i <= 1 {
                return None;
            }
            let version = tokens[i + 1];
            assert(words[i + 1] == version@);
            if !starts_with_digit(text::trim_start_char(version, 'v')) {
                return None;
            }
            parts.push(text::cat(token, version));
            proof {
                assert(text::texts(parts@) =~= before.push(token@ + version@));
                if let Some(rest) = comparators_from(words, i + 2) {
                    assert(before + (seq![token@ + version@] + rest) =~= text::texts(parts@)
                        + rest);
                }
            }
            i += 2;
        } else {
            if !starts_comparator(token) {
                return None;
            }
            parts.push(token.to_owned());
            proof {
                assert(text::texts(parts@) =~= before.push(token@));
                if let Some(rest) = comparators_from(words, i + 1) {
                    assert(before + (seq![token@] + rest) =~= text::texts(parts@) + rest);
                }
            }
            i += 1;
        }
    }
    assert(text::texts(parts@) + seq![] =~= text::texts(parts@));
    Some(text::join(parts.as_slice(), ", "))
}

/// A version with the given numbers alone.
pub open spec fn core_version(major: u64, minor: u64, patch: u64) -> VersionModel {
    VersionModel { major, minor, patch, pre: seq![], build: seq![] }
}

/// Whether `v` does not pass the upper end `high` of a hyphen range, which
/// has `parts` parts.
pub open spec fn below_end(v: VersionModel, high: VersionModel, parts: nat) -> bool {
    if parts == 1 {
        high.major < u64::MAX && version_order(v, core_version((high.major + 1) as u64, 0, 0))
            == Order::Less
    } else if parts == 2 {
        high.minor < u64::MAX && version_order(
            v,
            core_version(high.major, (high.minor + 1) as u64, 0),
        ) == Order::Less
    } else {
        version_order(v, high) != Order::Greater
    }
}

fn is_below_end(v: &Version, high: &Version, parts: usize) -> (r: bool)
    requires
        well_formed(v@),
        well_formed(high@),
    ensures
        r == below_end(v@, high@, parts as nat),
{
    if parts == 1 {
        if high.major == u64::MAX {
            return false;
        }
        let end = Version {
            major: high.major + 1,
            minor: 0,
            patch: 0,
            pre: String::new(),
            build: String::new(),
        };
        assert(end@ =~= core_version((high.major + 1) as u64, 0, 0));
        compare_versions(v, &end) == Order::Less
    } else if parts == 2 {
        if high.minor == u64::MAX {
            return false;
        }
        let end = Version {
            major: high.major,
            minor: high.minor + 1,
            patch: 0,
            pre: String::new(),
            build: String::new(),
        };
        assert(end@ =~= core_version(high.major, (high.minor + 1) as u64, 0));
        compare_versions(v, &end) == Order::Less
    } else {
        compare_versions(v, high) != Order::Greater
    }
}

/// The verdict on one range without `||`.
pub open spec fn range_verdict(installed: Option<VersionModel>, requested: Seq<char>) -> Option<
    bool,
> {
    if requested.len() == 0 {
        None
    } else if exact_version(requested) {
        match semver_of(text::trim_start_char_of(requested, 'v')) {
            Some(expected) => Some(installed == Some(expected)),
            None => None,
        }
    } else {
        match text::cut(requested, " - "@) {
            Some((low, high)) => match (partial_version(low), partial_version(high)) {
                (Some((low, _)), Some((high, parts))) => Some(
                    installed matches Some(v) && version_order(v, low) != Order::Less && below_end(
                        v,
                        high,
                        parts,
                    ),
                ),
                _ => None,
            },
            None => match partial_version(requested) {
                Some((partial, parts)) => if parts == 1 {
                    Some(installed matches Some(v) && v.major == partial.major)
                } else if parts == 2 {
                    Some(
                        installed matches Some(v) && v.major == partial.major && v.minor
                            == partial.minor,
                    )
                } else {
                    requirement_verdict(installed, requested)
                },
                None => requirement_verdict(installed, requested),
            },
        }
    }
}

/// What `semver` makes of a range that is neither exact, nor partial, nor
/// between hyphens.
pub open spec fn requirement_verdict(
    installed: Option<VersionModel>,
    requested: Seq<char>,
) -> Option<bool> {
    let normalized = match comparator_set(text::words_of(requested)) {
        Some(set) => set,
        None => requested,
    };
    if semver_requirement(normalized) {
        Some(installed matches Some(v) && semver_admits(normalized, v))
    } else {
        None
    }
}

/// The verdict on the ranges of which one must hold: `Some(true)` where one
/// does, `Some(false)` where at least one is understood and none holds.
pub open spec fn any_verdict(installed: Option<VersionModel>, ranges: Seq<Seq<char>>) -> Option<
    bool,
> {
    if exists|i: int|
        0 <= i < ranges.len() && range_verdict(installed, text::trim_of(#[trigger] ranges[i]))
            == Some(true) {
        Some(true)
    } else if exists|i: int|
        0 <= i < ranges.len() && range_verdict(installed, text::trim_of(#[trigger] ranges[i]))
            == Some(false) {
        Some(false)
    } else {
        None
    }
}

/// The version that an installed package states, where it is one.
pub open spec fn installed_version(installed: Option<Seq<char>>) -> Option<VersionModel> {
    match installed {
        Some(s) => semver_of(text::trim_start_char_of(text::trim_of(s), 'v')),
        None => None,
    }
}

/// Whether the installed version meets the requested version, range or list
/// of ranges. `None` stands for a tag, or for a range that `semver` cannot
/// express.
pub open spec fn npm_verdict(installed: Option<Seq<char>>, requested: Seq<char>) -> Option<bool> {
    any_verdict(
        installed_version(installed),
        text::pieces(text::trim_of(requested), "||"@),
    )
}

fn requirement_holds(installed: &Option<Version>, requested: &str) -> (r: Option<bool>)
    requires
        installed matches Some(v) ==> well_formed(v@),
    ensures
        r == requirement_verdict(version_view(*installed), requested@),
{
    let tokens = text::words(requested);
    let normalized = match normalize_npm_comparator_set(&tokens) {
        Some(set) => set,
        None => requested.to_owned(),
    };
    if !is_requirement(normalized.as_str()) {
        return None;
    }
    match installed {
        Some(v) => Some(requirement_admits(normalized.as_str(), v)),
        None => Some(false),
    }
}

/// The verdict on one range without `||`.
fn range_holds(installed: &Option<Version>, requested: &str) -> (r: Option<bool>)
    requires
        installed matches Some(v) ==> well_formed(v@),
    ensures
        r == range_verdict(version_view(*installed), requested@),
{
    if requested.is_empty() {
        return None;
    }
    if is_exact_npm_version(requested) {
        return match parse_version(text::trim_start_char(requested, 'v')) {
            Some(expected) => Some(
                match installed {
                    Some(v) => {
                        assert(v@ == expected@ <==> v@.major == expected@.major && v@.minor
                            == expected@.minor && v@.patch == expected@.patch && v@.pre
                            == expected@.pre && v@.build == expected@.build);
                        v.major == expected.major && v.minor == expected.minor && v.patch
                            == expected.patch && v.pre == expected.pre && v.build
                            == expected.build
                    },
                    None => false,
                },
            ),
            None => None,
        };
    }
    match text::split_once(requested, " - ") {
        Some((low, high)) => {
            let low = match parse_npm_partial_version(low) {
                Some((low, _)) => low,
                None => {
                    return None;
                },
            };
            match parse_npm_partial_version(high) {
                Some((high, parts)) => Some(
                    match installed {
                        Some(v) => compare_versions(v, &low) != Order::Less && is_below_end(
                            v,
                            &high,
                            parts,
                        ),
                        None => false,
                    },
                ),
                None => None,
            }
        },
        None => {
            match parse_npm_partial_version(requested) {
                Some((partial, parts)) => {
                    if parts == 1 {
                        return Some(
                            match installed {
                                Some(v) => v.major == partial.major,
                                None => false,
                            },
                        );
                    }
                    if parts == 2 {
                        return Some(
                            match installed {
                                Some(v) => v.major == partial.major && v.minor == partial.minor,
                                None => false,
                            },
                        );
                    }
                },
                None => {},
            }
            requirement_holds(installed, requested)
        },
    }
}

/// Whether the installed version meets what is requested: an exact version,
/// a partial one, a hyphen range, comparators, or several of these between
/// `||`. `None` stands for a tag and for syntax that `semver` cannot express:
/// there is nothing to check then.
pub fn npm_version_matches_requirement(installed: Option<&str>, requested: &str) -> (r: Option<bool>)
    ensures
        r == npm_verdict(text::opt_str(installed), requested@),
{
    proof {
        reveal_strlit("||");
    }
    let version = match installed {
        Some(s) => parse_version(text::trim_start_char(text::trim(s), 'v')),
        None => None,
    };
    let ranges = text::split(text::trim(requested), "||");
    let ghost given = version_view(version);
    let ghost parts = text::strs(ranges@);
    let mut recognized = false;
    let mut i: usize = 0;
    while i < ranges.len()
        invariant
            i <= ranges@.len(),
            given == version_view(version),
            parts == text::strs(ranges@),
            version matches Some(v) ==> well_formed(v@),
            given == installed_version(text::opt_str(installed)),
            parts == text::pieces(text::trim_of(requested@), "||"@),
            forall|j: int|
                0 <= j < i ==> range_verdict(given, text::trim_of(#[trigger] parts[j])) != Some(
                    true,
                ),
            recognized <==> exists|j: int|
                0 <= j < i && range_verdict(given, text::trim_of(#[trigger] parts[j])) == Some(
                    false,
                ),
        decreases ranges.len() - i,
    {
        assert(parts[i as int] == ranges@[i as int]@);
        match range_holds(&version, text::trim(ranges[i])) {
            Some(true) => {
                return Some(true);
            },
            Some(false) => {
                recognized = true;
            },
            None => {},
        }
        i += 1;
    }
    if recognized {
        Some(false)
    } else {
        None
    }
}

/// A package that states no readable version meets no requirement.
pub proof fn lemma_unversioned_meets_nothing(installed: Option<Seq<char>>, requested: Seq<char>)
    requires
        installed_version(installed) is None,
    ensures
        npm_verdict(installed, requested) != Some(true),
{
    let ranges = text::pieces(text::trim_of(requested), "||"@);
    assert forall|i: int| 0 <= i < ranges.len() implies range_verdict(
        None,
        text::trim_of(#[trigger] ranges[i]),
    ) != Some(true) by {}
}

/// A list of ranges holds exactly where one of them does.
pub proof fn lemma_ranges_hold_where_one_does(installed: Option<Seq<char>>, requested: Seq<char>)
    ensures
        npm_verdict(installed, requested) == Some(true) <==> exists|i: int|
            0 <= i < text::pieces(text::trim_of(requested), "||"@).len() && range_verdict(
                installed_version(installed),
                text::trim_of(#[trigger] text::pieces(text::trim_of(requested), "||"@)[i]),
            ) == Some(true),
{
}

/// A version that a text spells is exact, and is well formed.
pub proof fn lemma_semver_is_exact(s: Seq<char>)
    requires
        semver_of(s) is Some,
    ensures
        parts_of(s) is Some,
        well_formed(semver_of(s)->0),
{
}

/// Between hyphens the numbers decide where they differ from those of both
/// ends: a version below the lower end or above the upper one does not hold,
/// and one strictly between them does.
pub proof fn lemma_numbers_decide_hyphen_range(
    v: VersionModel,
    requested: Seq<char>,
    low: VersionModel,
    high: VersionModel,
    parts: nat,
)
    requires
        requested.len() > 0,
        !exact_version(requested),
        text::cut(requested, " - "@) matches Some(ends) && partial_version(ends.0) matches Some(
            bottom,
        ) && bottom.0 == low && partial_version(ends.1) == Some((high, parts)),
        core_order(v, low) != Order::Equal,
        core_order(v, high) != Order::Equal,
        parts == 3,
    ensures
        range_verdict(Some(v), requested) == Some(
            core_order(v, low) == Order::Greater && core_order(v, high) == Order::Less,
        ),
{
}

} // verus!
