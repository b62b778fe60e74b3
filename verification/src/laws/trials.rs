//! What a trial of a publication is run with.

use vstd::prelude::*;

use crate::laws::words;
use crate::npm_command::Platform;
use crate::release;
use crate::text;

verus! {

/// Whether `s` holds nothing that a quoted text would have to escape.
pub open spec fn needs_no_escape(s: Seq<char>) -> bool {
    forall|i: int|
        0 <= i < s.len() ==> #[trigger] s[i] != '\\' && s[i] != '"' && s[i] != '\n' && s[i] != '\r'
            && s[i] != '\t'
}

proof fn lemma_stays(s: Seq<char>, from: Seq<char>, to: Seq<char>)
    requires
        from.len() > 0,
        !s.contains(from[0]),
    ensures
        text::replaced(s, from, to) == s,
{
    words::lemma_replaced_where_found(s, from, seq![], to);
}

proof fn lemma_swapped(a: Seq<char>, from: Seq<char>, b: Seq<char>, to: Seq<char>)
    requires
        from.len() > 0,
        !a.contains(from[0]),
        !b.contains(from[0]),
    ensures
        text::replaced(a + from + b, from, to) == a + to + b,
{
    words::lemma_replaced_where_found(a, from, b, to);
    lemma_stays(b, from, to);
}

/// A path without special characters is quoted as it is. A backslash is
/// doubled, but on Windows, where it stands for a slash; a quotation mark gets
/// a backslash before it.
pub proof fn lemma_path_is_quoted(a: Seq<char>, b: Seq<char>)
    requires
        needs_no_escape(a),
        needs_no_escape(b),
    ensures
        release::toml_path(a, Platform::Unix) == a,
        release::toml_path(a, Platform::Windows) == a,
        release::toml_path(a + seq!['\\'] + b, Platform::Unix) == a + seq!['\\', '\\'] + b,
        release::toml_path(a + seq!['\\'] + b, Platform::Windows) == a + seq!['/'] + b,
        release::toml_path(a + seq!['"'] + b, Platform::Unix) == a + seq!['\\', '"'] + b,
{
    reveal_strlit("\\");
    reveal_strlit("\\\\");
    reveal_strlit("/");
    reveal_strlit("\"");
    reveal_strlit("\\\"");
    reveal_strlit("\n");
    reveal_strlit("\\n");
    reveal_strlit("\r");
    reveal_strlit("\\r");
    reveal_strlit("\t");
    reveal_strlit("\\t");
    assert("\\"@ =~= seq!['\\']);
    assert("\\\\"@ =~= seq!['\\', '\\']);
    assert("/"@ =~= seq!['/']);
    assert("\""@ =~= seq!['"']);
    assert("\\\""@ =~= seq!['\\', '"']);
    lemma_stays(a, "\\"@, "/"@);
    lemma_settled(a);
    lemma_swapped(a, "\\"@, b, "/"@);
    lemma_swapped(a, "\\"@, b, "\\\\"@);
    lemma_swapped(a, "\""@, b, "\\\""@);
    let doubled = a + seq!['\\', '\\'] + b;
    let slashed = a + seq!['/'] + b;
    let quoted = a + seq!['"'] + b;
    let marked = a + seq!['\\', '"'] + b;
    lemma_stays(doubled, "\""@, "\\\""@);
    lemma_rest_settled(doubled);
    assert(needs_no_escape(slashed));
    lemma_settled(slashed);
    lemma_stays(quoted, "\\"@, "\\\\"@);
    lemma_rest_settled(marked);
}

proof fn lemma_rest_settled(s: Seq<char>)
    requires
        forall|i: int| 0 <= i < s.len() ==> #[trigger] s[i] != '\n' && s[i] != '\r' && s[i] != '\t',
    ensures
        text::replaced(
            text::replaced(text::replaced(s, "\n"@, "\\n"@), "\r"@, "\\r"@),
            "\t"@,
            "\\t"@,
        ) == s,
{
    reveal_strlit("\n");
    reveal_strlit("\r");
    reveal_strlit("\t");
    lemma_stays(s, "\n"@, "\\n"@);
    lemma_stays(s, "\r"@, "\\r"@);
    lemma_stays(s, "\t"@, "\\t"@);
}

proof fn lemma_settled(s: Seq<char>)
    requires
        needs_no_escape(s),
    ensures
        release::toml_path(s, Platform::Unix) == s,
        release::toml_path(s, Platform::Windows) == s,
{
    reveal_strlit("\\");
    reveal_strlit("\"");
    lemma_stays(s, "\\"@, "/"@);
    lemma_stays(s, "\\"@, "\\\\"@);
    lemma_stays(s, "\""@, "\\\""@);
    lemma_rest_settled(s);
}

proof fn lemma_patches(manifest: Seq<char>, root: Seq<char>, platform: Platform, n: int)
    ensures
        forall|i: int|
            0 <= i < n && release::declares(manifest, (#[trigger] release::crate_of(i)).0)
                ==> release::patches_among(manifest, root, platform, n).contains(
                release::patch_of(i, root, platform),
            ),
        forall|p: Seq<char>| #[trigger]
            release::patches_among(manifest, root, platform, n).contains(p) ==> exists|i: int|
                0 <= i < n && release::declares(manifest, (#[trigger] release::crate_of(i)).0)
                    && p == release::patch_of(i, root, platform),
    decreases n,
{
    if n > 0 {
        lemma_patches(manifest, root, platform, n - 1);
        let before = release::patches_among(manifest, root, platform, n - 1);
        let all = release::patches_among(manifest, root, platform, n);
        let last = release::patch_of(n - 1, root, platform);
        let declared = release::declares(manifest, release::crate_of(n - 1).0);
        assert forall|i: int|
            0 <= i < n && release::declares(manifest, (#[trigger] release::crate_of(i)).0) implies all.contains(
        release::patch_of(i, root, platform)) by {
            if i == n - 1 {
                assert(all[all.len() - 1] == last);
            } else {
                let p = release::patch_of(i, root, platform);
                let k = choose|k: int| 0 <= k < before.len() && before[k] == p;
                assert(all[k] == p);
            }
        }
        assert forall|p: Seq<char>| #[trigger] all.contains(p) implies exists|i: int|
            0 <= i < n && release::declares(manifest, (#[trigger] release::crate_of(i)).0) && p
                == release::patch_of(i, root, platform) by {
            let k = choose|k: int| 0 <= k < all.len() && all[k] == p;
            if k < before.len() {
                assert(before[k] == p);
                assert(before.contains(p));
                let i = choose|i: int|
                    0 <= i < n - 1 && release::declares(manifest, (#[trigger] release::crate_of(
                        i,
                    )).0) && p == release::patch_of(i, root, platform);
                assert(release::declares(manifest, release::crate_of(i).0));
            } else {
                assert(declared && p == last);
                assert(release::declares(manifest, release::crate_of(n - 1).0));
            }
        }
    }
}

/// Whether `args` has the `i`th of `patches` behind its own flag, from the
/// place `from` on.
pub open spec fn gives(args: Seq<Seq<char>>, from: int, patches: Seq<Seq<char>>, i: int) -> bool {
    args[from + 2 * i] == seq!['-', '-', 'c', 'o', 'n', 'f', 'i', 'g'] && args[from + 2 * i + 1]
        == patches[i]
}

proof fn lemma_configured(patches: Seq<Seq<char>>, n: int)
    requires
        0 <= n <= patches.len(),
    ensures
        release::configured(patches, n).len() == 2 * n,
        forall|i: int|
            0 <= i < n ==> #[trigger] gives(release::configured(patches, n), 0, patches, i),
    decreases n,
{
    if n > 0 {
        lemma_configured(patches, n - 1);
        let before = release::configured(patches, n - 1);
        let all = release::configured(patches, n);
        reveal_strlit("--config");
        let flag = "--config"@;
        assert(flag =~= seq!['-', '-', 'c', 'o', 'n', 'f', 'i', 'g']);
        assert(all == before.push(flag).push(patches[n - 1]));
        assert forall|i: int| 0 <= i < n implies #[trigger] gives(all, 0, patches, i) by {
            if i < n - 1 {
                assert(gives(before, 0, patches, i));
                assert(all[2 * i] == before[2 * i]);
                assert(all[2 * i + 1] == before[2 * i + 1]);
            } else {
                assert(before.push(flag)[2 * i] == flag);
                assert(all[2 * i] == before.push(flag)[2 * i]);
            }
        }
    }
}

/// A trial publishes nothing: it is run with `--dry-run`, for the one crate,
/// and with a patch for each crate of the release that its manifest depends
/// on, and for no other.
pub proof fn lemma_trial_is_patched(
    name: Seq<char>,
    manifest: Seq<char>,
    root: Seq<char>,
    platform: Platform,
)
    ensures
        ({
            let args = release::dry_run_of(name, manifest, root, platform);
            let patches = release::patches_among(
                manifest,
                root,
                platform,
                release::CRATE_COUNT as int,
            );
            &&& args.len() == 7 + 2 * patches.len()
            &&& args[0] == "publish"@ && args[1] == "--dry-run"@
            &&& args[5] == "-p"@ && args[6] == name
            &&& forall|i: int| 0 <= i < patches.len() ==> #[trigger] gives(args, 7, patches, i)
            &&& forall|i: int|
                0 <= i < release::CRATE_COUNT && release::declares(
                    manifest,
                    (#[trigger] release::crate_of(i)).0,
                ) ==> patches.contains(release::patch_of(i, root, platform))
            &&& forall|p: Seq<char>| #[trigger]
                patches.contains(p) ==> exists|i: int|
                    0 <= i < release::CRATE_COUNT && release::declares(
                        manifest,
                        (#[trigger] release::crate_of(i)).0,
                    ) && p == release::patch_of(i, root, platform)
        }),
{
    let n = release::CRATE_COUNT as int;
    let patches = release::patches_among(manifest, root, platform, n);
    lemma_patches(manifest, root, platform, n);
    lemma_configured(patches, patches.len() as int);
    let args = release::dry_run_of(name, manifest, root, platform);
    let given = release::configured(patches, patches.len() as int);
    assert(args == release::dry_run_base(name) + given);
    assert(release::dry_run_base(name).len() == 7);
    assert forall|i: int| 0 <= i < patches.len() implies #[trigger] gives(args, 7, patches, i) by {
        assert(gives(given, 0, patches, i));
        assert(args[7 + 2 * i] == given[2 * i]);
        assert(args[7 + 2 * i + 1] == given[2 * i + 1]);
    }
}

} // verus!
