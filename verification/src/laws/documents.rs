//! What is read of a settings document.

use vstd::prelude::*;

use crate::json;
use crate::json::{uncommented, Scan};

verus! {

proof fn lemma_shift(a: Seq<char>, b: Seq<char>, i: int, scan: Scan)
    requires
        0 <= i,
    ensures
        uncommented(a + b, a.len() + i, scan) == uncommented(b, i, scan),
    decreases b.len() - i,
{
    let s = a + b;
    if i < b.len() {
        assert(s[a.len() + i] == b[i]);
        if i + 1 < b.len() {
            assert(s[a.len() + i + 1] == b[i + 1]);
            lemma_shift(a, b, i + 2, Scan::Quoted);
            lemma_shift(a, b, i + 2, Scan::Comment);
        }
        lemma_shift(a, b, i + 1, Scan::Quoted);
        lemma_shift(a, b, i + 1, Scan::Comment);
        lemma_shift(a, b, i + 1, Scan::Code);
    }
}

proof fn lemma_code_run(a: Seq<char>, t: Seq<char>, i: int)
    requires
        0 <= i <= a.len(),
        forall|k: int| 0 <= k < a.len() ==> #[trigger] a[k] != '"' && a[k] != '/',
    ensures
        uncommented(a + t, i, Scan::Code) == a.skip(i) + uncommented(
            a + t,
            a.len() as int,
            Scan::Code,
        ),
    decreases a.len() - i,
{
    let end = uncommented(a + t, a.len() as int, Scan::Code);
    if i < a.len() {
        lemma_code_run(a, t, i + 1);
        assert((a + t)[i] == a[i]);
        assert(seq![a[i]] + (a.skip(i + 1) + end) =~= a.skip(i) + end);
    } else {
        assert(a.skip(i) + end =~= end);
    }
}

proof fn lemma_comment_run(s: Seq<char>, i: int, n: int)
    requires
        0 <= i <= n < s.len(),
        forall|k: int| i <= k < n ==> #[trigger] s[k] != '\n',
        s[n] == '\n',
    ensures
        uncommented(s, i, Scan::Comment) == seq!['\n'] + uncommented(s, n + 1, Scan::Code),
    decreases n - i,
{
    if i < n {
        lemma_comment_run(s, i + 1, n);
    }
}

proof fn lemma_quoted_run(s: Seq<char>, i: int, n: int)
    requires
        0 <= i <= n < s.len(),
        forall|k: int| i <= k < n ==> #[trigger] s[k] != '"' && s[k] != '\\',
        s[n] == '"',
    ensures
        uncommented(s, i, Scan::Quoted) == s.subrange(i, n + 1) + uncommented(
            s,
            n + 1,
            Scan::Code,
        ),
    decreases n - i,
{
    let end = uncommented(s, n + 1, Scan::Code);
    if i < n {
        lemma_quoted_run(s, i + 1, n);
        assert(seq![s[i]] + (s.subrange(i + 1, n + 1) + end) =~= s.subrange(i, n + 1) + end);
    } else {
        assert(seq![s[i]] + end =~= s.subrange(i, n + 1) + end);
    }
}

/// A comment goes up to the end of its line; what stands before and behind it
/// stays.
pub proof fn lemma_comment_goes(a: Seq<char>, comment: Seq<char>, rest: Seq<char>)
    requires
        forall|k: int| 0 <= k < a.len() ==> #[trigger] a[k] != '"' && a[k] != '/',
        !comment.contains('\n'),
    ensures
        uncommented(a + seq!['/', '/'] + comment + seq!['\n'] + rest, 0, Scan::Code) == a
            + seq!['\n'] + uncommented(rest, 0, Scan::Code),
{
    let tail = seq!['/', '/'] + comment + seq!['\n'] + rest;
    let s = a + tail;
    assert(s =~= a + seq!['/', '/'] + comment + seq!['\n'] + rest);
    lemma_code_run(a, tail, 0);
    lemma_shift(a, tail, 0, Scan::Code);
    assert(a.skip(0) =~= a);
    let n = 2 + comment.len() as int;
    assert(tail[0] == '/' && tail[1] == '/');
    assert(tail[n] == '\n');
    assert forall|k: int| 2 <= k < n implies #[trigger] tail[k] != '\n' by {
        assert(tail[k] == comment[k - 2]);
        assert(comment.contains(comment[k - 2]));
    }
    lemma_comment_run(tail, 2, n);
    let head = seq!['/', '/'] + comment + seq!['\n'];
    assert(tail == head + rest);
    lemma_shift(head, rest, 0, Scan::Code);
    assert(a + (seq!['\n'] + uncommented(rest, 0, Scan::Code)) =~= a + seq!['\n'] + uncommented(
        rest,
        0,
        Scan::Code,
    ));
}

/// A quoted text stays as it is, whatever slashes it holds.
pub proof fn lemma_quoted_text_stays(a: Seq<char>, quoted: Seq<char>, rest: Seq<char>)
    requires
        forall|k: int| 0 <= k < a.len() ==> #[trigger] a[k] != '"' && a[k] != '/',
        forall|k: int| 0 <= k < quoted.len() ==> #[trigger] quoted[k] != '"' && quoted[k] != '\\',
    ensures
        uncommented(a + seq!['"'] + quoted + seq!['"'] + rest, 0, Scan::Code) == a + seq!['"']
            + quoted + seq!['"'] + uncommented(rest, 0, Scan::Code),
{
    let tail = seq!['"'] + quoted + seq!['"'] + rest;
    let s = a + tail;
    assert(s =~= a + seq!['"'] + quoted + seq!['"'] + rest);
    lemma_code_run(a, tail, 0);
    lemma_shift(a, tail, 0, Scan::Code);
    assert(a.skip(0) =~= a);
    let n = 1 + quoted.len() as int;
    assert(tail[0] == '"' && tail[n] == '"');
    assert forall|k: int| 1 <= k < n implies #[trigger] tail[k] != '"' && tail[k] != '\\' by {
        assert(tail[k] == quoted[k - 1]);
    }
    lemma_quoted_run(tail, 1, n);
    let head = seq!['"'] + quoted + seq!['"'];
    assert(tail == head + rest);
    lemma_shift(head, rest, 0, Scan::Code);
    let end = uncommented(rest, 0, Scan::Code);
    assert(tail.subrange(1, n + 1) =~= quoted + seq!['"']);
    assert(a + (seq!['"'] + (quoted + seq!['"'] + end)) =~= a + seq!['"'] + quoted + seq!['"']
        + end);
}

proof fn lemma_no_slash(s: Seq<char>, i: int, scan: Scan)
    requires
        0 <= i <= s.len(),
        !s.contains('/'),
        scan != Scan::Comment,
    ensures
        uncommented(s, i, scan) == s.skip(i),
    decreases s.len() - i,
{
    if i < s.len() {
        assert(s.contains(s[i]));
        lemma_no_slash(s, i + 1, Scan::Code);
        lemma_no_slash(s, i + 1, Scan::Quoted);
        assert(seq![s[i]] + s.skip(i + 1) =~= s.skip(i));
        if i + 1 < s.len() {
            lemma_no_slash(s, i + 2, Scan::Quoted);
            assert(seq![s[i], s[i + 1]] + s.skip(i + 2) =~= s.skip(i));
        }
    } else {
        assert(s.skip(i) =~= seq![]);
    }
}

/// A text that can be read is taken as it stands; one that cannot is taken
/// without its comments, and refused only where that cannot be read either.
pub proof fn lemma_document_is_read(s: Seq<char>)
    ensures
        json::json_read(s) is Ok ==> json::document_of(s) == Ok::<Seq<char>, Seq<char>>(s),
        json::document_of(s) matches Ok(d) ==> json::json_read(d) is Ok,
        json::document_of(s) is Err <==> json::json_read(s) is Err && json::json_read(
            uncommented(s, 0, Scan::Code),
        ) is Err,
        json::json_read(s) is Err && !s.contains('/') ==> json::document_of(s) is Err,
{
    if !s.contains('/') {
        lemma_no_slash(s, 0, Scan::Code);
        assert(s.skip(0) =~= s);
    }
}

/// What a key stands for is a value beside that key, and the first one; a key
/// that is not there stands for nothing.
pub proof fn lemma_key_reads(fields: Seq<(Seq<char>, Seq<char>)>, key: Seq<char>, i: int)
    requires
        0 <= i,
    ensures
        match json::member_from(fields, key, i) {
            Some(value) => exists|k: int|
                i <= k < fields.len() && #[trigger] fields[k] == (key, value) && forall|j: int|
                    i <= j < k ==> (#[trigger] fields[j]).0 != key,
            None => forall|k: int| i <= k < fields.len() ==> (#[trigger] fields[k]).0 != key,
        },
    decreases fields.len() - i,
{
    if i < fields.len() {
        if fields[i].0 == key {
            assert(fields[i] == (key, fields[i].1));
        } else {
            lemma_key_reads(fields, key, i + 1);
            if let Some(value) = json::member_from(fields, key, i + 1) {
                let k = choose|k: int|
                    i + 1 <= k < fields.len() && #[trigger] fields[k] == (key, value) && forall|
                        j: int,
                    |
                        i + 1 <= j < k ==> (#[trigger] fields[j]).0 != key;
                assert(fields[k] == (key, value));
            }
        }
    }
}

/// The strings of a list are those of its items that are strings, and no
/// other.
pub proof fn lemma_strings_are_read(items: Seq<Seq<char>>, n: int)
    requires
        0 <= n <= items.len(),
    ensures
        forall|i: int|
            0 <= i < n && json::string_in(#[trigger] items[i]) is Some
                ==> json::strings_among(items, n).contains(json::string_in(items[i])->0),
        forall|t: Seq<char>| #[trigger]
            json::strings_among(items, n).contains(t) ==> exists|i: int|
                0 <= i < n && json::string_in(#[trigger] items[i]) == Some(t),
        (forall|i: int| 0 <= i < n ==> json::string_in(#[trigger] items[i]) is Some)
            ==> json::strings_among(items, n) == Seq::new(
            n as nat,
            |i: int| json::string_in(items[i])->0,
        ),
    decreases n,
{
    if n > 0 {
        lemma_strings_are_read(items, n - 1);
        let before = json::strings_among(items, n - 1);
        let all = json::strings_among(items, n);
        assert forall|i: int| 0 <= i < n && json::string_in(#[trigger] items[i]) is Some implies all.contains(
        json::string_in(items[i])->0) by {
            let t = json::string_in(items[i])->0;
            if i == n - 1 {
                assert(all[all.len() - 1] == t);
            } else {
                let k = choose|k: int| 0 <= k < before.len() && before[k] == t;
                assert(all[k] == t);
            }
        }
        assert forall|t: Seq<char>| #[trigger] all.contains(t) implies exists|i: int|
            0 <= i < n && json::string_in(#[trigger] items[i]) == Some(t) by {
            let k = choose|k: int| 0 <= k < all.len() && all[k] == t;
            if k < before.len() {
                assert(before[k] == t);
                assert(before.contains(t));
                let i = choose|i: int| 0 <= i < n - 1 && json::string_in(#[trigger] items[i])
                    == Some(t);
                assert(json::string_in(items[i]) == Some(t));
            } else {
                assert(json::string_in(items[n - 1]) == Some(t));
            }
        }
        if forall|i: int| 0 <= i < n ==> json::string_in(#[trigger] items[i]) is Some {
            assert(json::string_in(items[n - 1]) is Some);
            assert(all =~= Seq::new(n as nat, |i: int| json::string_in(items[i])->0));
        }
    } else {
        assert(json::strings_among(items, n) =~= Seq::new(
            n as nat,
            |i: int| json::string_in(items[i])->0,
        ));
    }
}

} // verus!
