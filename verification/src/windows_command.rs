//! Command lines and environments for Windows processes.
//!
//! A Windows process gets one command line and takes it apart by itself, so
//! arguments have to be written such that they come out as they were. Batch
//! files go through the command interpreter, which needs a stricter form.

use vstd::prelude::*;

use crate::text;

verus! {

/// A backslash, and below it a quotation mark, a space, a tab and a percent
/// sign.
pub const BACKSLASH: u16 = 92;

pub const QUOTE: u16 = 34;

pub const SPACE: u16 = 32;

pub const TAB: u16 = 9;

pub const PERCENT: u16 = 37;

/// An equals sign.
pub const EQUALS: u16 = 61;

/// A character in UTF-16.
pub open spec fn char_units(c: char) -> Seq<u16> {
    let n = c as int;
    if n < 0x10000 {
        seq![n as u16]
    } else {
        seq![(0xd800 + (n - 0x10000) / 0x400) as u16, (0xdc00 + (n - 0x10000) % 0x400) as u16]
    }
}

/// The first `n` characters of `s` in UTF-16.
pub open spec fn units_to(s: Seq<char>, n: int) -> Seq<u16>
    decreases n,
{
    if n <= 0 {
        seq![]
    } else {
        units_to(s, n - 1) + char_units(s[n - 1])
    }
}

/// A text in UTF-16.
pub open spec fn units_of(s: Seq<char>) -> Seq<u16> {
    units_to(s, s.len() as int)
}

fn push_char(out: &mut Vec<u16>, c: char)
    ensures
        final(out)@ == old(out)@ + char_units(c),
{
    let ghost before = out@;
    let n: u32 = c as u32;
    if n < 0x10000 {
        out.push(n as u16);
    } else {
        out.push((0xd800 + (n - 0x10000) / 0x400) as u16);
        out.push((0xdc00 + (n - 0x10000) % 0x400) as u16);
    }
    assert(out@ =~= before + char_units(c));
}

/// A text in UTF-16.
pub fn utf16(s: &str) -> (out: Vec<u16>)
    ensures
        out@ == units_of(s@),
{
    let chars = text::chars_of(s);
    let mut out: Vec<u16> = Vec::new();
    let mut i: usize = 0;
    while i < chars.len()
        invariant
            i <= chars@.len(),
            chars@ == s@,
            out@ == units_to(s@, i as int),
        decreases chars.len() - i,
    {
        push_char(&mut out, chars[i]);
        i += 1;
    }
    out
}

/// A unit a number of times.
pub open spec fn copies(unit: u16, n: nat) -> Seq<u16> {
    Seq::new(n, |i: int| unit)
}

pub(crate) fn push_copies(out: &mut Vec<u16>, unit: u16, n: usize)
    ensures
        final(out)@ == old(out)@ + copies(unit, n as nat),
{
    let ghost before = out@;
    let mut i: usize = 0;
    while i < n
        invariant
            i <= n,
            out@ =~= before + copies(unit, i as nat),
        decreases n - i,
    {
        out.push(unit);
        i += 1;
    }
}

pub(crate) fn push_units(out: &mut Vec<u16>, more: &Vec<u16>)
    ensures
        final(out)@ == old(out)@ + more@,
{
    let ghost before = out@;
    let mut i: usize = 0;
    while i < more.len()
        invariant
            i <= more@.len(),
            out@ =~= before + more@.take(i as int),
        decreases more.len() - i,
    {
        out.push(more[i]);
        i += 1;
    }
    assert(more@.take(i as int) =~= more@);
}

/// How many backslashes stand at `i`.
pub open spec fn run_at(u: Seq<u16>, i: int) -> nat
    decreases u.len() - i,
{
    if 0 <= i < u.len() && u[i] == BACKSLASH {
        1 + run_at(u, i + 1)
    } else {
        0
    }
}

/// A run of backslashes ends in the text, before something else.
pub proof fn lemma_run(u: Seq<u16>, i: int)
    requires
        0 <= i <= u.len(),
    ensures
        i + run_at(u, i) <= u.len(),
        i + run_at(u, i) < u.len() ==> u[i + run_at(u, i)] != BACKSLASH,
        forall|k: int| i <= k < i + run_at(u, i) ==> u[k] == BACKSLASH,
    decreases u.len() - i,
{
    if i < u.len() && u[i] == BACKSLASH {
        lemma_run(u, i + 1);
    }
}

pub(crate) fn count_run(u: &Vec<u16>, from: usize) -> (r: usize)
    requires
        from <= u@.len(),
    ensures
        r == run_at(u@, from as int),
        from + r <= u@.len(),
{
    let mut n: usize = 0;
    while from + n < u.len() && u[from + n] == BACKSLASH
        invariant
            from + n <= u@.len(),
            u@.len() == u.len(),
            run_at(u@, from as int) == n + run_at(u@, from + n),
        decreases u.len() - from - n,
    {
        n += 1;
    }
    n
}

/// Whether an argument needs quotation marks: it is empty or holds a space
/// or a tab.
pub open spec fn needs_quotes(u: Seq<u16>) -> bool {
    u.len() == 0 || u.contains(SPACE) || u.contains(TAB)
}

/// An argument from `i` on, as a command line writes it: the backslashes
/// before a quotation mark are doubled, and so are those before the end of a
/// quoted argument; a quotation mark gets a backslash of its own.
pub open spec fn written_from(u: Seq<u16>, quoted: bool, i: int) -> Seq<u16>
    decreases u.len() - i,
    via written_from_decreases
{
    let r = run_at(u, i);
    let j = i + r;
    if i < 0 || j >= u.len() {
        if quoted {
            copies(BACKSLASH, 2 * r).push(QUOTE)
        } else {
            copies(BACKSLASH, r)
        }
    } else if u[j] == QUOTE {
        copies(BACKSLASH, 2 * r + 1).push(QUOTE) + written_from(u, quoted, j + 1)
    } else {
        copies(BACKSLASH, r).push(u[j]) + written_from(u, quoted, j + 1)
    }
}

#[via_fn]
proof fn written_from_decreases(u: Seq<u16>, quoted: bool, i: int) {
}

/// An argument as a command line writes it.
pub open spec fn written(u: Seq<u16>) -> Seq<u16> {
    if needs_quotes(u) {
        seq![QUOTE] + written_from(u, true, 0)
    } else {
        written_from(u, false, 0)
    }
}

pub(crate) fn holds_unit(u: &Vec<u16>, unit: u16) -> (r: bool)
    ensures
        r == u@.contains(unit),
{
    let mut i: usize = 0;
    while i < u.len()
        invariant
            i <= u@.len(),
            forall|k: int| 0 <= k < i ==> u@[k] != unit,
        decreases u.len() - i,
    {
        if u[i] == unit {
            return true;
        }
        i += 1;
    }
    false
}

/// Whether `s` holds a character of value zero.
pub open spec fn has_nul(s: Seq<char>) -> bool {
    s.contains('\0')
}

pub(crate) fn ensure_no_nul(s: &str) -> (r: Result<(), String>)
    ensures
        r is Err <==> has_nul(s@),
        r matches Err(m) ==> m@ == "nul byte found in provided data"@,
{
    if text::contains_char(s, '\0') {
        Err("nul byte found in provided data".to_owned())
    } else {
        Ok(())
    }
}

/// Appends an argument to a command line.
pub fn append_command_arg(line: &mut Vec<u16>, arg: &str) -> (r: Result<(), String>)
    ensures
        r is Err <==> has_nul(arg@),
        r matches Err(m) ==> m@ == "nul byte found in provided data"@ && final(line)@ == old(
            line,
        )@,
        r is Ok ==> final(line)@ == old(line)@ + written(units_of(arg@)),
{
    match ensure_no_nul(arg) {
        Err(m) => {
            return Err(m);
        },
        Ok(_) => {},
    }
    let u = utf16(arg);
    let ghost start = line@;
    let quoted = u.len() == 0 || holds_unit(&u, SPACE) || holds_unit(&u, TAB);
    if quoted {
        line.push(QUOTE);
        assert(start + (seq![QUOTE] + written_from(u@, true, 0)) =~= line@ + written_from(
            u@,
            quoted,
            0,
        ));
    }
    assert(start + written(u@) == line@ + written_from(u@, quoted, 0));
    let mut i: usize = 0;
    let mut done = false;
    while !done
        invariant
            i <= u@.len(),
            u@ == units_of(arg@),
            quoted == needs_quotes(u@),
            !done ==> start + written(u@) == line@ + written_from(u@, quoted, i as int),
            done ==> start + written(u@) == line@,
        decreases
                if done {
                    0int
                } else {
                    u@.len() + 1 - i
                },
    {
        let ghost before = line@;
        let r = count_run(&u, i);
        let j = i + r;
        push_copies(line, BACKSLASH, r);
        if j >= u.len() {
            if quoted {
                push_copies(line, BACKSLASH, r);
                line.push(QUOTE);
                assert(line@ =~= before + copies(BACKSLASH, (2 * r) as nat).push(QUOTE));
            }
            done = true;
        } else {
            if u[j] == QUOTE {
                push_copies(line, BACKSLASH, r);
                line.push(BACKSLASH);
                line.push(QUOTE);
                assert(line@ + written_from(u@, quoted, j + 1) =~= before + (copies(
                    BACKSLASH,
                    (2 * r + 1) as nat,
                ).push(QUOTE) + written_from(u@, quoted, j + 1)));
            } else {
                line.push(u[j]);
                assert(line@ + written_from(u@, quoted, j + 1) =~= before + (copies(
                    BACKSLASH,
                    r as nat,
                ).push(u@[j as int]) + written_from(u@, quoted, j + 1)));
            }
            i = j + 1;
        }
    }
    Ok(())
}

/// The first `n` arguments as a command line writes them, each with a space
/// in front.
pub open spec fn arguments_to(args: Seq<Seq<char>>, n: int) -> Seq<u16>
    decreases n,
{
    if n <= 0 {
        seq![]
    } else {
        arguments_to(args, n - 1).push(SPACE) + written(units_of(args[n - 1]))
    }
}

/// Whether one of the texts holds a character of value zero.
pub open spec fn some_nul(args: Seq<Seq<char>>) -> bool {
    exists|i: int| 0 <= i < args.len() && has_nul(#[trigger] args[i])
}

/// A command line.
pub open spec fn command_line_of(program: Seq<char>, args: Seq<Seq<char>>) -> Result<
    Seq<u16>,
    Seq<char>,
> {
    if has_nul(program) {
        Err("nul byte found in provided data"@)
    } else if program.contains('"') {
        Err("program paths may not contain quotes"@)
    } else if some_nul(args) {
        Err("nul byte found in provided data"@)
    } else {
        Ok(
            seq![QUOTE] + units_of(program) + seq![QUOTE] + arguments_to(
                args,
                args.len() as int,
            ),
        )
    }
}

/// The view of units or of a message.
pub open spec fn units_view(r: Result<Vec<u16>, String>) -> Result<Seq<u16>, Seq<char>> {
    match r {
        Ok(units) => Ok(units@),
        Err(m) => Err(m@),
    }
}

/// A command line: the program in quotation marks, then the arguments.
pub fn make_command_line(program: &str, args: &[String]) -> (r: Result<Vec<u16>, String>)
    ensures
        units_view(r) == command_line_of(program@, text::texts(args@)),
{
    match ensure_no_nul(program) {
        Err(m) => {
            return Err(m);
        },
        Ok(_) => {},
    }
    if text::contains_char(program, '"') {
        return Err("program paths may not contain quotes".to_owned());
    }
    let ghost all = text::texts(args@);
    let ghost head = seq![QUOTE] + units_of(program@) + seq![QUOTE];
    let mut line: Vec<u16> = Vec::new();
    line.push(QUOTE);
    push_units(&mut line, &utf16(program));
    line.push(QUOTE);
    assert(line@ =~= head);
    assert(head + arguments_to(all, 0) =~= head);
    let mut i: usize = 0;
    while i < args.len()
        invariant
            i <= args@.len(),
            all == text::texts(args@),
            !has_nul(program@),
            !program@.contains('"'),
            forall|k: int| 0 <= k < i ==> !has_nul(#[trigger] all[k]),
            line@ == head + arguments_to(all, i as int),
        decreases args.len() - i,
    {
        assert(all[i as int] == args@[i as int]@);
        line.push(SPACE);
        match append_command_arg(&mut line, args[i].as_str()) {
            Err(m) => {
                return Err(m);
            },
            Ok(_) => {},
        }
        assert(line@ =~= head + arguments_to(all, i + 1));
        i += 1;
    }
    assert(all.len() == args@.len());
    Ok(line)
}

/// What a process makes of the command line from `i` on, up to the end of an
/// argument, and where that is. Backslashes count only before a quotation
/// mark: each two are one, and one that is left makes the mark a character.
/// Space ends an argument outside quotation marks.
pub open spec fn read_from(u: Seq<u16>, i: int, quoted: bool) -> (Seq<u16>, int)
    decreases u.len() - i,
    via read_from_decreases
{
    let r = run_at(u, i);
    let j = i + r;
    if i < 0 || i >= u.len() {
        (seq![], i)
    } else if j < u.len() && u[j] == QUOTE {
        if r % 2 == 0 {
            let rest = read_from(u, j + 1, !quoted);
            (copies(BACKSLASH, r / 2) + rest.0, rest.1)
        } else {
            let rest = read_from(u, j + 1, quoted);
            (copies(BACKSLASH, r / 2).push(QUOTE) + rest.0, rest.1)
        }
    } else if r > 0 {
        let rest = read_from(u, j, quoted);
        (copies(BACKSLASH, r) + rest.0, rest.1)
    } else if !quoted && (u[i] == SPACE || u[i] == TAB) {
        (seq![], i)
    } else {
        let rest = read_from(u, i + 1, quoted);
        (seq![u[i]] + rest.0, rest.1)
    }
}

#[via_fn]
proof fn read_from_decreases(u: Seq<u16>, i: int, quoted: bool) {
    if 0 <= i <= u.len() {
        lemma_run(u, i);
    }
}

proof fn lemma_run_is(u: Seq<u16>, i: int, n: nat)
    requires
        0 <= i,
        i + n <= u.len(),
        forall|k: int| i <= k < i + n ==> u[k] == BACKSLASH,
        i + n < u.len() ==> u[i + n] != BACKSLASH,
    ensures
        run_at(u, i) == n,
    decreases n,
{
    if n > 0 {
        assert(u[i] == BACKSLASH);
        lemma_run_is(u, i + 1, (n - 1) as nat);
    }
}

proof fn lemma_reads_back(arg: Seq<u16>, line: Seq<u16>, quoted: bool, i: int, at: int)
    requires
        0 <= i <= arg.len(),
        0 <= at,
        at + written_from(arg, quoted, i).len() <= line.len(),
        line.subrange(at, at + written_from(arg, quoted, i).len()) == written_from(arg, quoted, i),
        at + written_from(arg, quoted, i).len() < line.len() ==> line[at + written_from(
            arg,
            quoted,
            i,
        ).len()] == SPACE,
        !quoted ==> !arg.contains(SPACE) && !arg.contains(TAB),
    ensures
        read_from(line, at, quoted) == (
            arg.skip(i),
            at + written_from(arg, quoted, i).len() as int,
        ),
    decreases arg.len() - i,
{
    let w = written_from(arg, quoted, i);
    let part = line.subrange(at, at + w.len());
    let r = run_at(arg, i);
    let j = i + r;
    lemma_run(arg, i);
    assert forall|k: int| 0 <= k < w.len() implies #[trigger] w[k] == line[at + k] by {
        assert(part[k] == line[at + k]);
    }
    if j >= arg.len() {
        if quoted {
            let n = (2 * r) as nat;
            assert(w == copies(BACKSLASH, n).push(QUOTE));
            assert(w[n as int] == QUOTE);
            assert forall|k: int| at <= k < at + n implies line[k] == BACKSLASH by {
                assert(w[k - at] == BACKSLASH);
            }
            assert(line[at + n] == QUOTE);
            lemma_run_is(line, at, n);
            let end = at + n + 1;
            if end < line.len() {
                assert(line[end] == SPACE);
                lemma_run_is(line, end, 0);
            }
            assert(read_from(line, end, false) == (Seq::<u16>::empty(), end));
            assert(copies(BACKSLASH, r) + Seq::<u16>::empty() =~= arg.skip(i));
            assert(n / 2 == r);
        } else {
            assert(w == copies(BACKSLASH, r));
            assert forall|k: int| at <= k < at + r implies line[k] == BACKSLASH by {
                assert(w[k - at] == BACKSLASH);
            }
            let end = at + r;
            lemma_run_is(line, at, r);
            if end < line.len() {
                assert(line[end] == SPACE);
                lemma_run_is(line, end, 0);
            }
            assert(read_from(line, end, false) == (Seq::<u16>::empty(), end));
            assert(copies(BACKSLASH, r) + Seq::<u16>::empty() =~= arg.skip(i));
            if r == 0 {
                assert(arg.skip(i) =~= seq![]);
            }
        }
    } else {
        let rest = written_from(arg, quoted, j + 1);
        if arg[j] == QUOTE {
            let n = (2 * r + 1) as nat;
            assert(w == copies(BACKSLASH, n).push(QUOTE) + rest);
            assert(w[n as int] == QUOTE);
            assert forall|k: int| at <= k < at + n implies line[k] == BACKSLASH by {
                assert(w[k - at] == BACKSLASH);
            }
            assert(line[at + n] == QUOTE);
            lemma_run_is(line, at, n);
            let next = at + n + 1;
            assert(line.subrange(next, next + rest.len()) =~= rest) by {
                assert forall|k: int| 0 <= k < rest.len() implies line[next + k] == rest[k] by {
                    assert(w[n + 1 + k] == rest[k]);
                }
            }
            lemma_reads_back(arg, line, quoted, j + 1, next);
            assert(n / 2 == r);
            assert(n % 2 == 1);
            assert(copies(BACKSLASH, r).push(QUOTE) + arg.skip(j + 1) =~= arg.skip(i));
        } else {
            assert(w == copies(BACKSLASH, r).push(arg[j]) + rest);
            assert(w[r as int] == arg[j]);
            assert forall|k: int| at <= k < at + r implies line[k] == BACKSLASH by {
                assert(w[k - at] == BACKSLASH);
            }
            assert(line[at + r] == arg[j]);
            lemma_run_is(line, at, r);
            lemma_run_is(line, at + r, 0);
            let next = at + r + 1;
            assert(line.subrange(next, next + rest.len()) =~= rest) by {
                assert forall|k: int| 0 <= k < rest.len() implies line[next + k] == rest[k] by {
                    assert(w[r + 1 + k] == rest[k]);
                }
            }
            lemma_reads_back(arg, line, quoted, j + 1, next);
            assert(arg.contains(arg[j]));
            let tail = read_from(line, at + r, quoted);
            assert(tail.0 =~= seq![arg[j]] + arg.skip(j + 1));
            assert(copies(BACKSLASH, r) + tail.0 =~= arg.skip(i));
            if r == 0 {
                assert(tail.0 =~= arg.skip(i));
            }
        }
    }
}

/// Arguments reach the process as they are: whatever stands in an argument,
/// the process reads exactly that from the place where it was written, up to
/// the space before the next one or the end of the line.
pub proof fn lemma_argument_reads_back(arg: Seq<u16>, line: Seq<u16>, at: int)
    requires
        0 <= at,
        at + written(arg).len() <= line.len(),
        line.subrange(at, at + written(arg).len()) == written(arg),
        at + written(arg).len() < line.len() ==> line[at + written(arg).len()] == SPACE,
    ensures
        read_from(line, at, false) == (arg, at + written(arg).len() as int),
{
    let w = written(arg);
    if needs_quotes(arg) {
        let inner = written_from(arg, true, 0);
        assert(line.subrange(at, at + w.len())[0] == QUOTE);
        assert(line[at] == QUOTE);
        lemma_run_is(line, at, 0);
        assert(line.subrange(at + 1, at + 1 + inner.len()) =~= inner) by {
            assert forall|k: int| 0 <= k < inner.len() implies line[at + 1 + k] == inner[k] by {
                assert(line.subrange(at, at + w.len())[1 + k] == w[1 + k]);
            }
        }
        lemma_reads_back(arg, line, true, 0, at + 1);
        assert(copies(BACKSLASH, 0) + arg.skip(0) =~= arg);
    } else {
        lemma_reads_back(arg, line, false, 0, at);
        assert(arg.skip(0) =~= arg);
    }
}

} // verus!
