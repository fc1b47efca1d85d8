//! What a built package says of itself is read back by the package manager.
use vstd::prelude::*;

use crate::pkg_utils;
use crate::recipe;
use crate::text;

verus! {

// ---------------------------------------------------------------------------
// Lines

/// Whether text is a line of its own: it holds no line feed.
pub open spec fn is_unbroken(s: Seq<char>) -> bool {
    forall|i: int| 0 <= i < s.len() ==> #[trigger] s[i] != '\n'
}

/// Lines as they are read: each without a carriage return at its end.
pub open spec fn without_returns(lines: Seq<Seq<char>>) -> Seq<Seq<char>> {
    lines.map_values(|l: Seq<char>| text::without_return(l))
}

proof fn lines_of_first(line: Seq<char>, rest: Seq<char>)
    requires
        is_unbroken(line),
    ensures
        text::lines_of(line + "\n"@ + rest) == seq![text::without_return(line)] + text::lines_of(
            rest,
        ),
{
    reveal_strlit("\n");
    let s = line + "\n"@ + rest;
    assert(s[line.len() as int] == '\n');
    text::first_index_is(s, '\n', line.len() as int);
    assert(s.take(line.len() as int) =~= line);
    assert(s.skip(line.len() as int + 1) =~= rest);
}

proof fn text_of_first(line: Seq<char>, rest: Seq<Seq<char>>)
    ensures
        recipe::text_of(seq![line] + rest) == line + "\n"@ + recipe::text_of(rest),
    decreases rest.len(),
{
    let all = seq![line] + rest;
    if rest.len() == 0 {
        assert(all.drop_last() =~= seq![]);
        assert(recipe::text_of(all.drop_last()) =~= seq![]);
        assert(recipe::text_of(rest) =~= seq![]);
        assert(recipe::text_of(all) =~= line + "\n"@ + recipe::text_of(rest));
    } else {
        text_of_first(line, rest.drop_last());
        assert(all.drop_last() =~= seq![line] + rest.drop_last());
        assert(all.last() == rest.last());
        assert(recipe::text_of(all) =~= line + "\n"@ + recipe::text_of(rest));
    }
}

/// The lines of a text that was written line by line are those lines, but for
/// a carriage return at the end of a line.
pub proof fn lines_read_back(lines: Seq<Seq<char>>)
    requires
        forall|i: int| 0 <= i < lines.len() ==> is_unbroken(#[trigger] lines[i]),
    ensures
        text::lines_of(recipe::text_of(lines)) == without_returns(lines),
    decreases lines.len(),
{
    if lines.len() == 0 {
        assert(recipe::text_of(lines) =~= seq![]);
        assert(text::lines_of(recipe::text_of(lines)) =~= without_returns(lines));
    } else {
        let rest = lines.drop_first();
        assert(lines =~= seq![lines[0]] + rest);
        assert forall|i: int| 0 <= i < rest.len() implies is_unbroken(#[trigger] rest[i]) by {
            assert(rest[i] == lines[i + 1]);
        }
        lines_read_back(rest);
        text_of_first(lines[0], rest);
        lines_of_first(lines[0], recipe::text_of(rest));
        assert(without_returns(lines) =~= seq![text::without_return(lines[0])] + without_returns(
            rest,
        ));
    }
}

// ---------------------------------------------------------------------------
// White space

proof fn trimmed_after_space(v: Seq<char>)
    ensures
        text::trimmed(" "@ + v) == text::trimmed(v),
{
    reveal_strlit(" ");
    let s = " "@ + v;
    assert(s[0] == ' ');
    assert(s.drop_first() =~= v);
    assert(text::trimmed_start(s) == text::trimmed_start(v));
}

proof fn dependency_after_space(v: Seq<char>)
    ensures
        pkg_utils::dependency_name(" "@ + v) == pkg_utils::dependency_name(v),
{
    reveal_strlit(" ");
    let s = " "@ + v;
    assert(s[0] == ' ');
    assert(s.drop_first() =~= v);
    let i = text::first_index(v, ':') as int;
    assert(text::first_index(s, ':') == i + 1);
    let dep = text::first_piece(v, ':');
    let spaced = text::first_piece(s, ':');
    text::first_index_bounds(v, ':');
    assert(spaced =~= " "@ + dep);
    assert(spaced[0] == ' ');
    assert(spaced.drop_first() =~= dep);
    pkg_utils::bare_len_bounds(dep);
    let n = pkg_utils::bare_len(dep) as int;
    assert(pkg_utils::bare_len(spaced) == n + 1);
    assert(spaced.take(n + 1) =~= " "@ + dep.take(n));
    trimmed_after_space(dep.take(n));
}

// ---------------------------------------------------------------------------
// Carriage returns

proof fn trimmed_before_return(v: Seq<char>)
    ensures
        text::trimmed(v.push('\r')) == text::trimmed(v),
    decreases v.len(),
{
    let s = v.push('\r');
    if v.len() == 0 {
        assert(s.drop_first() =~= v);
        assert(text::trimmed_start(s) == text::trimmed_start(v));
    } else {
        assert(s[0] == v[0]);
        if text::is_space(v[0]) {
            assert(s.drop_first() =~= v.drop_first().push('\r'));
            trimmed_before_return(v.drop_first());
        } else {
            assert(s.drop_last() =~= v);
        }
    }
}

proof fn first_index_before_return(v: Seq<char>, ch: char)
    requires
        ch != '\r',
    ensures
        text::first_index(v.push('\r'), ch) == (if text::first_index(v, ch) < v.len() {
            text::first_index(v, ch)
        } else {
            v.len() + 1
        }),
    decreases v.len(),
{
    let s = v.push('\r');
    if v.len() == 0 {
        assert(s.drop_first() =~= v);
        assert(text::first_index(s.drop_first(), ch) == 0);
    } else {
        assert(s[0] == v[0]);
        assert(s.drop_first() =~= v.drop_first().push('\r'));
        first_index_before_return(v.drop_first(), ch);
    }
}

proof fn bare_len_before_return(v: Seq<char>)
    ensures
        pkg_utils::bare_len(v.push('\r')) == (if pkg_utils::bare_len(v) < v.len() {
            pkg_utils::bare_len(v)
        } else {
            v.len() + 1
        }),
    decreases v.len(),
{
    let s = v.push('\r');
    if v.len() == 0 {
        assert(s.drop_first() =~= v);
        assert(pkg_utils::bare_len(s.drop_first()) == 0);
    } else {
        assert(s[0] == v[0]);
        assert(s.drop_first() =~= v.drop_first().push('\r'));
        bare_len_before_return(v.drop_first());
    }
}

proof fn dependency_before_return(v: Seq<char>)
    ensures
        pkg_utils::dependency_name(v.push('\r')) == pkg_utils::dependency_name(v),
{
    let s = v.push('\r');
    first_index_before_return(v, ':');
    text::first_index_bounds(v, ':');
    let i = text::first_index(v, ':') as int;
    if i < v.len() {
        assert(s.take(i) =~= v.take(i));
    } else {
        assert(v.take(i) =~= v);
        assert(s.take(i + 1) =~= s);
        bare_len_before_return(v);
        pkg_utils::bare_len_bounds(v);
        let n = pkg_utils::bare_len(v) as int;
        if n < v.len() {
            assert(s.take(n) =~= v.take(n));
        } else {
            assert(v.take(n) =~= v);
            assert(s.take(n + 1) =~= s);
            trimmed_before_return(v);
        }
    }
}

proof fn prefix_before_return(v: Seq<char>, p: Seq<char>)
    requires
        p.len() > 0,
        p.last() != '\r',
    ensures
        text::after_prefix(v.push('\r'), p) == (match text::after_prefix(v, p) {
            Some(rest) => Some(rest.push('\r')),
            None => None,
        }),
{
    let s = v.push('\r');
    let n = p.len() as int;
    if n <= v.len() {
        assert(s.take(n) =~= v.take(n));
        assert(s.skip(n) =~= v.skip(n).push('\r'));
    } else if text::has_prefix(s, p) {
        assert(s.take(n)[n - 1] == p.last());
    }
}

/// A carriage return at the end of a line says nothing of the package.
proof fn line_before_return(m: pkg_utils::MetadataView, line: Seq<char>)
    ensures
        pkg_utils::with_line(m, text::without_return(line)) == pkg_utils::with_line(m, line),
{
    reveal_strlit("pkgname =");
    reveal_strlit("pkgver =");
    reveal_strlit("arch =");
    reveal_strlit("depend =");
    reveal_strlit("depends =");
    reveal_strlit("optdepend =");
    reveal_strlit("optdepends =");
    reveal_strlit("provide =");
    reveal_strlit("provides =");
    reveal_strlit("conflict =");
    reveal_strlit("conflicts =");
    reveal_strlit("backup =");
    reveal_strlit("backups =");
    if line.len() > 0 && line.last() == '\r' {
        let v = line.drop_last();
        assert(v.push('\r') =~= line);
        prefix_before_return(v, "pkgname ="@);
        prefix_before_return(v, "pkgver ="@);
        prefix_before_return(v, "arch ="@);
        prefix_before_return(v, "depend ="@);
        prefix_before_return(v, "depends ="@);
        prefix_before_return(v, "optdepend ="@);
        prefix_before_return(v, "optdepends ="@);
        prefix_before_return(v, "provide ="@);
        prefix_before_return(v, "provides ="@);
        prefix_before_return(v, "conflict ="@);
        prefix_before_return(v, "conflicts ="@);
        prefix_before_return(v, "backup ="@);
        prefix_before_return(v, "backups ="@);
        assert forall|rest: Seq<char>|
            text::trimmed(#[trigger] rest.push('\r')) == text::trimmed(rest)
                && pkg_utils::dependency_name(rest.push('\r')) == pkg_utils::dependency_name(
                rest,
            ) by {
            trimmed_before_return(rest);
            dependency_before_return(rest);
        }
    }
}

proof fn metadata_before_returns(lines: Seq<Seq<char>>)
    ensures
        pkg_utils::metadata_of(without_returns(lines)) == pkg_utils::metadata_of(lines),
    decreases lines.len(),
{
    let read = without_returns(lines);
    if lines.len() > 0 {
        assert(read.drop_last() =~= without_returns(lines.drop_last()));
        metadata_before_returns(lines.drop_last());
        line_before_return(pkg_utils::metadata_of(lines.drop_last()), lines.last());
    }
}

proof fn checksum_before_returns(lines: Seq<Seq<char>>, i: int)
    ensures
        pkg_utils::first_checksum(without_returns(lines), i) == pkg_utils::first_checksum(lines, i),
    decreases lines.len() - i,
{
    if 0 <= i < lines.len() {
        let line = lines[i];
        if line.len() > 0 && line.last() == '\r' {
            assert(line.drop_last().push('\r') =~= line);
            trimmed_before_return(line.drop_last());
        }
        assert(pkg_utils::line_checksum(without_returns(lines)[i]) == pkg_utils::line_checksum(line));
        checksum_before_returns(lines, i + 1);
    }
}

// ---------------------------------------------------------------------------
// Lines of package information

/// Metadata after a list of lines.
pub open spec fn with_lines(m: pkg_utils::MetadataView, lines: Seq<Seq<char>>) -> pkg_utils::MetadataView
    decreases lines.len(),
{
    if lines.len() == 0 {
        m
    } else {
        pkg_utils::with_line(with_lines(m, lines.drop_last()), lines.last())
    }
}

proof fn metadata_is_with_lines(lines: Seq<Seq<char>>)
    ensures
        pkg_utils::metadata_of(lines) == with_lines(pkg_utils::no_metadata(), lines),
    decreases lines.len(),
{
    if lines.len() > 0 {
        metadata_is_with_lines(lines.drop_last());
    }
}

proof fn with_lines_in_parts(m: pkg_utils::MetadataView, a: Seq<Seq<char>>, b: Seq<Seq<char>>)
    ensures
        with_lines(m, a + b) == with_lines(with_lines(m, a), b),
    decreases b.len(),
{
    if b.len() == 0 {
        assert(a + b =~= a);
    } else {
        with_lines_in_parts(m, a, b.drop_last());
        assert((a + b).drop_last() =~= a + b.drop_last());
        assert((a + b).last() == b.last());
    }
}

proof fn mismatch(line: Seq<char>, p: Seq<char>, k: int)
    requires
        0 <= k < p.len(),
        k < line.len(),
        line[k] != p[k],
    ensures
        text::after_prefix(line, p) is None,
{
    if text::has_prefix(line, p) {
        assert(line.take(p.len() as int)[k] == line[k]);
    }
}

proof fn match_with(line: Seq<char>, p: Seq<char>, v: Seq<char>)
    requires
        line == p + v,
    ensures
        text::after_prefix(line, p) == Some(v),
{
    assert(line.take(p.len() as int) =~= p);
    assert(line.skip(p.len() as int) =~= v);
}

/// Whether the beginning of a line shows that it is of no field that is read.
pub open spec fn is_foreign(line: Seq<char>) -> bool {
    &&& line.len() >= 4
    &&& {
        ||| line[0] != 'p' && line[0] != 'a' && line[0] != 'd' && line[0] != 'o' && line[0] != 'c'
            && line[0] != 'b'
        ||| line[0] == 'p' && line[1] != 'k' && line[1] != 'r'
        ||| line[0] == 'p' && line[1] == 'k' && line[3] != 'n' && line[3] != 'v'
        ||| line[0] == 'b' && line[1] != 'a'
        ||| line[0] == 'c' && line[1] != 'o'
    }
}

proof fn foreign_line_ignored(m: pkg_utils::MetadataView, line: Seq<char>)
    requires
        is_foreign(line),
    ensures
        pkg_utils::with_line(m, line) == m,
{
    reveal_strlit("pkgname =");
    reveal_strlit("pkgver =");
    reveal_strlit("arch =");
    reveal_strlit("depend =");
    reveal_strlit("depends =");
    reveal_strlit("optdepend =");
    reveal_strlit("optdepends =");
    reveal_strlit("provide =");
    reveal_strlit("provides =");
    reveal_strlit("conflict =");
    reveal_strlit("conflicts =");
    reveal_strlit("backup =");
    reveal_strlit("backups =");
    let k = if line[0] != 'p' {
        0
    } else if line[1] != 'k' {
        1
    } else {
        3int
    };
    mismatch(line, "pkgname ="@, k);
    mismatch(line, "pkgver ="@, k);
    mismatch(line, "arch ="@, 0);
    mismatch(line, "depend ="@, 0);
    mismatch(line, "depends ="@, 0);
    mismatch(line, "optdepend ="@, 0);
    mismatch(line, "optdepends ="@, 0);
    let r = if line[0] != 'p' {
        0
    } else {
        1int
    };
    mismatch(line, "provide ="@, r);
    mismatch(line, "provides ="@, r);
    let c = if line[0] != 'c' {
        0
    } else {
        1int
    };
    mismatch(line, "conflict ="@, c);
    mismatch(line, "conflicts ="@, c);
    let b = if line[0] != 'b' {
        0
    } else {
        1int
    };
    mismatch(line, "backup ="@, b);
    mismatch(line, "backups ="@, b);
}

proof fn foreign_lines_ignored(m: pkg_utils::MetadataView, lines: Seq<Seq<char>>)
    requires
        forall|i: int| 0 <= i < lines.len() ==> is_foreign(#[trigger] lines[i]),
    ensures
        with_lines(m, lines) == m,
    decreases lines.len(),
{
    if lines.len() > 0 {
        let init = lines.drop_last();
        assert forall|i: int| 0 <= i < init.len() implies is_foreign(#[trigger] init[i]) by {
            assert(init[i] == lines[i]);
        }
        foreign_lines_ignored(m, init);
        assert(lines.last() == lines[lines.len() - 1]);
        foreign_line_ignored(m, lines.last());
    }
}

proof fn name_line(m: pkg_utils::MetadataView, v: Seq<char>)
    ensures
        pkg_utils::with_line(m, "pkgname = "@ + v) == (pkg_utils::MetadataView {
            name: text::trimmed(v),
            ..m
        }),
{
    reveal_strlit("pkgname = ");
    reveal_strlit("pkgname =");
    reveal_strlit(" ");
    let line = "pkgname = "@ + v;
    assert(line =~= "pkgname ="@ + (" "@ + v));
    match_with(line, "pkgname ="@, " "@ + v);
    trimmed_after_space(v);
}

proof fn version_line(m: pkg_utils::MetadataView, v: Seq<char>)
    ensures
        pkg_utils::with_line(m, "pkgver = "@ + v) == (pkg_utils::MetadataView {
            version: text::trimmed(v),
            ..m
        }),
{
    reveal_strlit("pkgver = ");
    reveal_strlit("pkgver =");
    reveal_strlit("pkgname =");
    reveal_strlit(" ");
    let line = "pkgver = "@ + v;
    assert(line =~= "pkgver ="@ + (" "@ + v));
    mismatch(line, "pkgname ="@, 3);
    match_with(line, "pkgver ="@, " "@ + v);
    trimmed_after_space(v);
}

proof fn arch_line(m: pkg_utils::MetadataView, v: Seq<char>)
    ensures
        pkg_utils::with_line(m, "arch = "@ + v) == (pkg_utils::MetadataView {
            arch: text::trimmed(v),
            ..m
        }),
{
    reveal_strlit("arch = ");
    reveal_strlit("arch =");
    reveal_strlit("pkgver =");
    reveal_strlit("pkgname =");
    reveal_strlit(" ");
    let line = "arch = "@ + v;
    assert(line =~= "arch ="@ + (" "@ + v));
    mismatch(line, "pkgname ="@, 0);
    mismatch(line, "pkgver ="@, 0);
    match_with(line, "arch ="@, " "@ + v);
    trimmed_after_space(v);
}

proof fn depend_line(m: pkg_utils::MetadataView, v: Seq<char>)
    ensures
        pkg_utils::with_line(m, "depend = "@ + v) == (pkg_utils::MetadataView {
            depends: pkg_utils::with_entry(m.depends, pkg_utils::kept_name(v)),
            ..m
        }),
{
    reveal_strlit("depend = ");
    reveal_strlit("depend =");
    reveal_strlit("arch =");
    reveal_strlit("pkgver =");
    reveal_strlit("pkgname =");
    reveal_strlit(" ");
    let line = "depend = "@ + v;
    assert(line =~= "depend ="@ + (" "@ + v));
    mismatch(line, "pkgname ="@, 0);
    mismatch(line, "pkgver ="@, 0);
    mismatch(line, "arch ="@, 0);
    match_with(line, "depend ="@, " "@ + v);
    dependency_after_space(v);
}

proof fn optdepend_line(m: pkg_utils::MetadataView, v: Seq<char>)
    ensures
        pkg_utils::with_line(m, "optdepend = "@ + v) == (pkg_utils::MetadataView {
            optdepends: pkg_utils::with_entry(m.optdepends, pkg_utils::kept_name(v)),
            ..m
        }),
{
    reveal_strlit("optdepend = ");
    reveal_strlit("optdepend =");
    reveal_strlit("depend =");
    reveal_strlit("depends =");
    reveal_strlit("arch =");
    reveal_strlit("pkgver =");
    reveal_strlit("pkgname =");
    reveal_strlit(" ");
    let line = "optdepend = "@ + v;
    assert(line =~= "optdepend ="@ + (" "@ + v));
    mismatch(line, "pkgname ="@, 0);
    mismatch(line, "pkgver ="@, 0);
    mismatch(line, "arch ="@, 0);
    mismatch(line, "depend ="@, 0);
    mismatch(line, "depends ="@, 0);
    match_with(line, "optdepend ="@, " "@ + v);
    dependency_after_space(v);
}

proof fn provides_line(m: pkg_utils::MetadataView, v: Seq<char>)
    ensures
        pkg_utils::with_line(m, "provides = "@ + v) == (pkg_utils::MetadataView {
            provides: pkg_utils::with_entry(m.provides, pkg_utils::kept_name(v)),
            ..m
        }),
{
    reveal_strlit("provides = ");
    reveal_strlit("provide =");
    reveal_strlit("provides =");
    reveal_strlit("optdepend =");
    reveal_strlit("optdepends =");
    reveal_strlit("depend =");
    reveal_strlit("depends =");
    reveal_strlit("arch =");
    reveal_strlit("pkgver =");
    reveal_strlit("pkgname =");
    reveal_strlit(" ");
    let line = "provides = "@ + v;
    assert(line =~= "provides ="@ + (" "@ + v));
    mismatch(line, "pkgname ="@, 1);
    mismatch(line, "pkgver ="@, 1);
    mismatch(line, "arch ="@, 0);
    mismatch(line, "depend ="@, 0);
    mismatch(line, "depends ="@, 0);
    mismatch(line, "optdepend ="@, 0);
    mismatch(line, "optdepends ="@, 0);
    mismatch(line, "provide ="@, 7);
    match_with(line, "provides ="@, " "@ + v);
    dependency_after_space(v);
}

proof fn conflict_line(m: pkg_utils::MetadataView, v: Seq<char>)
    ensures
        pkg_utils::with_line(m, "conflict = "@ + v) == (pkg_utils::MetadataView {
            conflicts: pkg_utils::with_entry(m.conflicts, pkg_utils::dependency_name(v)),
            ..m
        }),
{
    reveal_strlit("conflict = ");
    reveal_strlit("conflict =");
    reveal_strlit("provide =");
    reveal_strlit("provides =");
    reveal_strlit("optdepend =");
    reveal_strlit("optdepends =");
    reveal_strlit("depend =");
    reveal_strlit("depends =");
    reveal_strlit("arch =");
    reveal_strlit("pkgver =");
    reveal_strlit("pkgname =");
    reveal_strlit(" ");
    let line = "conflict = "@ + v;
    assert(line =~= "conflict ="@ + (" "@ + v));
    mismatch(line, "pkgname ="@, 0);
    mismatch(line, "pkgver ="@, 0);
    mismatch(line, "arch ="@, 0);
    mismatch(line, "depend ="@, 0);
    mismatch(line, "depends ="@, 0);
    mismatch(line, "optdepend ="@, 0);
    mismatch(line, "optdepends ="@, 0);
    mismatch(line, "provide ="@, 0);
    mismatch(line, "provides ="@, 0);
    match_with(line, "conflict ="@, " "@ + v);
    dependency_after_space(v);
}

proof fn backup_line(m: pkg_utils::MetadataView, v: Seq<char>)
    ensures
        pkg_utils::with_line(m, "backup = "@ + v) == (pkg_utils::MetadataView {
            backups: pkg_utils::with_entry(
                m.backups,
                text::without_leading(text::trimmed(v), '/'),
            ),
            ..m
        }),
{
    reveal_strlit("backup = ");
    reveal_strlit("backup =");
    reveal_strlit("conflict =");
    reveal_strlit("conflicts =");
    reveal_strlit("provide =");
    reveal_strlit("provides =");
    reveal_strlit("optdepend =");
    reveal_strlit("optdepends =");
    reveal_strlit("depend =");
    reveal_strlit("depends =");
    reveal_strlit("arch =");
    reveal_strlit("pkgver =");
    reveal_strlit("pkgname =");
    reveal_strlit(" ");
    let line = "backup = "@ + v;
    assert(line =~= "backup ="@ + (" "@ + v));
    mismatch(line, "pkgname ="@, 0);
    mismatch(line, "pkgver ="@, 0);
    mismatch(line, "arch ="@, 0);
    mismatch(line, "depend ="@, 0);
    mismatch(line, "depends ="@, 0);
    mismatch(line, "optdepend ="@, 0);
    mismatch(line, "optdepends ="@, 0);
    mismatch(line, "provide ="@, 0);
    mismatch(line, "provides ="@, 0);
    mismatch(line, "conflict ="@, 0);
    mismatch(line, "conflicts ="@, 0);
    match_with(line, "backup ="@, " "@ + v);
    trimmed_after_space(v);
}

// ---------------------------------------------------------------------------
// Sections

/// What a list of values leaves in a list of names.
pub open spec fn collected(values: Seq<Seq<char>>, name: spec_fn(Seq<char>) -> Seq<char>) -> Seq<
    Seq<char>,
>
    decreases values.len(),
{
    if values.len() == 0 {
        seq![]
    } else {
        pkg_utils::with_entry(collected(values.drop_last(), name), name(values.last()))
    }
}

/// The name that a dependency leaves in the metadata.
pub open spec fn kept() -> spec_fn(Seq<char>) -> Seq<char> {
    |v: Seq<char>| pkg_utils::kept_name(v)
}

/// The name that a conflict leaves in the metadata.
pub open spec fn named() -> spec_fn(Seq<char>) -> Seq<char> {
    |v: Seq<char>| pkg_utils::dependency_name(v)
}

/// The path that a file to preserve leaves in the metadata.
pub open spec fn preserved() -> spec_fn(Seq<char>) -> Seq<char> {
    |v: Seq<char>| text::without_leading(text::trimmed(v), '/')
}

proof fn tagged_last(tag: Seq<char>, values: Seq<Seq<char>>)
    requires
        values.len() > 0,
    ensures
        recipe::tagged(tag, values).drop_last() == recipe::tagged(tag, values.drop_last()),
        recipe::tagged(tag, values).last() == tag + values.last(),
{
    assert(recipe::tagged(tag, values).drop_last() =~= recipe::tagged(tag, values.drop_last()));
}

proof fn name_section(m: pkg_utils::MetadataView, values: Seq<Seq<char>>)
    ensures
        with_lines(m, recipe::tagged("pkgname = "@, values)) == (pkg_utils::MetadataView {
            name: if values.len() > 0 {
                text::trimmed(values.last())
            } else {
                m.name
            },
            ..m
        }),
    decreases values.len(),
{
    if values.len() > 0 {
        tagged_last("pkgname = "@, values);
        name_section(m, values.drop_last());
        name_line(
            with_lines(m, recipe::tagged("pkgname = "@, values.drop_last())),
            values.last(),
        );
    }
}

proof fn depend_section(m: pkg_utils::MetadataView, values: Seq<Seq<char>>)
    requires
        m.depends.len() == 0,
    ensures
        with_lines(m, recipe::tagged("depend = "@, values)) == (pkg_utils::MetadataView {
            depends: collected(values, kept()),
            ..m
        }),
    decreases values.len(),
{
    if values.len() > 0 {
        tagged_last("depend = "@, values);
        depend_section(m, values.drop_last());
        depend_line(
            with_lines(m, recipe::tagged("depend = "@, values.drop_last())),
            values.last(),
        );
    } else {
        assert(m.depends =~= collected(values, kept()));
    }
}

proof fn optdepend_section(m: pkg_utils::MetadataView, values: Seq<Seq<char>>)
    requires
        m.optdepends.len() == 0,
    ensures
        with_lines(m, recipe::tagged("optdepend = "@, values)) == (pkg_utils::MetadataView {
            optdepends: collected(values, kept()),
            ..m
        }),
    decreases values.len(),
{
    if values.len() > 0 {
        tagged_last("optdepend = "@, values);
        optdepend_section(m, values.drop_last());
        optdepend_line(
            with_lines(m, recipe::tagged("optdepend = "@, values.drop_last())),
            values.last(),
        );
    } else {
        assert(m.optdepends =~= collected(values, kept()));
    }
}

proof fn provides_section(m: pkg_utils::MetadataView, values: Seq<Seq<char>>)
    requires
        m.provides.len() == 0,
    ensures
        with_lines(m, recipe::tagged("provides = "@, values)) == (pkg_utils::MetadataView {
            provides: collected(values, kept()),
            ..m
        }),
    decreases values.len(),
{
    if values.len() > 0 {
        tagged_last("provides = "@, values);
        provides_section(m, values.drop_last());
        provides_line(
            with_lines(m, recipe::tagged("provides = "@, values.drop_last())),
            values.last(),
        );
    } else {
        assert(m.provides =~= collected(values, kept()));
    }
}

proof fn conflict_section(m: pkg_utils::MetadataView, values: Seq<Seq<char>>)
    requires
        m.conflicts.len() == 0,
    ensures
        with_lines(m, recipe::tagged("conflict = "@, values)) == (pkg_utils::MetadataView {
            conflicts: collected(values, named()),
            ..m
        }),
    decreases values.len(),
{
    if values.len() > 0 {
        tagged_last("conflict = "@, values);
        conflict_section(m, values.drop_last());
        conflict_line(
            with_lines(m, recipe::tagged("conflict = "@, values.drop_last())),
            values.last(),
        );
    } else {
        assert(m.conflicts =~= collected(values, named()));
    }
}

proof fn backup_section(m: pkg_utils::MetadataView, values: Seq<Seq<char>>)
    requires
        m.backups.len() == 0,
    ensures
        with_lines(m, recipe::tagged("backup = "@, values)) == (pkg_utils::MetadataView {
            backups: collected(values, preserved()),
            ..m
        }),
    decreases values.len(),
{
    if values.len() > 0 {
        tagged_last("backup = "@, values);
        backup_section(m, values.drop_last());
        backup_line(
            with_lines(m, recipe::tagged("backup = "@, values.drop_last())),
            values.last(),
        );
    } else {
        assert(m.backups =~= collected(values, preserved()));
    }
}

proof fn foreign_section(m: pkg_utils::MetadataView, tag: Seq<char>, values: Seq<Seq<char>>)
    requires
        is_foreign(tag),
    ensures
        with_lines(m, recipe::tagged(tag, values)) == m,
{
    let lines = recipe::tagged(tag, values);
    assert forall|i: int| 0 <= i < lines.len() implies is_foreign(#[trigger] lines[i]) by {
        assert(lines[i] == tag + values[i]);
    }
    foreign_lines_ignored(m, lines);
}

proof fn foreign_tag(tag: Seq<char>, v: Seq<char>)
    requires
        is_foreign(tag),
    ensures
        is_foreign(tag + v),
{
}

/// The metadata that the package manager reads from the information that the
/// recipe of a package is written to.
pub open spec fn metadata_from(r: recipe::RecipeView) -> pkg_utils::MetadataView {
    pkg_utils::MetadataView {
        name: if r.pkgnames.len() > 0 {
            text::trimmed(r.pkgnames.last())
        } else {
            seq![]
        },
        version: text::trimmed(recipe::full_version(r.pkgver, r.pkgrel)),
        arch: text::trimmed(r.arch),
        depends: collected(r.depends, kept()),
        optdepends: collected(r.optdepends, kept()),
        conflicts: collected(r.conflicts, named()),
        provides: collected(r.provides, kept()),
        backups: collected(r.backups, preserved()),
    }
}

proof fn head_ignored(m: pkg_utils::MetadataView, r: recipe::RecipeView)
    ensures
        with_lines(m, recipe::head_lines(r)) == m,
{
    reveal_strlit("# Generated by lkmake ");
    reveal_strlit("# using ");
    let lines = recipe::head_lines(r);
    assert forall|i: int| 0 <= i < lines.len() implies is_foreign(#[trigger] lines[i]) by {
        assert(lines[i][0] == '#');
    }
    foreign_lines_ignored(m, lines);
}

proof fn base_ignored(m: pkg_utils::MetadataView, base: Seq<char>, kind: Seq<char>)
    ensures
        with_lines(m, seq!["pkgbase = "@ + base, "xdata = pkgtype="@ + kind]) == m,
{
    reveal_strlit("pkgbase = ");
    reveal_strlit("xdata = pkgtype=");
    foreign_tag("pkgbase = "@, base);
    foreign_tag("xdata = pkgtype="@, kind);
    let lines = seq!["pkgbase = "@ + base, "xdata = pkgtype="@ + kind];
    foreign_lines_ignored(m, lines);
}

proof fn middle_read(m: pkg_utils::MetadataView, r: recipe::RecipeView)
    ensures
        with_lines(m, recipe::middle_lines(r)) == (pkg_utils::MetadataView {
            version: text::trimmed(recipe::full_version(r.pkgver, r.pkgrel)),
            arch: text::trimmed(r.arch),
            ..m
        }),
{
    reveal_strlit("pkgdesc = ");
    reveal_strlit("url = ");
    reveal_strlit("builddate = ");
    reveal_strlit("packager = ");
    reveal_strlit("size = ");
    let lines = recipe::middle_lines(r);
    let one = lines.take(1);
    let mid = lines.subrange(1, 6);
    let last = lines.skip(6);
    assert(lines =~= one + mid + last);
    with_lines_in_parts(m, one + mid, last);
    with_lines_in_parts(m, one, mid);
    assert(one.drop_last() =~= seq![]);
    assert(with_lines(m, one.drop_last()) == m);
    version_line(m, recipe::full_version(r.pkgver, r.pkgrel));
    let after_version = with_lines(m, one);
    assert forall|i: int| 0 <= i < mid.len() implies is_foreign(#[trigger] mid[i]) by {
        assert(mid[i] == lines[i + 1]);
        if i == 0 {
            foreign_tag("pkgdesc = "@, text::joined(text::words_of(r.pkgdesc), " "@));
        } else if i == 1 {
            foreign_tag("url = "@, r.url);
        } else if i == 2 {
            foreign_tag("builddate = "@, r.builddate);
        } else if i == 3 {
            foreign_tag("packager = "@, r.packager);
        } else {
            foreign_tag("size = "@, text::decimal_of(r.size));
        }
    }
    foreign_lines_ignored(after_version, mid);
    assert(last.drop_last() =~= seq![]);
    assert(with_lines(after_version, last.drop_last()) == after_version);
    arch_line(after_version, r.arch);
}

/// The lines that the recipe of a package is written to give the metadata
/// that the recipe stands for.
pub proof fn pkginfo_lines_read(r: recipe::RecipeView)
    ensures
        pkg_utils::metadata_of(recipe::pkginfo_lines(r)) == metadata_from(r),
{
    reveal_strlit("xdata = ");
    reveal_strlit("license = ");
    reveal_strlit("replaces = ");
    reveal_strlit("group = ");
    reveal_strlit("makedepend = ");
    reveal_strlit("checkdepend = ");
    let m0 = pkg_utils::no_metadata();
    let s1 = recipe::head_lines(r);
    let s2 = recipe::tagged("pkgname = "@, r.pkgnames);
    let s3 = seq![
        "pkgbase = "@ + recipe::base_name(r.pkgbase, r.pkgnames),
        "xdata = pkgtype="@ + recipe::kind_name(r.pkgtype),
    ];
    let s4 = recipe::tagged("xdata = "@, r.xdata);
    let s5 = recipe::middle_lines(r);
    let s6 = recipe::tagged("license = "@, r.license);
    let s7 = recipe::tagged("replaces = "@, r.replaces);
    let s8 = recipe::tagged("group = "@, r.groups);
    let s9 = recipe::tagged("conflict = "@, r.conflicts);
    let s10 = recipe::tagged("provides = "@, r.provides);
    let s11 = recipe::tagged("backup = "@, r.backups);
    let s12 = recipe::tagged("depend = "@, r.depends);
    let s13 = recipe::tagged("optdepend = "@, r.optdepends);
    let s14 = recipe::tagged("makedepend = "@, r.makedepends);
    let s15 = recipe::tagged("checkdepend = "@, r.checkdepends);
    let a2 = s1 + s2;
    let a3 = a2 + s3;
    let a4 = a3 + s4;
    let a5 = a4 + s5;
    let a6 = a5 + s6;
    let a7 = a6 + s7;
    let a8 = a7 + s8;
    let a9 = a8 + s9;
    let a10 = a9 + s10;
    let a11 = a10 + s11;
    let a12 = a11 + s12;
    let a13 = a12 + s13;
    let a14 = a13 + s14;
    assert(recipe::pkginfo_lines(r) == a14 + s15);
    metadata_is_with_lines(recipe::pkginfo_lines(r));
    with_lines_in_parts(m0, s1, s2);
    with_lines_in_parts(m0, a2, s3);
    with_lines_in_parts(m0, a3, s4);
    with_lines_in_parts(m0, a4, s5);
    with_lines_in_parts(m0, a5, s6);
    with_lines_in_parts(m0, a6, s7);
    with_lines_in_parts(m0, a7, s8);
    with_lines_in_parts(m0, a8, s9);
    with_lines_in_parts(m0, a9, s10);
    with_lines_in_parts(m0, a10, s11);
    with_lines_in_parts(m0, a11, s12);
    with_lines_in_parts(m0, a12, s13);
    with_lines_in_parts(m0, a13, s14);
    with_lines_in_parts(m0, a14, s15);
    head_ignored(m0, r);
    name_section(m0, r.pkgnames);
    base_ignored(
        with_lines(m0, a2),
        recipe::base_name(r.pkgbase, r.pkgnames),
        recipe::kind_name(r.pkgtype),
    );
    foreign_section(with_lines(m0, a3), "xdata = "@, r.xdata);
    middle_read(with_lines(m0, a4), r);
    foreign_section(with_lines(m0, a5), "license = "@, r.license);
    foreign_section(with_lines(m0, a6), "replaces = "@, r.replaces);
    foreign_section(with_lines(m0, a7), "group = "@, r.groups);
    conflict_section(with_lines(m0, a8), r.conflicts);
    provides_section(with_lines(m0, a9), r.provides);
    backup_section(with_lines(m0, a10), r.backups);
    depend_section(with_lines(m0, a11), r.depends);
    optdepend_section(with_lines(m0, a12), r.optdepends);
    foreign_section(with_lines(m0, a13), "makedepend = "@, r.makedepends);
    foreign_section(with_lines(m0, a14), "checkdepend = "@, r.checkdepends);
}

/// What is built is what is installed: the package manager reads the name,
/// the version, the architecture and the dependencies of the recipe out of
/// the package's information.
pub proof fn pkginfo_read_back(r: recipe::RecipeView)
    requires
        forall|i: int|
            0 <= i < recipe::pkginfo_lines(r).len() ==> is_unbroken(
                #[trigger] recipe::pkginfo_lines(r)[i],
            ),
    ensures
        pkg_utils::pkginfo(recipe::text_of(recipe::pkginfo_lines(r))) == (if metadata_from(
            r,
        ).name.len() == 0 {
            Err("Package metadata missing pkgname!"@)
        } else if metadata_from(r).version.len() == 0 {
            Err("Package metadata missing pkgver!"@)
        } else {
            Ok(metadata_from(r))
        }),
{
    lines_read_back(recipe::pkginfo_lines(r));
    metadata_before_returns(recipe::pkginfo_lines(r));
    pkginfo_lines_read(r);
}

// ---------------------------------------------------------------------------
// Build information

proof fn trimmed_end_keeps(s: Seq<char>, k: int)
    requires
        0 <= k < s.len(),
        !text::is_space(s[k]),
    ensures
        text::trimmed_end(s).len() > k,
    decreases s.len(),
{
    if text::is_space(s.last()) {
        assert(k < s.len() - 1);
        assert(s.drop_last()[k] == s[k]);
        trimmed_end_keeps(s.drop_last(), k);
    }
}

/// A line that begins with no white space and differs from a prefix where it
/// has none does not begin with it, once it is trimmed.
proof fn trimmed_mismatch(line: Seq<char>, p: Seq<char>, k: int)
    requires
        0 <= k < p.len(),
        k < line.len(),
        !text::is_space(line[0]),
        !text::is_space(line[k]),
        line[k] != p[k],
    ensures
        text::after_prefix(text::trimmed(line), p) is None,
{
    assert(text::trimmed_start(line) == line);
    trimmed_end_keeps(line, k);
    pkg_utils::trimmed_end_shape(line);
    let t = text::trimmed(line);
    assert(t[k] == line[k]);
    mismatch(t, p, k);
}

proof fn checksum_skips(lines: Seq<Seq<char>>, k: int)
    requires
        0 <= k <= lines.len(),
        forall|i: int| 0 <= i < k ==> pkg_utils::line_checksum(#[trigger] lines[i]) is None,
    ensures
        pkg_utils::first_checksum(lines, 0) == pkg_utils::first_checksum(lines, k),
    decreases k,
{
    if k > 0 {
        checksum_skips(lines, k - 1);
        assert(pkg_utils::line_checksum(lines[k - 1]) is None);
    }
}

/// Whether text is a checksum as it is written: one word that no bracket begins.
pub open spec fn is_checksum(s: Seq<char>) -> bool {
    &&& s.len() > 0
    &&& s[0] != '['
    &&& forall|i: int| 0 <= i < s.len() ==> !text::is_space(#[trigger] s[i])
}

proof fn one_word(s: Seq<char>)
    requires
        is_checksum(s),
    ensures
        text::words_of(s) == seq![s],
{
    assert(text::trimmed_start(s) == s);
    word_len_all(s);
    assert(s.take(s.len() as int) =~= s);
    assert(s.skip(s.len() as int) =~= seq![]);
    assert(text::trimmed_start(s.skip(s.len() as int)) =~= seq![]);
    assert(text::words_of(s.skip(s.len() as int)) =~= seq![]);
    assert(text::words_of(s) =~= seq![s]);
}

proof fn word_len_all(s: Seq<char>)
    requires
        forall|i: int| 0 <= i < s.len() ==> !text::is_space(#[trigger] s[i]),
    ensures
        text::word_len(s) == s.len(),
    decreases s.len(),
{
    if s.len() > 0 {
        assert(!text::is_space(s[0]));
        let rest = s.drop_first();
        assert forall|i: int| 0 <= i < rest.len() implies !text::is_space(#[trigger] rest[i]) by {
            assert(rest[i] == s[i + 1]);
        }
        word_len_all(rest);
    }
}

proof fn checksum_line_read(sum: Seq<char>)
    requires
        is_checksum(sum),
    ensures
        pkg_utils::line_checksum("pkgbuild_sha256sum = "@ + sum) == Some(sum),
{
    reveal_strlit("pkgbuild_sha256sum = ");
    reveal_strlit("pkgbuild_sha256sum");
    reveal_strlit("=");
    reveal_strlit(" ");
    let p = "pkgbuild_sha256sum"@;
    let line = "pkgbuild_sha256sum = "@ + sum;
    assert(!text::is_space(line[0]));
    assert(line.last() == sum.last());
    assert(!text::is_space(sum[sum.len() - 1]));
    pkg_utils::trimmed_fixed(line);
    let rest = " = "@ + sum;
    reveal_strlit(" = ");
    assert(line =~= p + rest);
    match_with(line, p, rest);
    assert(rest[0] == ' ');
    let start = rest.drop_first();
    assert(start[0] == '=');
    assert(text::trimmed_start(start) == start);
    assert(text::trimmed_start(rest) == start);
    assert(start.take(1) =~= "="@);
    assert(start.skip(1) =~= " "@ + sum);
    trimmed_after_space(sum);
    assert(!text::is_space(sum[0]));
    pkg_utils::trimmed_fixed(sum);
    one_word(sum);
}

/// The checksum of the build recipe is read back from the build information.
pub proof fn buildinfo_read_back(r: recipe::RecipeView, f: recipe::FactsView)
    requires
        is_checksum(f.checksum),
        forall|i: int|
            0 <= i < recipe::buildinfo_lines(r, f).len() ==> is_unbroken(
                #[trigger] recipe::buildinfo_lines(r, f)[i],
            ),
    ensures
        pkg_utils::first_checksum(
            text::lines_of(recipe::text_of(recipe::buildinfo_lines(r, f))),
            0,
        ) == Some(f.checksum),
{
    let lines = recipe::buildinfo_lines(r, f);
    lines_read_back(lines);
    checksum_before_returns(lines, 0);
    let n = r.pkgnames.len() as int;
    let names = recipe::tagged("pkgname = "@, r.pkgnames);
    let build = recipe::build_lines(r, f);
    reveal_strlit("format = 2");
    reveal_strlit("pkgname = ");
    reveal_strlit("pkgbase = ");
    reveal_strlit("pkgver = ");
    reveal_strlit("pkgarch = ");
    reveal_strlit("pkgbuild_sha256sum");
    let p = "pkgbuild_sha256sum"@;
    assert forall|i: int| 0 <= i < n + 4 implies pkg_utils::line_checksum(#[trigger] lines[i]) is None by {
        if i == 0 {
            assert(lines[i] == "format = 2"@);
            trimmed_mismatch(lines[i], p, 0);
        } else if i <= n {
            assert(lines[i] == names[i - 1]);
            assert(names[i - 1] == "pkgname = "@ + r.pkgnames[i - 1]);
            trimmed_mismatch(lines[i], p, 3);
        } else {
            assert(lines[i] == build[i - n - 1]);
            if i == n + 1 {
                trimmed_mismatch(lines[i], p, 4);
            } else {
                trimmed_mismatch(lines[i], p, 3);
            }
        }
    }
    checksum_skips(lines, n + 4);
    assert(lines[n + 4] == build[3]);
    checksum_line_read(f.checksum);
}

} // verus!
