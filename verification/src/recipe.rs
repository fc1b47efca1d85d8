//! What a built package says of itself.
use vstd::prelude::*;

use crate::cli;
use crate::text;

verus! {

/// What a build recipe and its surroundings say of a package.
pub struct Recipe {
    pub pkgbase: String,
    pub pkgver: String,
    pub pkgrel: String,
    pub pkgnames: Vec<String>,
    pub pkgdesc: String,
    pub url: String,
    pub packager: String,
    pub builddate: String,
    pub arch: String,
    pub license: Vec<String>,
    pub replaces: Vec<String>,
    pub groups: Vec<String>,
    pub conflicts: Vec<String>,
    pub provides: Vec<String>,
    pub backups: Vec<String>,
    pub depends: Vec<String>,
    pub optdepends: Vec<String>,
    pub makedepends: Vec<String>,
    pub checkdepends: Vec<String>,
    pub xdata: Vec<String>,
    pub pkgtype: Option<String>,
    pub size: u64,
    /// What `fakeroot` says of itself.
    pub fakeroot: Option<String>,
    /// The version of the tool that builds.
    pub tool_version: String,
}

/// A recipe with its texts taken as sequences of characters.
pub struct RecipeView {
    pub pkgbase: Seq<char>,
    pub pkgver: Seq<char>,
    pub pkgrel: Seq<char>,
    pub pkgnames: Seq<Seq<char>>,
    pub pkgdesc: Seq<char>,
    pub url: Seq<char>,
    pub packager: Seq<char>,
    pub builddate: Seq<char>,
    pub arch: Seq<char>,
    pub license: Seq<Seq<char>>,
    pub replaces: Seq<Seq<char>>,
    pub groups: Seq<Seq<char>>,
    pub conflicts: Seq<Seq<char>>,
    pub provides: Seq<Seq<char>>,
    pub backups: Seq<Seq<char>>,
    pub depends: Seq<Seq<char>>,
    pub optdepends: Seq<Seq<char>>,
    pub makedepends: Seq<Seq<char>>,
    pub checkdepends: Seq<Seq<char>>,
    pub xdata: Seq<Seq<char>>,
    pub pkgtype: Option<Seq<char>>,
    pub size: nat,
    pub fakeroot: Option<Seq<char>>,
    pub tool_version: Seq<char>,
}

impl View for Recipe {
    type V = RecipeView;

    open spec fn view(&self) -> RecipeView {
        RecipeView {
            pkgbase: self.pkgbase@,
            pkgver: self.pkgver@,
            pkgrel: self.pkgrel@,
            pkgnames: text::texts(self.pkgnames@),
            pkgdesc: self.pkgdesc@,
            url: self.url@,
            packager: self.packager@,
            builddate: self.builddate@,
            arch: self.arch@,
            license: text::texts(self.license@),
            replaces: text::texts(self.replaces@),
            groups: text::texts(self.groups@),
            conflicts: text::texts(self.conflicts@),
            provides: text::texts(self.provides@),
            backups: text::texts(self.backups@),
            depends: text::texts(self.depends@),
            optdepends: text::texts(self.optdepends@),
            makedepends: text::texts(self.makedepends@),
            checkdepends: text::texts(self.checkdepends@),
            xdata: text::texts(self.xdata@),
            pkgtype: cli::opt_text(self.pkgtype),
            size: self.size as nat,
            fakeroot: cli::opt_text(self.fakeroot),
            tool_version: self.tool_version@,
        }
    }
}

// ---------------------------------------------------------------------------
// Parts

/// The version with the release.
pub open spec fn full_version(pkgver: Seq<char>, pkgrel: Seq<char>) -> Seq<char> {
    pkgver + "-"@ + pkgrel
}

/// The base of a package: as it is given, or else its first name.
pub open spec fn base_name(pkgbase: Seq<char>, pkgnames: Seq<Seq<char>>) -> Seq<char> {
    if pkgbase.len() > 0 {
        pkgbase
    } else if pkgnames.len() > 0 {
        pkgnames[0]
    } else {
        seq![]
    }
}

fn make_base_name(pkgbase: &String, pkgnames: &Vec<String>) -> (r: String)
    ensures
        r@ == base_name(pkgbase@, text::texts(pkgnames@)),
{
    assert(text::texts(pkgnames@).len() == pkgnames@.len());
    if !pkgbase.as_str().is_empty() {
        text::copy(pkgbase)
    } else if pkgnames.len() > 0 {
        assert(text::texts(pkgnames@)[0] == pkgnames@[0]@);
        text::copy(&pkgnames[0])
    } else {
        let r = String::new();
        assert(r@ =~= seq![]);
        r
    }
}

/// The type of a package: as it is given, unless it is blank.
pub open spec fn kind_name(pkgtype: Option<Seq<char>>) -> Seq<char> {
    match pkgtype {
        Some(t) => if text::trimmed(t).len() > 0 {
            text::trimmed(t)
        } else {
            "lsk"@
        },
        None => "lsk"@,
    }
}

fn make_kind_name(pkgtype: &Option<String>) -> (r: String)
    ensures
        r@ == kind_name(cli::opt_text(*pkgtype)),
{
    match pkgtype {
        Some(t) => {
            let t = text::trim(t);
            if !t.as_str().is_empty() {
                t
            } else {
                "lsk".to_owned()
            }
        },
        None => "lsk".to_owned(),
    }
}

/// Lines that give values to a field.
pub open spec fn tagged(tag: Seq<char>, values: Seq<Seq<char>>) -> Seq<Seq<char>> {
    values.map_values(|v: Seq<char>| tag + v)
}

/// Lines as a text: each one ends in a line feed.
pub open spec fn text_of(lines: Seq<Seq<char>>) -> Seq<char>
    decreases lines.len(),
{
    if lines.len() == 0 {
        seq![]
    } else {
        text_of(lines.drop_last()) + lines.last() + "\n"@
    }
}

fn push_line(out: &mut Vec<String>, tag: &str, value: &str)
    ensures
        text::texts(final(out)@) == text::texts(old(out)@).push(tag@ + value@),
{
    let ghost before = out@;
    let line = text::join2(tag, value);
    let ghost lv = line@;
    out.push(line);
    assert(text::texts(out@) =~= text::texts(before).push(lv));
}

fn push_tagged(out: &mut Vec<String>, tag: &str, values: &Vec<String>)
    ensures
        text::texts(final(out)@) == text::texts(old(out)@) + tagged(tag@, text::texts(values@)),
{
    let ghost start = text::texts(out@);
    let ghost want = tagged(tag@, text::texts(values@));
    let mut i: usize = 0;
    assert(start + want.take(0) =~= start);
    while i < values.len()
        invariant
            i <= values@.len(),
            want == tagged(tag@, text::texts(values@)),
            text::texts(out@) == start + want.take(i as int),
        decreases values@.len() - i,
    {
        assert(text::texts(values@)[i as int] == values@[i as int]@);
        push_line(out, tag, &values[i]);
        assert((start + want.take(i as int)).push(want[i as int]) =~= start + want.take(i + 1));
        i = i + 1;
    }
    assert(want.take(want.len() as int) =~= want);
}

fn write_lines(lines: &Vec<String>) -> (r: String)
    ensures
        r@ == text_of(text::texts(lines@)),
{
    let ghost all = text::texts(lines@);
    let mut out = String::new();
    let mut i: usize = 0;
    assert(out@ =~= text_of(all.take(0)));
    while i < lines.len()
        invariant
            i <= lines@.len(),
            all == text::texts(lines@),
            out@ == text_of(all.take(i as int)),
        decreases lines@.len() - i,
    {
        assert(all.take(i + 1).drop_last() =~= all.take(i as int));
        assert(all[i as int] == lines@[i as int]@);
        out = text::join3(&out, &lines[i], "\n");
        i = i + 1;
    }
    assert(all.take(all.len() as int) =~= all);
    out
}

// ---------------------------------------------------------------------------
// Package information

/// The lines that begin a package's information.
pub open spec fn head_lines(r: RecipeView) -> Seq<Seq<char>> {
    seq![
        "# Generated by lkmake "@ + r.tool_version,
        "# using "@ + (match r.fakeroot {
            Some(v) => text::trimmed(v),
            None => "lkmake"@,
        }),
    ]
}

/// The lines that describe a package, from its version to its architecture.
pub open spec fn middle_lines(r: RecipeView) -> Seq<Seq<char>> {
    seq![
        "pkgver = "@ + full_version(r.pkgver, r.pkgrel),
        "pkgdesc = "@ + text::joined(text::words_of(r.pkgdesc), " "@),
        "url = "@ + r.url,
        "builddate = "@ + r.builddate,
        "packager = "@ + r.packager,
        "size = "@ + text::decimal_of(r.size),
        "arch = "@ + r.arch,
    ]
}

/// The lines of a package's information.
pub open spec fn pkginfo_lines(r: RecipeView) -> Seq<Seq<char>> {
    head_lines(r) + tagged("pkgname = "@, r.pkgnames) + seq![
        "pkgbase = "@ + base_name(r.pkgbase, r.pkgnames),
        "xdata = pkgtype="@ + kind_name(r.pkgtype),
    ] + tagged("xdata = "@, r.xdata) + middle_lines(r) + tagged("license = "@, r.license) + tagged(
        "replaces = "@,
        r.replaces,
    ) + tagged("group = "@, r.groups) + tagged("conflict = "@, r.conflicts) + tagged(
        "provides = "@,
        r.provides,
    ) + tagged("backup = "@, r.backups) + tagged("depend = "@, r.depends) + tagged(
        "optdepend = "@,
        r.optdepends,
    ) + tagged("makedepend = "@, r.makedepends) + tagged("checkdepend = "@, r.checkdepends)
}

/// The text of a package's information.
pub fn write_pkginfo(r: &Recipe) -> (out: String)
    ensures
        out@ == text_of(pkginfo_lines(r@)),
{
    let mut lines: Vec<String> = Vec::new();
    push_line(&mut lines, "# Generated by lkmake ", &r.tool_version);
    let fakeroot = match &r.fakeroot {
        Some(v) => text::trim(v),
        None => "lkmake".to_owned(),
    };
    push_line(&mut lines, "# using ", &fakeroot);
    assert(text::texts(lines@) =~= head_lines(r@));
    push_tagged(&mut lines, "pkgname = ", &r.pkgnames);
    let ghost named = text::texts(lines@);
    push_line(&mut lines, "pkgbase = ", &make_base_name(&r.pkgbase, &r.pkgnames));
    push_line(&mut lines, "xdata = pkgtype=", &make_kind_name(&r.pkgtype));
    assert(text::texts(lines@) =~= named + seq![
        "pkgbase = "@ + base_name(r@.pkgbase, r@.pkgnames),
        "xdata = pkgtype="@ + kind_name(r@.pkgtype),
    ]);
    push_tagged(&mut lines, "xdata = ", &r.xdata);
    let ghost before = text::texts(lines@);
    push_line(&mut lines, "pkgver = ", &text::join3(&r.pkgver, "-", &r.pkgrel));
    push_line(&mut lines, "pkgdesc = ", &text::join(&text::words(&r.pkgdesc), " "));
    push_line(&mut lines, "url = ", &r.url);
    push_line(&mut lines, "builddate = ", &r.builddate);
    push_line(&mut lines, "packager = ", &r.packager);
    push_line(&mut lines, "size = ", &text::decimal(r.size));
    push_line(&mut lines, "arch = ", &r.arch);
    assert(text::texts(lines@) =~= before + middle_lines(r@));
    push_tagged(&mut lines, "license = ", &r.license);
    push_tagged(&mut lines, "replaces = ", &r.replaces);
    push_tagged(&mut lines, "group = ", &r.groups);
    push_tagged(&mut lines, "conflict = ", &r.conflicts);
    push_tagged(&mut lines, "provides = ", &r.provides);
    push_tagged(&mut lines, "backup = ", &r.backups);
    push_tagged(&mut lines, "depend = ", &r.depends);
    push_tagged(&mut lines, "optdepend = ", &r.optdepends);
    push_tagged(&mut lines, "makedepend = ", &r.makedepends);
    push_tagged(&mut lines, "checkdepend = ", &r.checkdepends);
    write_lines(&lines)
}

// ---------------------------------------------------------------------------
// Build information

/// What is known of a build.
pub struct BuildFacts {
    pub pkgarch: String,
    pub checksum: String,
    pub packager: String,
    pub builddate: String,
    pub builddir: String,
    pub startdir: String,
    pub buildenv: Vec<String>,
    pub options: Vec<String>,
    /// What the package manager printed of installed packages, if it did.
    pub installed: Option<String>,
}

/// What is known of a build, with its texts taken as sequences of characters.
pub struct FactsView {
    pub pkgarch: Seq<char>,
    pub checksum: Seq<char>,
    pub packager: Seq<char>,
    pub builddate: Seq<char>,
    pub builddir: Seq<char>,
    pub startdir: Seq<char>,
    pub buildenv: Seq<Seq<char>>,
    pub options: Seq<Seq<char>>,
    pub installed: Option<Seq<char>>,
}

impl View for BuildFacts {
    type V = FactsView;

    open spec fn view(&self) -> FactsView {
        FactsView {
            pkgarch: self.pkgarch@,
            checksum: self.checksum@,
            packager: self.packager@,
            builddate: self.builddate@,
            builddir: self.builddir@,
            startdir: self.startdir@,
            buildenv: text::texts(self.buildenv@),
            options: text::texts(self.options@),
            installed: cli::opt_text(self.installed),
        }
    }
}

/// The lines of the build information from its base on.
pub open spec fn build_lines(r: RecipeView, f: FactsView) -> Seq<Seq<char>> {
    seq![
        "pkgbase = "@ + base_name(r.pkgbase, r.pkgnames),
        "pkgver = "@ + full_version(r.pkgver, r.pkgrel),
        "pkgarch = "@ + f.pkgarch,
        "pkgbuild_sha256sum = "@ + f.checksum,
        "packager = "@ + f.packager,
        "builddate = "@ + f.builddate,
        "builddir = "@ + f.builddir,
        "startdir = "@ + f.startdir,
        "buildtool = lkmake"@,
        "buildtoolver = 1.0.0"@,
    ]
}

/// The lines of the build information.
pub open spec fn buildinfo_lines(r: RecipeView, f: FactsView) -> Seq<Seq<char>> {
    seq!["format = 2"@] + tagged("pkgname = "@, r.pkgnames) + build_lines(r, f) + tagged(
        "buildenv = "@,
        f.buildenv,
    ) + tagged("options = "@, f.options) + tagged(
        "installed = "@,
        match f.installed {
            Some(out) => crate::lkmake::entries(text::lines_of(out)),
            None => seq![],
        },
    )
}

/// The text of the build information.
pub fn write_buildinfo(r: &Recipe, f: &BuildFacts) -> (out: String)
    ensures
        out@ == text_of(buildinfo_lines(r@, f@)),
{
    let mut lines: Vec<String> = Vec::new();
    lines.push("format = 2".to_owned());
    assert(text::texts(lines@) =~= seq!["format = 2"@]);
    push_tagged(&mut lines, "pkgname = ", &r.pkgnames);
    let ghost before = text::texts(lines@);
    push_line(&mut lines, "pkgbase = ", &make_base_name(&r.pkgbase, &r.pkgnames));
    push_line(&mut lines, "pkgver = ", &text::join3(&r.pkgver, "-", &r.pkgrel));
    push_line(&mut lines, "pkgarch = ", &f.pkgarch);
    push_line(&mut lines, "pkgbuild_sha256sum = ", &f.checksum);
    push_line(&mut lines, "packager = ", &f.packager);
    push_line(&mut lines, "builddate = ", &f.builddate);
    push_line(&mut lines, "builddir = ", &f.builddir);
    push_line(&mut lines, "startdir = ", &f.startdir);
    let ghost almost = text::texts(lines@);
    lines.push("buildtool = lkmake".to_owned());
    lines.push("buildtoolver = 1.0.0".to_owned());
    assert(text::texts(lines@) =~= almost.push("buildtool = lkmake"@).push(
        "buildtoolver = 1.0.0"@,
    ));
    assert(text::texts(lines@) =~= before + build_lines(r@, f@));
    push_tagged(&mut lines, "buildenv = ", &f.buildenv);
    push_tagged(&mut lines, "options = ", &f.options);
    let installed = match &f.installed {
        Some(out) => crate::lkmake::printed_entries(out),
        None => Vec::new(),
    };
    assert(text::texts(installed@) =~= match f@.installed {
        Some(out) => crate::lkmake::entries(text::lines_of(out)),
        None => seq![],
    });
    push_tagged(&mut lines, "installed = ", &installed);
    write_lines(&lines)
}

// ---------------------------------------------------------------------------
// Names

/// The name of a built package: its first name, or the one that the recipe
/// gives otherwise, with version, release and architecture.
pub open spec fn package_name(
    pkgnames: Seq<Seq<char>>,
    pkgname: Option<Seq<char>>,
    pkgbase: Option<Seq<char>>,
    pkgver: Seq<char>,
    pkgrel: Seq<char>,
    arch: Seq<char>,
) -> Seq<char> {
    let name = if pkgnames.len() > 0 {
        pkgnames[0]
    } else {
        match (pkgname, pkgbase) {
            (Some(n), _) => n,
            (None, Some(b)) => b,
            (None, None) => "package-unknown"@,
        }
    };
    name + "-"@ + pkgver + "-"@ + pkgrel + "-"@ + arch
}

/// The name of a built package.
pub fn read_pkgname(
    pkgnames: &Vec<String>,
    pkgname: &Option<String>,
    pkgbase: &Option<String>,
    pkgver: &str,
    pkgrel: &str,
    arch: &str,
) -> (r: String)
    ensures
        r@ == package_name(
            text::texts(pkgnames@),
            cli::opt_text(*pkgname),
            cli::opt_text(*pkgbase),
            pkgver@,
            pkgrel@,
            arch@,
        ),
{
    assert(text::texts(pkgnames@).len() == pkgnames@.len());
    let name = if pkgnames.len() > 0 {
        assert(text::texts(pkgnames@)[0] == pkgnames@[0]@);
        text::copy(&pkgnames[0])
    } else {
        match (pkgname, pkgbase) {
            (Some(n), _) => text::copy(n),
            (None, Some(b)) => text::copy(b),
            (None, None) => "package-unknown".to_owned(),
        }
    };
    text::join3(&text::join5(&name, "-", pkgver, "-", pkgrel), "-", arch)
}

/// The archive of a built package.
pub fn package_archive(destdir: &str, pkgname: &str) -> (r: String)
    ensures
        r@ == destdir@ + "/"@ + pkgname@ + ".lsk.tar.zst"@,
{
    text::join4(destdir, "/", pkgname, ".lsk.tar.zst")
}

// ---------------------------------------------------------------------------
// What a package description holds

/// Every line is written, each ended by a line break, in order.
pub proof fn every_line_is_written(a: Seq<Seq<char>>, b: Seq<Seq<char>>)
    ensures
        text_of(a + b) == text_of(a) + text_of(b),
        b.len() == 1 ==> text_of(b) == b[0] + "\n"@,
    decreases b.len(),
{
    if b.len() == 0 {
        assert(a + b =~= a);
        assert(text_of(a) + text_of(b) =~= text_of(a));
    } else {
        every_line_is_written(a, b.drop_last());
        assert((a + b).drop_last() =~= a + b.drop_last());
        assert((a + b).last() == b.last());
        assert(text_of(a + b) =~= text_of(a) + text_of(b));
        if b.len() == 1 {
            assert(b.drop_last() =~= seq![]);
            assert(text_of(b.drop_last()) =~= seq![]);
            assert(text_of(b) =~= b[0] + "\n"@);
        }
    }
}

proof fn tagged_holds(tag: Seq<char>, values: Seq<Seq<char>>, k: int)
    requires
        0 <= k < values.len(),
    ensures
        tagged(tag, values).contains(tag + values[k]),
{
    assert(tagged(tag, values)[k] == tag + values[k]);
}

proof fn one_of_two(a: Seq<Seq<char>>, b: Seq<Seq<char>>)
    ensures
        forall|x: Seq<char>| a.contains(x) || b.contains(x) ==> #[trigger] (a + b).contains(x),
{
    assert forall|x: Seq<char>| a.contains(x) || b.contains(x) implies #[trigger] (a
        + b).contains(x) by {
        if a.contains(x) {
            let i = choose|i: int| 0 <= i < a.len() && a[i] == x;
            assert((a + b)[i] == x);
        } else {
            let i = choose|i: int| 0 <= i < b.len() && b[i] == x;
            assert((a + b)[a.len() + i] == x);
        }
    }
}

/// Whatever a recipe lists is in the description of the package, each value
/// under its own key.
pub proof fn every_value_is_described(r: RecipeView, k: int)
    ensures
        ({
            let all = pkginfo_lines(r);
            &&& 0 <= k < r.pkgnames.len() ==> all.contains("pkgname = "@ + r.pkgnames[k])
            &&& 0 <= k < r.xdata.len() ==> all.contains("xdata = "@ + r.xdata[k])
            &&& 0 <= k < r.license.len() ==> all.contains("license = "@ + r.license[k])
            &&& 0 <= k < r.replaces.len() ==> all.contains("replaces = "@ + r.replaces[k])
            &&& 0 <= k < r.groups.len() ==> all.contains("group = "@ + r.groups[k])
            &&& 0 <= k < r.conflicts.len() ==> all.contains("conflict = "@ + r.conflicts[k])
            &&& 0 <= k < r.provides.len() ==> all.contains("provides = "@ + r.provides[k])
            &&& 0 <= k < r.backups.len() ==> all.contains("backup = "@ + r.backups[k])
            &&& 0 <= k < r.depends.len() ==> all.contains("depend = "@ + r.depends[k])
            &&& 0 <= k < r.optdepends.len() ==> all.contains("optdepend = "@ + r.optdepends[k])
            &&& 0 <= k < r.makedepends.len() ==> all.contains("makedepend = "@ + r.makedepends[k])
            &&& 0 <= k < r.checkdepends.len() ==> all.contains(
                "checkdepend = "@ + r.checkdepends[k],
            )
            &&& all.contains("pkgver = "@ + (r.pkgver + "-"@ + r.pkgrel))
            &&& all.contains("url = "@ + r.url)
            &&& all.contains("builddate = "@ + r.builddate)
            &&& all.contains("packager = "@ + r.packager)
            &&& all.contains("size = "@ + text::decimal_of(r.size))
            &&& all.contains("arch = "@ + r.arch)
            &&& r.pkgbase.len() > 0 ==> all.contains("pkgbase = "@ + r.pkgbase)
            &&& r.pkgbase.len() == 0 && r.pkgnames.len() > 0 ==> all.contains(
                "pkgbase = "@ + r.pkgnames[0],
            )
        }),
{
    let a0 = head_lines(r);
    let a1 = a0 + tagged("pkgname = "@, r.pkgnames);
    let base = seq![
        "pkgbase = "@ + base_name(r.pkgbase, r.pkgnames),
        "xdata = pkgtype="@ + kind_name(r.pkgtype),
    ];
    let a2 = a1 + base;
    let a3 = a2 + tagged("xdata = "@, r.xdata);
    let m = middle_lines(r);
    let a4 = a3 + m;
    let a5 = a4 + tagged("license = "@, r.license);
    let a6 = a5 + tagged("replaces = "@, r.replaces);
    let a7 = a6 + tagged("group = "@, r.groups);
    let a8 = a7 + tagged("conflict = "@, r.conflicts);
    let a9 = a8 + tagged("provides = "@, r.provides);
    let a10 = a9 + tagged("backup = "@, r.backups);
    let a11 = a10 + tagged("depend = "@, r.depends);
    let a12 = a11 + tagged("optdepend = "@, r.optdepends);
    let a13 = a12 + tagged("makedepend = "@, r.makedepends);
    let a14 = a13 + tagged("checkdepend = "@, r.checkdepends);
    assert(pkginfo_lines(r) == a14);
    one_of_two(a0, tagged("pkgname = "@, r.pkgnames));
    one_of_two(a1, base);
    one_of_two(a2, tagged("xdata = "@, r.xdata));
    one_of_two(a3, m);
    one_of_two(a4, tagged("license = "@, r.license));
    one_of_two(a5, tagged("replaces = "@, r.replaces));
    one_of_two(a6, tagged("group = "@, r.groups));
    one_of_two(a7, tagged("conflict = "@, r.conflicts));
    one_of_two(a8, tagged("provides = "@, r.provides));
    one_of_two(a9, tagged("backup = "@, r.backups));
    one_of_two(a10, tagged("depend = "@, r.depends));
    one_of_two(a11, tagged("optdepend = "@, r.optdepends));
    one_of_two(a12, tagged("makedepend = "@, r.makedepends));
    one_of_two(a13, tagged("checkdepend = "@, r.checkdepends));
    assert(base.contains(base[0]));
    assert(m.contains(m[0]));
    assert(m.contains(m[2]));
    assert(m.contains(m[3]));
    assert(m.contains(m[4]));
    assert(m.contains(m[5]));
    assert(m.contains(m[6]));
    if 0 <= k < r.pkgnames.len() {
        tagged_holds("pkgname = "@, r.pkgnames, k);
    }
    if 0 <= k < r.xdata.len() {
        tagged_holds("xdata = "@, r.xdata, k);
    }
    if 0 <= k < r.license.len() {
        tagged_holds("license = "@, r.license, k);
    }
    if 0 <= k < r.replaces.len() {
        tagged_holds("replaces = "@, r.replaces, k);
    }
    if 0 <= k < r.groups.len() {
        tagged_holds("group = "@, r.groups, k);
    }
    if 0 <= k < r.conflicts.len() {
        tagged_holds("conflict = "@, r.conflicts, k);
    }
    if 0 <= k < r.provides.len() {
        tagged_holds("provides = "@, r.provides, k);
    }
    if 0 <= k < r.backups.len() {
        tagged_holds("backup = "@, r.backups, k);
    }
    if 0 <= k < r.depends.len() {
        tagged_holds("depend = "@, r.depends, k);
    }
    if 0 <= k < r.optdepends.len() {
        tagged_holds("optdepend = "@, r.optdepends, k);
    }
    if 0 <= k < r.makedepends.len() {
        tagged_holds("makedepend = "@, r.makedepends, k);
    }
    if 0 <= k < r.checkdepends.len() {
        tagged_holds("checkdepend = "@, r.checkdepends, k);
    }
}

/// The name of a package file is made of the first name that is known, the
/// version, the release and the architecture.
pub proof fn package_files_bear_their_version(
    pkgnames: Seq<Seq<char>>,
    pkgname: Seq<char>,
    pkgbase: Seq<char>,
    pkgver: Seq<char>,
    pkgrel: Seq<char>,
    arch: Seq<char>,
)
    ensures
        pkgnames.len() > 0 ==> package_name(
            pkgnames,
            Some(pkgname),
            Some(pkgbase),
            pkgver,
            pkgrel,
            arch,
        ) == pkgnames[0] + "-"@ + pkgver + "-"@ + pkgrel + "-"@ + arch,
        package_name(seq![], Some(pkgname), Some(pkgbase), pkgver, pkgrel, arch) == pkgname + "-"@
            + pkgver + "-"@ + pkgrel + "-"@ + arch,
        package_name(seq![], None, Some(pkgbase), pkgver, pkgrel, arch) == pkgbase + "-"@ + pkgver
            + "-"@ + pkgrel + "-"@ + arch,
{
}

/// How a package was built is noted in full, each fact under its own key.
pub proof fn every_build_fact_is_noted(r: RecipeView, f: FactsView, k: int)
    ensures
        ({
            let all = buildinfo_lines(r, f);
            &&& 0 <= k < r.pkgnames.len() ==> all.contains("pkgname = "@ + r.pkgnames[k])
            &&& 0 <= k < f.buildenv.len() ==> all.contains("buildenv = "@ + f.buildenv[k])
            &&& 0 <= k < f.options.len() ==> all.contains("options = "@ + f.options[k])
            &&& all.contains("pkgver = "@ + (r.pkgver + "-"@ + r.pkgrel))
            &&& all.contains("pkgarch = "@ + f.pkgarch)
            &&& all.contains("pkgbuild_sha256sum = "@ + f.checksum)
            &&& all.contains("packager = "@ + f.packager)
            &&& all.contains("builddate = "@ + f.builddate)
            &&& all.contains("builddir = "@ + f.builddir)
            &&& all.contains("startdir = "@ + f.startdir)
        }),
{
    let installed = tagged(
        "installed = "@,
        match f.installed {
            Some(out) => crate::lkmake::entries(text::lines_of(out)),
            None => seq![],
        },
    );
    let a0 = seq!["format = 2"@];
    let a1 = a0 + tagged("pkgname = "@, r.pkgnames);
    let b = build_lines(r, f);
    let a2 = a1 + b;
    let a3 = a2 + tagged("buildenv = "@, f.buildenv);
    let a4 = a3 + tagged("options = "@, f.options);
    assert(buildinfo_lines(r, f) == a4 + installed);
    one_of_two(a0, tagged("pkgname = "@, r.pkgnames));
    one_of_two(a1, b);
    one_of_two(a2, tagged("buildenv = "@, f.buildenv));
    one_of_two(a3, tagged("options = "@, f.options));
    one_of_two(a4, installed);
    assert(b.contains(b[1]));
    assert(b.contains(b[2]));
    assert(b.contains(b[3]));
    assert(b.contains(b[4]));
    assert(b.contains(b[5]));
    assert(b.contains(b[6]));
    assert(b.contains(b[7]));
    if 0 <= k < r.pkgnames.len() {
        tagged_holds("pkgname = "@, r.pkgnames, k);
    }
    if 0 <= k < f.buildenv.len() {
        tagged_holds("buildenv = "@, f.buildenv, k);
    }
    if 0 <= k < f.options.len() {
        tagged_holds("options = "@, f.options, k);
    }
}

} // verus!
