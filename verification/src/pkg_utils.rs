//! Packages: their metadata, their archives and the files that they install.
use vstd::prelude::*;

use crate::archive;
use crate::archive::Member;
use crate::error;
use crate::error::LkpmError;
use crate::path;
use crate::rawpath;
use crate::repo;
use crate::text;

verus! {

// ---------------------------------------------------------------------------
// Names of dependencies

/// Whether a character begins a version constraint.
pub open spec fn is_operator(c: char) -> bool {
    c == '<' || c == '>' || c == '='
}

/// The number of characters before the first version constraint.
pub open spec fn bare_len(s: Seq<char>) -> nat
    decreases s.len(),
{
    if s.len() == 0 || is_operator(s[0]) {
        0
    } else {
        1 + bare_len(s.drop_first())
    }
}

/// The package that a dependency names: without the description after a
/// colon, without a version constraint, without white space around it.
pub open spec fn dependency_name(value: Seq<char>) -> Seq<char> {
    let dep = text::first_piece(value, ':');
    text::trimmed(dep.take(bare_len(dep) as int))
}

/// The package that a dependency names.
pub fn normalize_dependency_name(value: &str) -> (r: String)
    ensures
        r@ == dependency_name(value@),
{
    let dep = text::first_part(value, ':');
    let c = text::to_chars(&dep);
    let mut end: usize = 0;
    assert(c@.skip(0) =~= c@);
    while end < c.len() && c[end] != '<' && c[end] != '>' && c[end] != '='
        invariant
            end <= c@.len(),
            bare_len(c@) == end + bare_len(c@.skip(end as int)),
        decreases c@.len() - end,
    {
        assert(c@.skip(end as int).drop_first() =~= c@.skip(end + 1));
        end = end + 1;
    }
    assert(c@.take(end as int) =~= c@.subrange(0, end as int));
    text::trim(&text::range_string(&c, 0, end))
}

/// The bare length is where the first version constraint stands.
pub proof fn bare_len_bounds(s: Seq<char>)
    ensures
        bare_len(s) <= s.len(),
        forall|i: int| 0 <= i < bare_len(s) ==> !is_operator(#[trigger] s[i]),
        bare_len(s) < s.len() ==> is_operator(s[bare_len(s) as int]),
    decreases s.len(),
{
    if s.len() > 0 && !is_operator(s[0]) {
        bare_len_bounds(s.drop_first());
        assert forall|i: int| 0 <= i < bare_len(s) implies !is_operator(#[trigger] s[i]) by {
            if i > 0 {
                assert(s.drop_first()[i - 1] == s[i]);
            }
        }
    }
}

/// Trimming takes a contiguous part of the text that has no white space at either end.
pub proof fn trimmed_is_part(s: Seq<char>) -> (from: int)
    ensures
        0 <= from <= from + text::trimmed(s).len() <= s.len(),
        text::trimmed(s) == s.subrange(from, from + text::trimmed(s).len()),
        text::trimmed(s).len() > 0 ==> !text::is_space(text::trimmed(s)[0]) && !text::is_space(text::trimmed(s).last()),
{
    text::trimmed_start_shape(s);
    let t = text::trimmed_start(s);
    trimmed_end_shape(t);
    let from = s.len() - t.len();
    assert(t =~= s.subrange(from, s.len() as int));
    assert(text::trimmed(s) =~= s.subrange(from, from + text::trimmed(s).len()));
    from
}

/// Trimming the end leaves a prefix that ends in no white space.
pub proof fn trimmed_end_shape(s: Seq<char>)
    ensures
        text::trimmed_end(s).len() <= s.len(),
        text::trimmed_end(s) == s.take(text::trimmed_end(s).len() as int),
        text::trimmed_end(s).len() > 0 ==> !text::is_space(text::trimmed_end(s).last()),
    decreases s.len(),
{
    if s.len() > 0 && text::is_space(s.last()) {
        trimmed_end_shape(s.drop_last());
        assert(s.drop_last().take(text::trimmed_end(s).len() as int) =~= s.take(
            text::trimmed_end(s).len() as int,
        ));
    } else {
        assert(s.take(s.len() as int) =~= s);
    }
}

/// Text with no white space at either end is its own trimming.
pub proof fn trimmed_fixed(s: Seq<char>)
    requires
        s.len() > 0 ==> !text::is_space(s[0]) && !text::is_space(s.last()),
    ensures
        text::trimmed(s) == s,
{
}

/// Naming the package of a dependency twice is naming it once.
pub proof fn dependency_name_idempotent(value: Seq<char>)
    ensures
        dependency_name(dependency_name(value)) == dependency_name(value),
{
    let dep = text::first_piece(value, ':');
    text::first_index_bounds(value, ':');
    bare_len_bounds(dep);
    let bare = dep.take(bare_len(dep) as int);
    let from = trimmed_is_part(bare);
    let n = dependency_name(value);
    assert forall|i: int| 0 <= i < n.len() implies n[i] != ':' && !is_operator(#[trigger] n[i]) by {
        assert(n[i] == bare[from + i]);
        assert(bare[from + i] == dep[from + i]);
        assert(dep[from + i] == value[from + i]);
    }
    text::first_index_is(n, ':', n.len() as int);
    assert(n.take(n.len() as int) =~= n);
    bare_len_bounds(n);
    trimmed_fixed(n);
}

// ---------------------------------------------------------------------------
// Metadata

/// What a package says of itself.
#[derive(Clone, Debug)]
pub struct PackageMetadata {
    pub name: String,
    pub version: String,
    pub arch: String,
    pub depends: Vec<String>,
    pub optdepends: Vec<String>,
    pub conflicts: Vec<String>,
    pub provides: Vec<String>,
    pub backups: Vec<String>,
}

/// What a package says of itself, with its texts taken as sequences of characters.
#[verifier::ext_equal]
pub struct MetadataView {
    pub name: Seq<char>,
    pub version: Seq<char>,
    pub arch: Seq<char>,
    pub depends: Seq<Seq<char>>,
    pub optdepends: Seq<Seq<char>>,
    pub conflicts: Seq<Seq<char>>,
    pub provides: Seq<Seq<char>>,
    pub backups: Seq<Seq<char>>,
}

impl View for PackageMetadata {
    type V = MetadataView;

    open spec fn view(&self) -> MetadataView {
        MetadataView {
            name: self.name@,
            version: self.version@,
            arch: self.arch@,
            depends: text::texts(self.depends@),
            optdepends: text::texts(self.optdepends@),
            conflicts: text::texts(self.conflicts@),
            provides: text::texts(self.provides@),
            backups: text::texts(self.backups@),
        }
    }
}

impl PackageMetadata {
    /// A copy of the metadata.
    pub fn copy(&self) -> (r: PackageMetadata)
        ensures
            r@ == self@,
    {
        PackageMetadata {
            name: text::copy(&self.name),
            version: text::copy(&self.version),
            arch: text::copy(&self.arch),
            depends: text::copy_all(&self.depends),
            optdepends: text::copy_all(&self.optdepends),
            conflicts: text::copy_all(&self.conflicts),
            provides: text::copy_all(&self.provides),
            backups: text::copy_all(&self.backups),
        }
    }
}

/// Metadata that says nothing.
pub open spec fn no_metadata() -> MetadataView {
    MetadataView {
        name: seq![],
        version: seq![],
        arch: seq![],
        depends: seq![],
        optdepends: seq![],
        conflicts: seq![],
        provides: seq![],
        backups: seq![],
    }
}

/// The value of a field that can be written in two ways.
pub open spec fn field_value(line: Seq<char>, one: Seq<char>, many: Seq<char>) -> Option<Seq<char>> {
    match text::after_prefix(line, one) {
        Some(v) => Some(v),
        None => text::after_prefix(line, many),
    }
}

/// A list with one more text at its end, unless the text is empty.
pub open spec fn with_entry(list: Seq<Seq<char>>, entry: Seq<char>) -> Seq<Seq<char>> {
    if entry.len() == 0 {
        list
    } else {
        list.push(entry)
    }
}

/// The package that a dependency names, under the name it is kept by; empty
/// if the dependency names none.
pub open spec fn kept_name(value: Seq<char>) -> Seq<char> {
    let dep = dependency_name(value);
    if dep.len() == 0 {
        seq![]
    } else {
        repo::canonical(dep)
    }
}

/// Metadata after one more line. The last name, version and architecture
/// count; dependencies add up.
pub open spec fn with_line(m: MetadataView, line: Seq<char>) -> MetadataView {
    match text::after_prefix(line, "pkgname ="@) {
        Some(v) => MetadataView { name: text::trimmed(v), ..m },
        None => match text::after_prefix(line, "pkgver ="@) {
            Some(v) => MetadataView { version: text::trimmed(v), ..m },
            None => match text::after_prefix(line, "arch ="@) {
                Some(v) => MetadataView { arch: text::trimmed(v), ..m },
                None => match field_value(line, "depend ="@, "depends ="@) {
                    Some(v) => MetadataView { depends: with_entry(m.depends, kept_name(v)), ..m },
                    None => match field_value(line, "optdepend ="@, "optdepends ="@) {
                        Some(v) => MetadataView {
                            optdepends: with_entry(m.optdepends, kept_name(v)),
                            ..m
                        },
                        None => match field_value(line, "provide ="@, "provides ="@) {
                            Some(v) => MetadataView {
                                provides: with_entry(m.provides, kept_name(v)),
                                ..m
                            },
                            None => match field_value(line, "conflict ="@, "conflicts ="@) {
                                Some(v) => MetadataView {
                                    conflicts: with_entry(m.conflicts, dependency_name(v)),
                                    ..m
                                },
                                None => match field_value(line, "backup ="@, "backups ="@) {
                                    Some(v) => MetadataView {
                                        backups: with_entry(
                                            m.backups,
                                            text::without_leading(text::trimmed(v), '/'),
                                        ),
                                        ..m
                                    },
                                    None => m,
                                },
                            },
                        },
                    },
                },
            },
        },
    }
}

/// What the lines of a package's information say of it.
pub open spec fn metadata_of(lines: Seq<Seq<char>>) -> MetadataView
    decreases lines.len(),
{
    if lines.len() == 0 {
        no_metadata()
    } else {
        with_line(metadata_of(lines.drop_last()), lines.last())
    }
}

/// What a package's information says of it, or what is missing.
pub open spec fn pkginfo(info: Seq<char>) -> Result<MetadataView, Seq<char>> {
    let m = metadata_of(text::lines_of(info));
    if m.name.len() == 0 {
        Err("Package metadata missing pkgname!"@)
    } else if m.version.len() == 0 {
        Err("Package metadata missing pkgver!"@)
    } else {
        Ok(m)
    }
}

/// Whether text is empty.
fn blank(s: &String) -> (r: bool)
    ensures
        r == (s@.len() == 0),
{
    s.as_str().is_empty()
}

fn read_field(line: &str, one: &str, many: &str) -> (r: Option<String>)
    ensures
        match r {
            Some(v) => field_value(line@, one@, many@) == Some(v@),
            None => field_value(line@, one@, many@) is None,
        },
{
    match text::strip_prefix(line, one) {
        Some(v) => Some(v),
        None => text::strip_prefix(line, many),
    }
}

fn push_entry(list: &mut Vec<String>, entry: String)
    ensures
        text::texts(final(list)@) == with_entry(text::texts(old(list)@), entry@),
{
    if !blank(&entry) {
        let ghost before = list@;
        let ghost e = entry@;
        list.push(entry);
        assert(text::texts(list@) =~= text::texts(before).push(e));
    }
}

fn keep_name(value: &str) -> (r: String)
    ensures
        r@ == kept_name(value@),
{
    let dep = normalize_dependency_name(value);
    if blank(&dep) {
        assert(dep@ =~= kept_name(value@));
        dep
    } else {
        repo::canonical_package_name(&dep).to_owned()
    }
}

fn read_line(m: &mut PackageMetadata, line: &str)
    ensures
        final(m)@ == with_line(old(m)@, line@),
{
    if let Some(v) = text::strip_prefix(line, "pkgname =") {
        m.name = text::trim(&v);
    } else if let Some(v) = text::strip_prefix(line, "pkgver =") {
        m.version = text::trim(&v);
    } else if let Some(v) = text::strip_prefix(line, "arch =") {
        m.arch = text::trim(&v);
    } else if let Some(v) = read_field(line, "depend =", "depends =") {
        push_entry(&mut m.depends, keep_name(&v));
    } else if let Some(v) = read_field(line, "optdepend =", "optdepends =") {
        push_entry(&mut m.optdepends, keep_name(&v));
    } else if let Some(v) = read_field(line, "provide =", "provides =") {
        push_entry(&mut m.provides, keep_name(&v));
    } else if let Some(v) = read_field(line, "conflict =", "conflicts =") {
        push_entry(&mut m.conflicts, normalize_dependency_name(&v));
    } else if let Some(v) = read_field(line, "backup =", "backups =") {
        push_entry(&mut m.backups, text::trim_leading(&text::trim(&v), '/'));
    }
}

/// Reads a package's information.
pub fn parse_pkginfo(info: &str) -> (r: Result<PackageMetadata, LkpmError>)
    ensures
        match r {
            Ok(m) => pkginfo(info@) == Ok::<MetadataView, Seq<char>>(m@),
            Err(e) => pkginfo(info@) is Err && e@ == error::ErrorView::Other(
                pkginfo(info@)->Err_0,
            ),
        },
{
    let lines = text::lines(info);
    let ghost all = text::lines_of(info@);
    let mut m = PackageMetadata {
        name: String::new(),
        version: String::new(),
        arch: String::new(),
        depends: Vec::new(),
        optdepends: Vec::new(),
        conflicts: Vec::new(),
        provides: Vec::new(),
        backups: Vec::new(),
    };
    assert(m@ =~= metadata_of(all.take(0)));
    let mut i: usize = 0;
    while i < lines.len()
        invariant
            i <= lines@.len(),
            all == text::texts(lines@),
            m@ == metadata_of(all.take(i as int)),
        decreases lines@.len() - i,
    {
        assert(all.take(i + 1).drop_last() =~= all.take(i as int));
        assert(all[i as int] == lines@[i as int]@);
        read_line(&mut m, &lines[i]);
        i = i + 1;
    }
    assert(all.take(all.len() as int) =~= all);
    if blank(&m.name) {
        return Err(error::other("Package metadata missing pkgname!"));
    }
    if blank(&m.version) {
        return Err(error::other("Package metadata missing pkgver!"));
    }
    Ok(m)
}

// ---------------------------------------------------------------------------
// Build information

/// The checksum that a line of build information gives, if it does: the first
/// word after the field's name and an optional equals sign, without the
/// square brackets around it.
pub open spec fn line_checksum(line: Seq<char>) -> Option<Seq<char>> {
    match text::after_prefix(text::trimmed(line), "pkgbuild_sha256sum"@) {
        Some(rest) => {
            let start = text::trimmed_start(rest);
            let value = text::trimmed(
                if text::has_prefix(start, "="@) {
                    start.skip(1)
                } else {
                    start
                },
            );
            let words = text::words_of(value);
            if value.len() == 0 || words.len() == 0 {
                None
            } else {
                let hash = without_brackets(words[0]);
                if hash.len() == 0 {
                    None
                } else {
                    Some(hash)
                }
            }
        },
        None => None,
    }
}

/// Text without the square brackets around it, if both are there, and without
/// the white space that then stands around it.
pub open spec fn without_brackets(word: Seq<char>) -> Seq<char> {
    let hash = text::trimmed(word);
    text::trimmed(
        if hash.len() > 1 && hash[0] == '[' && hash.last() == ']' {
            hash.subrange(1, hash.len() - 1)
        } else {
            hash
        },
    )
}

/// The first checksum that the lines from the `i`th on give.
pub open spec fn first_checksum(lines: Seq<Seq<char>>, i: int) -> Option<Seq<char>>
    decreases lines.len() - i,
{
    if i < 0 || i >= lines.len() {
        None
    } else {
        match line_checksum(lines[i]) {
            Some(h) => Some(h),
            None => first_checksum(lines, i + 1),
        }
    }
}

fn read_checksum(line: &str) -> (r: Option<String>)
    ensures
        match r {
            Some(h) => line_checksum(line@) == Some(h@),
            None => line_checksum(line@) is None,
        },
{
    match text::strip_prefix(&text::trim(line), "pkgbuild_sha256sum") {
        Some(rest) => {
            let start = text::trim_start(&rest);
            proof {
                reveal_strlit("=");
            }
            let value = match text::strip_prefix(&start, "=") {
                Some(v) => text::trim(&v),
                None => text::trim(&start),
            };
            let words = text::words(&value);
            let ghost all = text::words_of(value@);
            assert(words@.len() == all.len());
            if blank(&value) || words.len() == 0 {
                return None;
            }
            assert(all[0] == words@[0]@);
            let hash = text::trim(&words[0]);
            let c = text::to_chars(&hash);
            let n: usize = c.len();
            let inner = if n > 1 && c[0] == '[' && c[n - 1] == ']' {
                text::range_string(&c, 1, n - 1)
            } else {
                hash
            };
            let out = text::trim(&inner);
            if blank(&out) {
                None
            } else {
                Some(out)
            }
        },
        None => None,
    }
}

/// The checksum of the build recipe that a package's build information gives.
pub fn parse_buildinfo_sha256(info: &str) -> (r: Option<String>)
    ensures
        match r {
            Some(h) => first_checksum(text::lines_of(info@), 0) == Some(h@),
            None => first_checksum(text::lines_of(info@), 0) is None,
        },
{
    let lines = text::lines(info);
    let ghost all = text::lines_of(info@);
    let mut i: usize = 0;
    while i < lines.len()
        invariant
            i <= lines@.len(),
            all == text::texts(lines@),
            all == text::lines_of(info@),
            first_checksum(all, 0) == first_checksum(all, i as int),
        decreases lines@.len() - i,
    {
        assert(all[i as int] == lines@[i as int]@);
        if let Some(h) = read_checksum(&lines[i]) {
            return Some(h);
        }
        i = i + 1;
    }
    None
}

// ---------------------------------------------------------------------------
// Archives

/// How a package is compressed.
#[derive(PartialEq, Eq, Structural, Clone, Copy, Debug)]
pub enum PackageFormat {
    Zstd,
    Xz,
    Gzip,
    Plain,
}

/// How a package is compressed, by the end of its path in lower case.
pub open spec fn format_of(lower: Seq<char>) -> Option<PackageFormat> {
    if text::has_suffix(lower, ".tar.zst"@) {
        Some(PackageFormat::Zstd)
    } else if text::has_suffix(lower, ".tar.xz"@) {
        Some(PackageFormat::Xz)
    } else if text::has_suffix(lower, ".tar.gz"@) {
        Some(PackageFormat::Gzip)
    } else if text::has_suffix(lower, ".tar"@) {
        Some(PackageFormat::Plain)
    } else {
        None
    }
}

/// How a package is compressed, by the end of its path in lower case.
pub fn package_format(lower: &str) -> (r: Option<PackageFormat>)
    ensures
        r == format_of(lower@),
{
    if text::ends_with(lower, ".tar.zst") {
        Some(PackageFormat::Zstd)
    } else if text::ends_with(lower, ".tar.xz") {
        Some(PackageFormat::Xz)
    } else if text::ends_with(lower, ".tar.gz") {
        Some(PackageFormat::Gzip)
    } else if text::ends_with(lower, ".tar") {
        Some(PackageFormat::Plain)
    } else {
        None
    }
}

/// How a package is compressed, by its path.
pub fn detect_format(package: &str) -> (r: Result<PackageFormat, String>)
    ensures
        match r {
            Ok(f) => format_of(text::lowercase_of(package@)) == Some(f),
            Err(e) => format_of(text::lowercase_of(package@)) is None && e@
                == "Unsupported package format: "@ + package@,
        },
{
    match package_format(&text::to_lowercase(package)) {
        Some(f) => Ok(f),
        None => Err(text::join2("Unsupported package format: ", package)),
    }
}

/// The members of a package.
pub open spec fn members_of(package: Seq<char>, data: Seq<u8>) -> Result<
    archive::Listing,
    Seq<char>,
> {
    match format_of(text::lowercase_of(package)) {
        Some(PackageFormat::Zstd) => archive::zstd_tar(data),
        Some(PackageFormat::Xz) => archive::xz_tar(data),
        Some(PackageFormat::Gzip) => archive::gz_tar(data),
        Some(PackageFormat::Plain) => archive::plain_tar(data),
        None => Err("Unsupported package format: "@ + package),
    }
}

/// The members of a package, by its path and its bytes.
pub fn open_package(package: &str, data: &[u8]) -> (r: Result<Vec<Result<Member, String>>, String>)
    ensures
        archive::opened(r) == members_of(package@, data@),
{
    match detect_format(package) {
        Ok(PackageFormat::Zstd) => archive::read_zstd_tar(data),
        Ok(PackageFormat::Xz) => archive::read_xz_tar(data),
        Ok(PackageFormat::Gzip) => archive::read_gz_tar(data),
        Ok(PackageFormat::Plain) => archive::read_plain_tar(data),
        Err(e) => Err(e),
    }
}

/// A list of names without those that stay where they are.
pub open spec fn moving(names: Seq<Seq<u8>>) -> Seq<Seq<u8>>
    decreases names.len(),
{
    if names.len() == 0 {
        seq![]
    } else if rawpath::units(names.last()) == "."@ {
        moving(names.drop_last())
    } else {
        moving(names.drop_last()).push(names.last())
    }
}

/// Whether one of the names leads upwards.
pub open spec fn leads_up(names: Seq<Seq<u8>>) -> bool {
    exists|i: int| 0 <= i < names.len() && rawpath::units(#[trigger] names[i]) == ".."@
}

/// Where a member of a package goes below the root that the package is
/// installed to, unless it would leave that root.
pub open spec fn clean_path(p: Seq<u8>) -> Option<Seq<u8>> {
    if leads_up(rawpath::names(p)) {
        None
    } else {
        Some(rawpath::slashed(moving(rawpath::names(p))))
    }
}

/// What is said of a member that would leave the root.
pub open spec fn unsafe_path(p: Seq<u8>) -> Seq<char> {
    "Package contains unsafe path: "@ + rawpath::shown_as(p)
}

/// Where a member of a package goes below the root that the package is installed to.
pub fn sanitize_entry_path(p: &[u8]) -> (r: Result<Vec<u8>, LkpmError>)
    ensures
        match r {
            Ok(c) => clean_path(p@) == Some(c@),
            Err(e) => clean_path(p@) is None && e@ == error::ErrorView::Other(unsafe_path(p@)),
        },
{
    let names = rawpath::names_of(p);
    let ghost all = rawpath::names(p@);
    let mut kept: Vec<Vec<u8>> = Vec::new();
    let mut i: usize = 0;
    assert(rawpath::raws(kept@) =~= moving(all.take(0)));
    while i < names.len()
        invariant
            i <= names@.len(),
            all == rawpath::raws(names@),
            all == rawpath::names(p@),
            rawpath::raws(kept@) == moving(all.take(i as int)),
            forall|k: int| 0 <= k < i ==> rawpath::units(#[trigger] all[k]) != ".."@,
        decreases names@.len() - i,
    {
        assert(all[i as int] == names@[i as int]@);
        assert(all.take(i + 1).drop_last() =~= all.take(i as int));
        if rawpath::reads(names[i].as_slice(), "..") {
            assert(leads_up(all));
            return Err(
                error::other(&text::join2("Package contains unsafe path: ", &rawpath::shown(p))),
            );
        }
        if !rawpath::reads(names[i].as_slice(), ".") {
            let ghost before = kept@;
            kept.push(rawpath::copy(names[i].as_slice()));
            assert(rawpath::raws(kept@) =~= rawpath::raws(before).push(all[i as int]));
        }
        i = i + 1;
    }
    assert(all.take(all.len() as int) =~= all);
    assert(!leads_up(all));
    Ok(rawpath::join_names(&kept))
}

/// The first member from the `i`th on that goes to a place, if every member
/// up to it can be read and stays below the root.
pub open spec fn member_at(members: archive::Listing, i: int, place: Seq<char>) -> Result<
    Option<archive::MemberView>,
    Seq<char>,
>
    decreases members.len() - i,
{
    if i < 0 || i >= members.len() {
        Ok(None)
    } else {
        match members[i] {
            Err(e) => Err(e),
            Ok(m) => match clean_path(m.path) {
                None => Err(unsafe_path(m.path)),
                Some(c) => if rawpath::units(c) == place {
                    Ok(Some(m))
                } else {
                    member_at(members, i + 1, place)
                },
            },
        }
    }
}

/// The text of the member that goes to a place.
pub open spec fn text_at(members: archive::Listing, place: Seq<char>) -> Result<
    Option<Seq<char>>,
    Seq<char>,
> {
    match member_at(members, 0, place) {
        Err(e) => Err(e),
        Ok(None) => Ok(None),
        Ok(Some(m)) => match archive::member_text(m) {
            Ok(t) => Ok(Some(t)),
            Err(e) => Err(e),
        },
    }
}

/// The text of the member that goes to a place.
pub fn member_text_at(members: &Vec<Result<Member, String>>, place: &str) -> (r: Result<
    Option<String>,
    LkpmError,
>)
    ensures
        match r {
            Ok(Some(t)) => text_at(archive::listing(members@), place@) == Ok::<
                Option<Seq<char>>,
                Seq<char>,
            >(Some(t@)),
            Ok(None) => text_at(archive::listing(members@), place@) == Ok::<
                Option<Seq<char>>,
                Seq<char>,
            >(None),
            Err(e) => text_at(archive::listing(members@), place@) is Err && e@
                == error::ErrorView::Other(text_at(archive::listing(members@), place@)->Err_0),
        },
{
    let ghost all = archive::listing(members@);
    let mut i: usize = 0;
    while i < members.len()
        invariant
            i <= members@.len(),
            all == archive::listing(members@),
            member_at(all, 0, place@) == member_at(all, i as int, place@),
        decreases members@.len() - i,
    {
        match &members[i] {
            Err(e) => {
                assert(all[i as int] == Err::<archive::MemberView, Seq<char>>(e@));
                return Err(error::other(e));
            },
            Ok(m) => {
                assert(all[i as int] == Ok::<archive::MemberView, Seq<char>>(m@));
                match sanitize_entry_path(m.path.as_slice()) {
                    Err(e) => {
                        return Err(e);
                    },
                    Ok(c) => {
                        if rawpath::reads(c.as_slice(), place) {
                            return match m.text() {
                                Ok(t) => Ok(Some(t)),
                                Err(e) => Err(error::other(&e)),
                            };
                        }
                    },
                }
            },
        }
        i = i + 1;
    }
    Ok(None)
}

/// What the members of a package say of it.
pub open spec fn metadata_in(
    package: Seq<char>,
    members: Result<archive::Listing, Seq<char>>,
) -> Result<MetadataView, Seq<char>> {
    match members {
        Err(e) => Err(e),
        Ok(l) => match text_at(l, ".PKGINFO"@) {
            Err(e) => Err(e),
            Ok(None) => Err(".PKGINFO is missing on "@ + package + "!"@),
            Ok(Some(t)) => pkginfo(t),
        },
    }
}

/// What the members of a package say of it.
pub fn metadata_in_members(
    package: &str,
    members: &Result<Vec<Result<Member, String>>, String>,
) -> (r: Result<PackageMetadata, LkpmError>)
    ensures
        match r {
            Ok(m) => metadata_in(package@, archive::opened(*members)) == Ok::<
                MetadataView,
                Seq<char>,
            >(m@),
            Err(e) => metadata_in(package@, archive::opened(*members)) is Err && e@
                == error::ErrorView::Other(
                metadata_in(package@, archive::opened(*members))->Err_0,
            ),
        },
{
    match members {
        Err(e) => Err(error::other(e)),
        Ok(l) => match member_text_at(l, ".PKGINFO") {
            Err(e) => Err(e),
            Ok(None) => Err(error::other(&text::join3(".PKGINFO is missing on ", package, "!"))),
            Ok(Some(t)) => parse_pkginfo(&t),
        },
    }
}

/// What a package says of itself, by its path and its bytes.
pub fn read_package_metadata(package: &str, data: &[u8]) -> (r: Result<PackageMetadata, LkpmError>)
    ensures
        match r {
            Ok(m) => metadata_in(package@, members_of(package@, data@)) == Ok::<
                MetadataView,
                Seq<char>,
            >(m@),
            Err(e) => metadata_in(package@, members_of(package@, data@)) is Err && e@
                == error::ErrorView::Other(
                metadata_in(package@, members_of(package@, data@))->Err_0,
            ),
        },
{
    metadata_in_members(package, &open_package(package, data))
}

/// The text of a member, if the members can be had.
pub open spec fn text_in(
    members: Result<archive::Listing, Seq<char>>,
    place: Seq<char>,
) -> Result<Option<Seq<char>>, Seq<char>> {
    match members {
        Err(e) => Err(e),
        Ok(l) => text_at(l, place),
    }
}

/// The install script that the members of a package hold.
pub fn install_script_in_members(members: &Result<Vec<Result<Member, String>>, String>) -> (r:
    Result<Option<String>, LkpmError>)
    ensures
        match r {
            Ok(Some(t)) => text_in(archive::opened(*members), ".INSTALL"@) == Ok::<
                Option<Seq<char>>,
                Seq<char>,
            >(Some(t@)),
            Ok(None) => text_in(archive::opened(*members), ".INSTALL"@) == Ok::<
                Option<Seq<char>>,
                Seq<char>,
            >(None),
            Err(e) => text_in(archive::opened(*members), ".INSTALL"@) is Err && e@
                == error::ErrorView::Other(text_in(archive::opened(*members), ".INSTALL"@)->Err_0),
        },
{
    match members {
        Err(e) => Err(error::other(e)),
        Ok(l) => member_text_at(l, ".INSTALL"),
    }
}

/// The install script that a package holds, by its path and its bytes.
pub fn read_package_install_script(package: &str, data: &[u8]) -> (r: Result<
    Option<String>,
    LkpmError,
>)
    ensures
        ({
            let found = text_in(members_of(package@, data@), ".INSTALL"@);
            match r {
                Ok(Some(t)) => found == Ok::<Option<Seq<char>>, Seq<char>>(Some(t@)),
                Ok(None) => found == Ok::<Option<Seq<char>>, Seq<char>>(None),
                Err(e) => found is Err && e@ == error::ErrorView::Other(found->Err_0),
            }
        }),
{
    install_script_in_members(&open_package(package, data))
}

/// The checksum of the build recipe that the members of a package give.
pub open spec fn build_checksum(members: Result<archive::Listing, Seq<char>>) -> Result<
    Option<Seq<char>>,
    Seq<char>,
> {
    match text_in(members, ".BUILDINFO"@) {
        Err(e) => Err(e),
        Ok(None) => Ok(None),
        Ok(Some(t)) => Ok(first_checksum(text::lines_of(t), 0)),
    }
}

/// The checksum of the build recipe that the members of a package give.
pub fn buildinfo_sha256_in_members(members: &Result<Vec<Result<Member, String>>, String>) -> (r:
    Result<Option<String>, LkpmError>)
    ensures
        match r {
            Ok(Some(t)) => build_checksum(archive::opened(*members)) == Ok::<
                Option<Seq<char>>,
                Seq<char>,
            >(Some(t@)),
            Ok(None) => build_checksum(archive::opened(*members)) == Ok::<
                Option<Seq<char>>,
                Seq<char>,
            >(None),
            Err(e) => build_checksum(archive::opened(*members)) is Err && e@
                == error::ErrorView::Other(build_checksum(archive::opened(*members))->Err_0),
        },
{
    match members {
        Err(e) => Err(error::other(e)),
        Ok(l) => match member_text_at(l, ".BUILDINFO") {
            Err(e) => Err(e),
            Ok(None) => Ok(None),
            Ok(Some(t)) => Ok(parse_buildinfo_sha256(&t)),
        },
    }
}

/// The checksum of the build recipe that a package gives, by its path and its bytes.
pub fn package_buildinfo_sha256(package: &str, data: &[u8]) -> (r: Result<
    Option<String>,
    LkpmError,
>)
    ensures
        ({
            let found = build_checksum(members_of(package@, data@));
            match r {
                Ok(Some(t)) => found == Ok::<Option<Seq<char>>, Seq<char>>(Some(t@)),
                Ok(None) => found == Ok::<Option<Seq<char>>, Seq<char>>(None),
                Err(e) => found is Err && e@ == error::ErrorView::Other(found->Err_0),
            }
        }),
{
    buildinfo_sha256_in_members(&open_package(package, data))
}

/// Whether a place holds what a package says of itself, and no file of it.
pub open spec fn is_metadata_place(place: Seq<u8>) -> bool {
    let name = rawpath::units(place);
    name == ".PKGINFO"@ || name == ".MTREE"@ || name == ".INSTALL"@ || name == ".BUILDINFO"@
}

/// Whether a place holds what a package says of itself, and no file of it.
pub fn is_package_metadata_file(place: &[u8]) -> (r: bool)
    ensures
        r == is_metadata_place(place@),
{
    let name = rawpath::unit_text(place);
    text::same(&name, ".PKGINFO") || text::same(&name, ".MTREE") || text::same(&name, ".INSTALL")
        || text::same(&name, ".BUILDINFO")
}

/// The places of the files among the members, or the first fault.
pub open spec fn files_among(members: archive::Listing) -> Result<Seq<Seq<u8>>, Seq<char>>
    decreases members.len(),
{
    if members.len() == 0 {
        Ok(seq![])
    } else {
        match files_among(members.drop_last()) {
            Err(e) => Err(e),
            Ok(files) => match members.last() {
                Err(e) => Err(e),
                Ok(m) => match clean_path(m.path) {
                    None => Err(unsafe_path(m.path)),
                    Some(c) => if is_metadata_place(c) || m.directory {
                        Ok(files)
                    } else {
                        Ok(files.push(c))
                    },
                },
            },
        }
    }
}

/// The places of the files of a package.
pub open spec fn files_in(members: Result<archive::Listing, Seq<char>>) -> Result<
    Seq<Seq<u8>>,
    Seq<char>,
> {
    match members {
        Err(e) => Err(e),
        Ok(l) => files_among(l),
    }
}

/// A fault among the first members is the fault of them all.
proof fn first_fault_stays(members: archive::Listing, k: int)
    requires
        0 <= k <= members.len(),
        files_among(members.take(k)) is Err,
    ensures
        files_among(members) == files_among(members.take(k)),
    decreases members.len(),
{
    if k < members.len() {
        assert(members.drop_last().take(k) =~= members.take(k));
        first_fault_stays(members.drop_last(), k);
    } else {
        assert(members.take(k) =~= members);
    }
}

/// The places of the files that the members of a package hold.
pub fn files_in_members(members: &Result<Vec<Result<Member, String>>, String>) -> (r: Result<
    Vec<Vec<u8>>,
    LkpmError,
>)
    ensures
        match r {
            Ok(v) => files_in(archive::opened(*members)) == Ok::<Seq<Seq<u8>>, Seq<char>>(
                rawpath::raws(v@),
            ),
            Err(e) => files_in(archive::opened(*members)) is Err && e@ == error::ErrorView::Other(
                files_in(archive::opened(*members))->Err_0,
            ),
        },
{
    let l = match members {
        Err(e) => {
            return Err(error::other(e));
        },
        Ok(l) => l,
    };
    let ghost all = archive::listing(l@);
    let mut out: Vec<Vec<u8>> = Vec::new();
    let mut i: usize = 0;
    assert(files_among(all.take(0)) == Ok::<Seq<Seq<u8>>, Seq<char>>(seq![]));
    assert(rawpath::raws(out@) =~= seq![]);
    while i < l.len()
        invariant
            i <= l@.len(),
            all == archive::listing(l@),
            files_in(archive::opened(*members)) == files_among(all),
            files_among(all.take(i as int)) == Ok::<Seq<Seq<u8>>, Seq<char>>(rawpath::raws(out@)),
        decreases l@.len() - i,
    {
        let ghost now = all.take(i + 1);
        assert(now.drop_last() =~= all.take(i as int));
        assert(now.last() == all[i as int]);
        proof {
            if files_among(now) is Err {
                first_fault_stays(all, i + 1);
            }
        }
        match &l[i] {
            Err(e) => {
                assert(all[i as int] == Err::<archive::MemberView, Seq<char>>(e@));
                return Err(error::other(e));
            },
            Ok(m) => {
                assert(all[i as int] == Ok::<archive::MemberView, Seq<char>>(m@));
                match sanitize_entry_path(m.path.as_slice()) {
                    Err(e) => {
                        return Err(e);
                    },
                    Ok(c) => {
                        if !is_package_metadata_file(c.as_slice()) && !m.directory {
                            let ghost before = out@;
                            let ghost place = c@;
                            out.push(c);
                            assert(rawpath::raws(out@) =~= rawpath::raws(before).push(place));
                        }
                    },
                }
            },
        }
        i = i + 1;
    }
    assert(all.take(all.len() as int) =~= all);
    Ok(out)
}

/// The places of the files of a package, by its path and its bytes.
pub fn list_package_files(package: &str, data: &[u8]) -> (r: Result<Vec<Vec<u8>>, LkpmError>)
    ensures
        ({
            let found = files_in(members_of(package@, data@));
            match r {
                Ok(v) => found == Ok::<Seq<Seq<u8>>, Seq<char>>(rawpath::raws(v@)),
                Err(e) => found is Err && e@ == error::ErrorView::Other(found->Err_0),
            }
        }),
{
    files_in_members(&open_package(package, data))
}

/// The names that move are plain, and names of the path.
proof fn moving_plain(p: Seq<u8>, k: int)
    requires
        0 <= k <= rawpath::names(p).len(),
    ensures
        forall|i: int|
            0 <= i < moving(rawpath::names(p).take(k)).len() ==> {
                &&& path::is_plain(rawpath::units(#[trigger] moving(rawpath::names(p).take(k))[i]))
                &&& rawpath::names(p).contains(moving(rawpath::names(p).take(k))[i])
            },
    decreases k,
{
    if k > 0 {
        let all = rawpath::names(p);
        moving_plain(p, k - 1);
        assert(all.take(k).drop_last() =~= all.take(k - 1));
        assert(all.take(k).last() == all[k - 1]);
        rawpath::names_as_units(p);
        assert(rawpath::unit_names(all)[k - 1] == rawpath::units(all[k - 1]));
        path::names_without_slash(rawpath::units(p), k - 1);
        let now = moving(all.take(k));
        let before = moving(all.take(k - 1));
        assert forall|i: int| 0 <= i < now.len() implies {
            &&& path::is_plain(rawpath::units(#[trigger] now[i]))
            &&& all.contains(now[i])
        } by {
            if i < before.len() {
                assert(now[i] == before[i]);
            } else {
                assert(now[i] == all[k - 1]);
            }
        }
    }
}

/// A member of a package goes below the root that the package is installed to,
/// whatever its path in the archive is: the place has the names of the root,
/// then those of the member, and none of them goes up.
pub proof fn members_stay_below(root: Seq<u8>, p: Seq<u8>)
    requires
        clean_path(p) is Some,
        root.len() > 0,
    ensures
        rawpath::names(rawpath::joined(root, clean_path(p)->0)) == rawpath::names(root)
            + rawpath::names(clean_path(p)->0),
        rawpath::names(clean_path(p)->0) == moving(rawpath::names(p)),
        !leads_up(rawpath::names(clean_path(p)->0)),
        !path::is_absolute(rawpath::units(clean_path(p)->0)),
{
    let all = rawpath::names(p);
    let parts = moving(all);
    let c = clean_path(p)->0;
    let base = rawpath::units(root);
    let u = rawpath::unit_names(parts);
    let uc = rawpath::units(c);
    moving_plain(p, all.len() as int);
    assert(all.take(all.len() as int) =~= all);
    assert forall|i: int| 0 <= i < u.len() implies path::is_plain(#[trigger] u[i]) by {
        assert(u[i] == rawpath::units(parts[i]));
    }
    path::names_of_joined(u);
    rawpath::slashed_as_units(parts);
    rawpath::names_as_units(c);
    rawpath::unit_names_tell_apart(rawpath::names(c), parts);
    reveal_strlit("/");
    rawpath::joined_as_units(root, c);
    if base.last() == '/' {
        let bare = base.drop_last();
        assert(base =~= bare + "/"@);
        path::names_before_slash(bare);
        path::names_below(bare, u);
        assert(base + uc =~= bare + "/"@ + uc);
    } else {
        path::names_below(base, u);
    }
    rawpath::names_as_units(root);
    rawpath::names_as_units(rawpath::joined(root, c));
    let both = rawpath::names(root) + rawpath::names(c);
    assert(rawpath::unit_names(both) =~= rawpath::unit_names(rawpath::names(root)) + u);
    rawpath::unit_names_tell_apart(rawpath::names(rawpath::joined(root, c)), both);
    if leads_up(parts) {
        let i = choose|i: int| 0 <= i < parts.len() && rawpath::units(#[trigger] parts[i]) == ".."@;
        let j = choose|j: int| 0 <= j < all.len() && all[j] == parts[i];
        assert(rawpath::units(all[j]) == ".."@);
    }
}

// ---------------------------------------------------------------------------
// What is read of a package

proof fn bare_len_is(name: Seq<char>, rest: Seq<char>)
    requires
        forall|i: int| 0 <= i < name.len() ==> !is_operator(#[trigger] name[i]),
        rest.len() > 0 ==> is_operator(rest[0]),
    ensures
        bare_len(name + rest) == name.len(),
{
    let s = name + rest;
    bare_len_bounds(s);
    let n = bare_len(s) as int;
    if n < name.len() {
        assert(s[n] == name[n]);
    }
    if n > name.len() {
        assert(s[name.len() as int] == rest[0]);
    }
}

/// The name of a dependency is what stands before a version that it asks for,
/// or before a description.
pub proof fn constraints_are_cut_off(
    name: Seq<char>,
    op: char,
    version: Seq<char>,
    description: Seq<char>,
)
    requires
        name.len() > 0,
        !text::is_space(name[0]),
        !text::is_space(name.last()),
        forall|i: int|
            0 <= i < name.len() ==> (#[trigger] name[i]) != ':' && name[i] != '<' && name[i] != '>'
                && name[i] != '=',
        op == '<' || op == '>' || op == '=',
        forall|i: int| 0 <= i < version.len() ==> version[i] != ':',
    ensures
        dependency_name(name) == name,
        dependency_name(name.push(op) + version) == name,
        dependency_name(name.push(':') + description) == name,
        dependency_name(name.push(op) + version.push(':') + description) == name,
{
    let asked = name.push(op) + version;
    assert(asked =~= name + (seq![op] + version));
    bare_len_is(name, seq![]);
    bare_len_is(name, seq![op] + version);
    assert(name + seq![] =~= name);
    text::pieces_between_separators(name, ':', description);
    text::pieces_between_separators(asked, ':', description);
    assert(asked.push(':') + description =~= name.push(op) + version.push(':') + description);
    assert(name.take(name.len() as int) =~= name);
    assert(asked.take(name.len() as int) =~= name);
    trimmed_fixed(name);
}

proof fn beginnings_differ(line: Seq<char>)
    ensures
        forall|p: Seq<char>, i: int|
            0 <= i < p.len() && i < line.len() && line[i] != #[trigger] p[i] ==> text::after_prefix(
                line,
                p,
            ) is None,
{
    assert forall|p: Seq<char>, i: int|
        0 <= i < p.len() && i < line.len() && line[i] != #[trigger] p[i] implies text::after_prefix(
        line,
        p,
    ) is None by {
        text::other_beginning(line, p, i);
    }
}

/// The name, the version and the architecture of a package are what stands
/// behind their keys.
pub proof fn names_are_read_by_key(m: MetadataView, v: Seq<char>)
    ensures
        with_line(m, "pkgname ="@ + v) == (MetadataView { name: text::trimmed(v), ..m }),
        with_line(m, "pkgver ="@ + v) == (MetadataView { version: text::trimmed(v), ..m }),
        with_line(m, "arch ="@ + v) == (MetadataView { arch: text::trimmed(v), ..m }),
{
    reveal_strlit("pkgname =");
    reveal_strlit("pkgver =");
    reveal_strlit("arch =");
    reveal_strlit("depend =");
    reveal_strlit("depends =");
    reveal_strlit("optdepend =");
    reveal_strlit("optdepends =");
    reveal_strlit("provide =");
    reveal_strlit("provides =");
    reveal_strlit("conflict =");
    reveal_strlit("conflicts =");
    reveal_strlit("backup =");
    reveal_strlit("backups =");
    beginnings_differ("pkgname ="@ + v);
    text::prefix_leaves_the_rest("pkgname ="@ + v, "pkgname ="@, v);
    beginnings_differ("pkgver ="@ + v);
    text::prefix_leaves_the_rest("pkgver ="@ + v, "pkgver ="@, v);
    text::other_beginning("pkgver ="@ + v, "pkgname ="@, 3);
    beginnings_differ("arch ="@ + v);
    text::prefix_leaves_the_rest("arch ="@ + v, "arch ="@, v);
}

/// What a package depends on is kept under the name by which packages are
/// known, one entry for each line; a line that names nothing says nothing.
pub proof fn dependencies_are_read_by_key(m: MetadataView, v: Seq<char>)
    ensures
        ({
            let dep = dependency_name(v);
            let kept = repo::canonical(dep);
            &&& dep.len() > 0 ==> {
                &&& with_line(m, "depend ="@ + v) == (MetadataView {
                    depends: m.depends.push(kept),
                    ..m
                })
                &&& with_line(m, "optdepend ="@ + v) == (MetadataView {
                    optdepends: m.optdepends.push(kept),
                    ..m
                })
            }
            &&& dep.len() == 0 ==> with_line(m, "depend ="@ + v) == m && with_line(
                m,
                "optdepend ="@ + v,
            ) == m
        }),
        with_line(m, "depends ="@ + v) == with_line(m, "depend ="@ + v),
        with_line(m, "optdepends ="@ + v) == with_line(m, "optdepend ="@ + v),
{
    reveal_strlit("linux");
    reveal_strlit("bash");
    reveal_strlit("lksystem");
    reveal_strlit("libarchive");
    reveal_strlit("pkgname =");
    reveal_strlit("pkgver =");
    reveal_strlit("arch =");
    reveal_strlit("depend =");
    reveal_strlit("depends =");
    reveal_strlit("optdepend =");
    reveal_strlit("optdepends =");
    reveal_strlit("provide =");
    reveal_strlit("provides =");
    reveal_strlit("conflict =");
    reveal_strlit("conflicts =");
    reveal_strlit("backup =");
    reveal_strlit("backups =");
    beginnings_differ("depend ="@ + v);
    text::prefix_leaves_the_rest("depend ="@ + v, "depend ="@, v);
    beginnings_differ("depends ="@ + v);
    text::prefix_leaves_the_rest("depends ="@ + v, "depends ="@, v);
    text::other_beginning("depends ="@ + v, "depend ="@, 6);
    beginnings_differ("optdepend ="@ + v);
    text::prefix_leaves_the_rest("optdepend ="@ + v, "optdepend ="@, v);
    beginnings_differ("optdepends ="@ + v);
    text::prefix_leaves_the_rest("optdepends ="@ + v, "optdepends ="@, v);
    text::other_beginning("optdepends ="@ + v, "optdepend ="@, 9);
}

/// What a package provides is kept under the name by which packages are known,
/// what it conflicts with under the name that is written, one entry for each
/// line; a line that names nothing says nothing.
pub proof fn provisions_are_read_by_key(m: MetadataView, v: Seq<char>)
    ensures
        ({
            let dep = dependency_name(v);
            &&& dep.len() > 0 ==> {
                &&& with_line(m, "provide ="@ + v) == (MetadataView {
                    provides: m.provides.push(repo::canonical(dep)),
                    ..m
                })
                &&& with_line(m, "conflict ="@ + v) == (MetadataView {
                    conflicts: m.conflicts.push(dep),
                    ..m
                })
            }
            &&& dep.len() == 0 ==> with_line(m, "provide ="@ + v) == m && with_line(
                m,
                "conflict ="@ + v,
            ) == m
        }),
        with_line(m, "provides ="@ + v) == with_line(m, "provide ="@ + v),
        with_line(m, "conflicts ="@ + v) == with_line(m, "conflict ="@ + v),
{
    reveal_strlit("linux");
    reveal_strlit("bash");
    reveal_strlit("lksystem");
    reveal_strlit("libarchive");
    reveal_strlit("pkgname =");
    reveal_strlit("pkgver =");
    reveal_strlit("arch =");
    reveal_strlit("depend =");
    reveal_strlit("depends =");
    reveal_strlit("optdepend =");
    reveal_strlit("optdepends =");
    reveal_strlit("provide =");
    reveal_strlit("provides =");
    reveal_strlit("conflict =");
    reveal_strlit("conflicts =");
    reveal_strlit("backup =");
    reveal_strlit("backups =");
    beginnings_differ("provide ="@ + v);
    text::prefix_leaves_the_rest("provide ="@ + v, "provide ="@, v);
    text::other_beginning("provide ="@ + v, "pkgname ="@, 1);
    text::other_beginning("provide ="@ + v, "pkgver ="@, 1);
    beginnings_differ("provides ="@ + v);
    text::prefix_leaves_the_rest("provides ="@ + v, "provides ="@, v);
    text::other_beginning("provides ="@ + v, "pkgname ="@, 1);
    text::other_beginning("provides ="@ + v, "pkgver ="@, 1);
    text::other_beginning("provides ="@ + v, "provide ="@, 7);
    beginnings_differ("conflict ="@ + v);
    text::prefix_leaves_the_rest("conflict ="@ + v, "conflict ="@, v);
    beginnings_differ("conflicts ="@ + v);
    text::prefix_leaves_the_rest("conflicts ="@ + v, "conflicts ="@, v);
    text::other_beginning("conflicts ="@ + v, "conflict ="@, 8);
}

/// A file to preserve is kept by its path below the root, one entry for each
/// line.
pub proof fn preserved_paths_are_read_by_key(m: MetadataView, v: Seq<char>)
    ensures
        ({
            let place = text::without_leading(text::trimmed(v), '/');
            with_line(m, "backup ="@ + v) == (if place.len() > 0 {
                MetadataView { backups: m.backups.push(place), ..m }
            } else {
                m
            })
        }),
        with_line(m, "backups ="@ + v) == with_line(m, "backup ="@ + v),
{
    reveal_strlit("pkgname =");
    reveal_strlit("pkgver =");
    reveal_strlit("arch =");
    reveal_strlit("depend =");
    reveal_strlit("depends =");
    reveal_strlit("optdepend =");
    reveal_strlit("optdepends =");
    reveal_strlit("provide =");
    reveal_strlit("provides =");
    reveal_strlit("conflict =");
    reveal_strlit("conflicts =");
    reveal_strlit("backup =");
    reveal_strlit("backups =");
    beginnings_differ("backup ="@ + v);
    text::prefix_leaves_the_rest("backup ="@ + v, "backup ="@, v);
    beginnings_differ("backups ="@ + v);
    text::prefix_leaves_the_rest("backups ="@ + v, "backups ="@, v);
    text::other_beginning("backups ="@ + v, "backup ="@, 6);
}

proof fn lists_grow(m: MetadataView, line: Seq<char>, x: Seq<char>)
    ensures
        ({
            let n = with_line(m, line);
            &&& m.depends.contains(x) ==> n.depends.contains(x)
            &&& m.optdepends.contains(x) ==> n.optdepends.contains(x)
            &&& m.provides.contains(x) ==> n.provides.contains(x)
            &&& m.conflicts.contains(x) ==> n.conflicts.contains(x)
            &&& m.backups.contains(x) ==> n.backups.contains(x)
        }),
{
    assert forall|list: Seq<Seq<char>>, e: Seq<char>| list.contains(x) implies (#[trigger] with_entry(
        list,
        e,
    )).contains(x) by {
        let k = choose|k: int| 0 <= k < list.len() && list[k] == x;
        assert(with_entry(list, e)[k] == x);
    }
}

/// An entry that one line adds to a list is in that list of the whole
/// description, whatever the lines after it say.
pub proof fn every_entry_is_kept(lines: Seq<Seq<char>>, i: int, x: Seq<char>)
    requires
        0 <= i < lines.len(),
    ensures
        ({
            let then = with_line(metadata_of(lines.take(i)), lines[i]);
            let whole = metadata_of(lines);
            &&& then.depends.contains(x) ==> whole.depends.contains(x)
            &&& then.optdepends.contains(x) ==> whole.optdepends.contains(x)
            &&& then.provides.contains(x) ==> whole.provides.contains(x)
            &&& then.conflicts.contains(x) ==> whole.conflicts.contains(x)
            &&& then.backups.contains(x) ==> whole.backups.contains(x)
        }),
    decreases lines.len(),
{
    let init = lines.drop_last();
    if i < init.len() {
        assert(init.take(i) =~= lines.take(i));
        assert(init[i] == lines[i]);
        every_entry_is_kept(init, i, x);
        lists_grow(metadata_of(init), lines.last(), x);
    } else {
        assert(lines.take(i) =~= init);
    }
}

/// Each line that names a dependency puts it among those of the package.
pub proof fn every_dependency_line_counts(lines: Seq<Seq<char>>, i: int, v: Seq<char>)
    requires
        0 <= i < lines.len(),
        dependency_name(v).len() > 0,
    ensures
        ({
            let kept = repo::canonical(dependency_name(v));
            let m = metadata_of(lines);
            &&& lines[i] == "depend ="@ + v || lines[i] == "depends ="@ + v ==> m.depends.contains(
                kept,
            )
            &&& lines[i] == "optdepend ="@ + v || lines[i] == "optdepends ="@ + v
                ==> m.optdepends.contains(kept)
            &&& lines[i] == "provide ="@ + v || lines[i] == "provides ="@ + v
                ==> m.provides.contains(kept)
            &&& lines[i] == "conflict ="@ + v || lines[i] == "conflicts ="@ + v
                ==> m.conflicts.contains(dependency_name(v))
        }),
{
    let kept = repo::canonical(dependency_name(v));
    let m = metadata_of(lines.take(i));
    dependencies_are_read_by_key(m, v);
    provisions_are_read_by_key(m, v);
    every_entry_is_kept(lines, i, kept);
    every_entry_is_kept(lines, i, dependency_name(v));
    assert(m.depends.push(kept).last() == kept);
    assert(m.optdepends.push(kept).last() == kept);
    assert(m.provides.push(kept).last() == kept);
    assert(m.conflicts.push(dependency_name(v)).last() == dependency_name(v));
}

/// A description is one of a package exactly if it gives a name and a version.
pub proof fn name_and_version_are_needed(info: Seq<char>)
    ensures
        ({
            let m = metadata_of(text::lines_of(info));
            &&& pkginfo(info) is Ok <==> m.name.len() > 0 && m.version.len() > 0
            &&& pkginfo(info) is Ok ==> pkginfo(info)->Ok_0 == m
        }),
{
}

/// The checksum of a build recipe is the word behind its key, with or without
/// brackets around it.
pub proof fn build_checksums_are_read(h: Seq<char>)
    requires
        h.len() > 0,
        forall|i: int| 0 <= i < h.len() ==> !text::is_space(#[trigger] h[i]),
        h[0] != '[',
    ensures
        line_checksum("pkgbuild_sha256sum = "@ + h) == Some(h),
        line_checksum("pkgbuild_sha256sum = ["@ + h + "]"@) == Some(h),
{
    reveal_strlit("pkgbuild_sha256sum = [");
    reveal_strlit("]");
    let framed = seq!['['] + h + "]"@;
    checksum_word("pkgbuild_sha256sum = "@ + h, h);
    assert forall|i: int| 0 <= i < framed.len() implies !text::is_space(#[trigger] framed[i]) by {
        if 0 < i <= h.len() {
            assert(framed[i] == h[i - 1]);
        }
    }
    reveal_strlit("pkgbuild_sha256sum = ");
    assert("pkgbuild_sha256sum = ["@ + h + "]"@ =~= "pkgbuild_sha256sum = "@ + framed);
    checksum_word("pkgbuild_sha256sum = "@ + framed, framed);
    assert(!text::is_space(h[0]));
    assert(!text::is_space(h[h.len() - 1]));
    trimmed_fixed(h);
    assert(!text::is_space(framed[0]));
    assert(!text::is_space(framed[framed.len() - 1]));
    trimmed_fixed(framed);
    assert(framed.subrange(1, framed.len() - 1) =~= h);
}

proof fn checksum_word(line: Seq<char>, word: Seq<char>)
    requires
        line == "pkgbuild_sha256sum = "@ + word,
        word.len() > 0,
        forall|i: int| 0 <= i < word.len() ==> !text::is_space(#[trigger] word[i]),
    ensures
        line_checksum(line) == (if without_brackets(word).len() == 0 {
            None
        } else {
            Some(without_brackets(word))
        }),
{
    reveal_strlit("pkgbuild_sha256sum = ");
    reveal_strlit("pkgbuild_sha256sum");
    reveal_strlit("=");
    let key = "pkgbuild_sha256sum"@;
    let rest = seq![' ', '=', ' '] + word;
    assert(!text::is_space(word[0]));
    assert(!text::is_space(word[word.len() - 1]));
    assert(line.last() == word.last());
    assert(line[0] == 'p');
    trimmed_fixed(line);
    assert(line =~= key + rest);
    text::prefix_leaves_the_rest(line, key, rest);
    let start = seq!['=', ' '] + word;
    assert(rest.drop_first() =~= start);
    assert(text::trimmed_start(rest) == text::trimmed_start(start));
    assert(text::trimmed_start(start) == start);
    assert(start.take(1) =~= "="@);
    assert(start.skip(1) =~= seq![' '] + word + seq![]);
    text::space_around_is_trimmed(seq![' '], word, seq![]);
    text::space_parts_words(word, ' ', seq![]);
}

/// The first line that has a checksum gives it.
pub proof fn first_checksum_counts(lines: Seq<Seq<char>>, i: int)
    requires
        0 <= i <= lines.len(),
        forall|k: int| 0 <= k < i ==> line_checksum(#[trigger] lines[k]) is None,
        i < lines.len() ==> line_checksum(lines[i]) is Some,
    ensures
        first_checksum(lines, 0) == (if i < lines.len() {
            line_checksum(lines[i])
        } else {
            None
        }),
{
    checksum_from(lines, 0, i);
}

proof fn checksum_from(lines: Seq<Seq<char>>, from: int, i: int)
    requires
        0 <= from <= i <= lines.len(),
        forall|k: int| 0 <= k < i ==> line_checksum(#[trigger] lines[k]) is None,
        i < lines.len() ==> line_checksum(lines[i]) is Some,
    ensures
        first_checksum(lines, from) == (if i < lines.len() {
            line_checksum(lines[i])
        } else {
            None
        }),
    decreases i - from,
{
    if from < i {
        assert(line_checksum(lines[from]) is None);
        checksum_from(lines, from + 1, i);
    }
}

/// The ending of a package file tells how it is packed.
pub proof fn endings_tell_the_format(name: Seq<char>)
    ensures
        format_of(name + ".tar.zst"@) == Some(PackageFormat::Zstd),
        format_of(name + ".tar.xz"@) == Some(PackageFormat::Xz),
        format_of(name + ".tar.gz"@) == Some(PackageFormat::Gzip),
        format_of(name + ".tar"@) == Some(PackageFormat::Plain),
        name.len() > 0 && name.last() != 't' && name.last() != 'z' && name.last() != 'r'
            ==> format_of(name) is None,
{
    reveal_strlit(".tar.zst");
    reveal_strlit(".tar.xz");
    reveal_strlit(".tar.gz");
    reveal_strlit(".tar");
    text::suffix_is_the_end(name, ".tar.zst"@);
    text::suffix_is_the_end(name, ".tar.xz"@);
    text::suffix_is_the_end(name, ".tar.gz"@);
    text::suffix_is_the_end(name, ".tar"@);
    text::other_ending(name + ".tar.xz"@, ".tar.zst"@, 1);
    text::other_ending(name + ".tar.gz"@, ".tar.zst"@, 1);
    text::other_ending(name + ".tar.gz"@, ".tar.xz"@, 2);
    text::other_ending(name + ".tar"@, ".tar.zst"@, 1);
    text::other_ending(name + ".tar"@, ".tar.xz"@, 1);
    text::other_ending(name + ".tar"@, ".tar.gz"@, 1);
    if name.len() > 0 && name.last() != 't' && name.last() != 'z' && name.last() != 'r' {
        text::other_ending(name, ".tar.zst"@, 1);
        text::other_ending(name, ".tar.xz"@, 1);
        text::other_ending(name, ".tar.gz"@, 1);
        text::other_ending(name, ".tar"@, 1);
    }
}

/// A path is refused exactly if one of its names leads up.
pub proof fn only_paths_that_lead_up_are_refused(p: Seq<u8>)
    ensures
        clean_path(p) is None <==> exists|i: int|
            0 <= i < rawpath::names(p).len() && rawpath::units(#[trigger] rawpath::names(p)[i])
                == ".."@,
{
}

/// Of the names on the way, those that stay where they are go, and the others
/// stay, in order.
pub proof fn no_other_name_is_lost(a: Seq<Seq<u8>>, b: Seq<Seq<u8>>)
    ensures
        moving(a + b) == moving(a) + moving(b),
        b.len() == 1 ==> moving(b) == (if rawpath::units(b[0]) == "."@ {
            seq![]
        } else {
            b
        }),
    decreases b.len(),
{
    if b.len() == 0 {
        assert(a + b =~= a);
        assert(moving(a) + moving(b) =~= moving(a));
    } else {
        no_other_name_is_lost(a, b.drop_last());
        assert((a + b).drop_last() =~= a + b.drop_last());
        assert((a + b).last() == b.last());
        assert(moving(a + b) =~= moving(a) + moving(b));
        if b.len() == 1 {
            assert(b.drop_last() =~= seq![]);
            assert(moving(b.drop_last()) =~= seq![]);
            assert(b =~= seq![b[0]]);
        }
    }
}

/// Whether a member of an archive can be read, and lies at a place below the
/// root.
pub open spec fn is_sound(member: Result<archive::MemberView, Seq<char>>) -> bool {
    member is Ok && clean_path(member->Ok_0.path) is Some
}

/// Whether a member of an archive lies at a place below the root.
pub open spec fn lies_at(member: Result<archive::MemberView, Seq<char>>, place: Seq<char>) -> bool {
    is_sound(member) && rawpath::units(clean_path(member->Ok_0.path)->0) == place
}

/// The first member at a place is the one that is found there; before it, the
/// first member that cannot be read, or that leads up, ends the search.
pub proof fn first_member_at_a_place_counts(members: archive::Listing, place: Seq<char>, i: int)
    requires
        0 <= i <= members.len(),
        forall|k: int|
            0 <= k < i ==> is_sound(#[trigger] members[k]) && !lies_at(members[k], place),
        i < members.len() ==> !is_sound(members[i]) || lies_at(members[i], place),
    ensures
        i == members.len() ==> member_at(members, 0, place) == Ok::<
            Option<archive::MemberView>,
            Seq<char>,
        >(None),
        i < members.len() && is_sound(members[i]) ==> member_at(members, 0, place) == Ok::<
            Option<archive::MemberView>,
            Seq<char>,
        >(Some(members[i]->Ok_0)),
        i < members.len() && !is_sound(members[i]) ==> member_at(members, 0, place) is Err,
{
    member_from(members, 0, place, i);
}

proof fn member_from(members: archive::Listing, from: int, place: Seq<char>, i: int)
    requires
        0 <= from <= i <= members.len(),
        forall|k: int|
            0 <= k < i ==> is_sound(#[trigger] members[k]) && !lies_at(members[k], place),
        i < members.len() ==> !is_sound(members[i]) || lies_at(members[i], place),
    ensures
        member_at(members, from, place) == member_at(members, i, place),
    decreases i - from,
{
    if from < i {
        assert(is_sound(members[from]) && !lies_at(members[from], place));
        member_from(members, from + 1, place, i);
    }
}

/// What an archive holds at a place below the root.
pub open spec fn holds_file(member: Result<archive::MemberView, Seq<char>>, c: Seq<u8>) -> bool {
    member matches Ok(m) && !m.directory && clean_path(m.path) == Some(c) && rawpath::units(c)
        != ".PKGINFO"@ && rawpath::units(c) != ".MTREE"@ && rawpath::units(c) != ".INSTALL"@
        && rawpath::units(c) != ".BUILDINFO"@
}

/// The files of a package are its members, but for the directories and for
/// what describes the package itself; they can be listed exactly if every
/// member can be read and none leads up.
pub proof fn all_members_are_listed(members: archive::Listing, c: Seq<u8>)
    ensures
        files_among(members) is Ok <==> forall|i: int|
            0 <= i < members.len() ==> is_sound(#[trigger] members[i]),
        files_among(members) is Ok ==> (files_among(members)->Ok_0.contains(c) <==> exists|i: int|
            0 <= i < members.len() && holds_file(#[trigger] members[i], c)),
    decreases members.len(),
{
    if members.len() > 0 {
        let init = members.drop_last();
        let n = members.len() - 1;
        all_members_are_listed(init, c);
        assert(members[n] == members.last());
        assert forall|i: int| 0 <= i < n implies members[i] == #[trigger] init[i] by {}
        if files_among(init) is Err {
            let i = choose|i: int| 0 <= i < init.len() && !is_sound(#[trigger] init[i]);
            assert(!is_sound(members[i]));
        } else if files_among(members) is Ok {
            let rest = files_among(init)->Ok_0;
            let all = files_among(members)->Ok_0;
            assert forall|i: int| 0 <= i < members.len() implies is_sound(
                #[trigger] members[i],
            ) by {
                if i < n {
                    assert(is_sound(init[i]));
                }
            }
            if rest.contains(c) {
                let k = choose|k: int| 0 <= k < rest.len() && rest[k] == c;
                assert(all[k] == c);
                let i = choose|i: int| 0 <= i < init.len() && holds_file(#[trigger] init[i], c);
                assert(holds_file(members[i], c));
            }
            if holds_file(members[n], c) {
                assert(all[rest.len() as int] == c);
            }
            if all.contains(c) && !rest.contains(c) {
                let k = choose|k: int| 0 <= k < all.len() && all[k] == c;
                if k < rest.len() {
                    assert(rest[k] == c);
                }
                assert(holds_file(members[n], c));
            }
            if exists|i: int| 0 <= i < members.len() && holds_file(#[trigger] members[i], c) {
                let i = choose|i: int|
                    0 <= i < members.len() && holds_file(#[trigger] members[i], c);
                if i < n {
                    assert(holds_file(init[i], c));
                }
            }
        } else {
            assert(!is_sound(members[n]));
        }
    }
}

/// The files of a package are listed in the order of its members.
pub proof fn files_are_listed_in_order(a: archive::Listing, b: archive::Listing)
    requires
        files_among(a) is Ok,
        files_among(b) is Ok,
    ensures
        files_among(a + b) == Ok::<Seq<Seq<u8>>, Seq<char>>(
            files_among(a)->Ok_0 + files_among(b)->Ok_0,
        ),
    decreases b.len(),
{
    if b.len() == 0 {
        assert(a + b =~= a);
        assert(files_among(a)->Ok_0 + files_among(b)->Ok_0 =~= files_among(a)->Ok_0);
    } else {
        files_are_listed_in_order(a, b.drop_last());
        assert((a + b).drop_last() =~= a + b.drop_last());
        assert((a + b).last() == b.last());
        assert(files_among(a + b)->Ok_0 =~= files_among(a)->Ok_0 + files_among(b)->Ok_0);
    }
}

/// What a package says of itself is read from the first member at its place:
/// its description, the functions that it runs and how it was built.
pub proof fn a_package_describes_itself(
    package: Seq<char>,
    members: archive::Listing,
    place: Seq<char>,
    i: int,
)
    requires
        0 <= i < members.len(),
        forall|k: int|
            0 <= k < i ==> is_sound(#[trigger] members[k]) && !lies_at(members[k], place),
        lies_at(members[i], place),
        members[i]->Ok_0.fault is None,
        vstd::utf8::valid_utf8(members[i]->Ok_0.content),
    ensures
        ({
            let said = vstd::utf8::decode_utf8(members[i]->Ok_0.content);
            &&& text_in(Ok(members), place) == Ok::<Option<Seq<char>>, Seq<char>>(Some(said))
            &&& place == ".PKGINFO"@ ==> metadata_in(package, Ok(members)) == pkginfo(said)
            &&& place == ".BUILDINFO"@ ==> build_checksum(Ok(members)) == Ok::<
                Option<Seq<char>>,
                Seq<char>,
            >(first_checksum(text::lines_of(said), 0))
        }),
{
    first_member_at_a_place_counts(members, place, i);
}

/// A package without a description is refused; one without functions, or
/// without a note on how it was built, has none.
pub proof fn only_a_description_is_needed(
    package: Seq<char>,
    members: archive::Listing,
    place: Seq<char>,
)
    requires
        forall|k: int|
            0 <= k < members.len() ==> is_sound(#[trigger] members[k]) && !lies_at(
                members[k],
                place,
            ),
    ensures
        text_in(Ok(members), place) == Ok::<Option<Seq<char>>, Seq<char>>(None),
        place == ".PKGINFO"@ ==> metadata_in(package, Ok(members)) is Err,
        place == ".BUILDINFO"@ ==> build_checksum(Ok(members)) == Ok::<
            Option<Seq<char>>,
            Seq<char>,
        >(None),
{
    first_member_at_a_place_counts(members, place, members.len() as int);
}

/// A package is unpacked by the format that its name tells, and one that tells
/// none is refused.
pub proof fn packages_are_unpacked_by_format(package: Seq<char>, data: Seq<u8>)
    ensures
        ({
            let format = format_of(text::lowercase_of(package));
            let members = members_of(package, data);
            &&& format == Some(PackageFormat::Zstd) ==> members == archive::zstd_tar(data)
            &&& format == Some(PackageFormat::Xz) ==> members == archive::xz_tar(data)
            &&& format == Some(PackageFormat::Gzip) ==> members == archive::gz_tar(data)
            &&& format == Some(PackageFormat::Plain) ==> members == archive::plain_tar(data)
            &&& format is None ==> members is Err
        }),
{
}

} // verus!
