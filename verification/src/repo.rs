//! Repositories: names, file names, addresses and package indexes.
use vstd::prelude::*;

use crate::archive;
use crate::cli;
use crate::config::Config;
use crate::database;
use crate::database::Database;
use crate::error;
use crate::error::LkpmError;
use crate::path;
use crate::rawpath;
use crate::pkg_utils;
use crate::text;
use crate::url;

verus! {

// ---------------------------------------------------------------------------
// Package names

/// The name under which a package is kept: some names stand for another package.
pub open spec fn canonical(package: Seq<char>) -> Seq<char> {
    if package == "kernel"@ {
        "linux"@
    } else if package == "sh"@ {
        "bash"@
    } else if package == "systemd"@ {
        "lksystem"@
    } else if package == "bsdtar"@ {
        "libarchive"@
    } else {
        package
    }
}

/// The name under which a package is kept.
pub fn canonical_package_name(package: &str) -> (r: &str)
    ensures
        r@ == canonical(package@),
{
    if text::same(package, "kernel") {
        "linux"
    } else if text::same(package, "sh") {
        "bash"
    } else if text::same(package, "systemd") {
        "lksystem"
    } else if text::same(package, "bsdtar") {
        "libarchive"
    } else {
        package
    }
}

/// A canonical name stands for itself.
pub proof fn canonical_idempotent(package: Seq<char>)
    ensures
        canonical(canonical(package)) == canonical(package),
{
    reveal_strlit("kernel");
    reveal_strlit("sh");
    reveal_strlit("systemd");
    reveal_strlit("bsdtar");
    reveal_strlit("linux");
    reveal_strlit("bash");
    reveal_strlit("lksystem");
    reveal_strlit("libarchive");
    assert("linux"@.len() == 5 && "bash"@.len() == 4 && "lksystem"@.len() == 8
        && "libarchive"@.len() == 10);
    assert("kernel"@.len() == 6 && "sh"@.len() == 2 && "systemd"@.len() == 7
        && "bsdtar"@.len() == 6);
}

/// The library that a shared object belongs to: what stands before `.so` in
/// a name that begins with `lib`, in whatever case.
pub open spec fn soname_stem(name: Seq<char>) -> Option<Seq<char>> {
    let lower = text::ascii_lower(name);
    if text::has_prefix(lower, "lib"@) {
        match text::find_text(lower, ".so"@) {
            Some(i) => Some(name.take(i as int)),
            None => None,
        }
    } else {
        None
    }
}

/// The library that a shared object belongs to.
pub fn soname_root(name: &str) -> (r: Option<String>)
    ensures
        match r {
            Some(s) => soname_stem(name@) == Some(s@),
            None => soname_stem(name@) is None,
        },
{
    let lower = text::to_ascii_lower(name);
    if !text::starts_with(&lower, "lib") {
        return None;
    }
    match text::find(&text::to_chars(&lower), &text::to_chars(".so")) {
        Some(i) => {
            let c = text::to_chars(name);
            assert(c@.take(i as int) =~= c@.subrange(0, i as int));
            Some(text::range_string(&c, 0, i))
        },
        None => None,
    }
}

/// Whether a lower-case name is that of the library or of a shared object of
/// it, given a name from which the library is taken.
pub open spec fn names_soname(name: Seq<char>, lower: Seq<char>) -> bool {
    match soname_stem(name) {
        Some(root) => {
            ||| lower == root
            ||| lower == root + ".so"@
            ||| text::has_prefix(lower, root + ".so."@)
        },
        None => false,
    }
}

fn is_soname_of(name: &str, lower: &str) -> (r: bool)
    ensures
        r == names_soname(name@, lower@),
{
    match soname_root(name) {
        Some(root) => text::same(lower, &root) || text::same(lower, &text::join2(&root, ".so"))
            || text::starts_with(lower, &text::join2(&root, ".so.")),
        None => false,
    }
}

/// Whether a package of one name answers a request for another: by its name,
/// whatever the case; by the name that the request stands for; or because one
/// is a shared object of the library that the other names.
pub open spec fn name_matches(requested: Seq<char>, actual: Seq<char>) -> bool {
    let req = pkg_utils::dependency_name(requested);
    let act = pkg_utils::dependency_name(actual);
    ||| text::ascii_lower(act) == text::ascii_lower(req)
    ||| text::ascii_lower(act) == text::ascii_lower(canonical(req))
    ||| names_soname(req, text::ascii_lower(act))
    ||| names_soname(act, text::ascii_lower(req))
}

/// Whether a package of one name answers a request for another.
pub fn package_name_matches_request(requested: &str, actual: &str) -> (r: bool)
    ensures
        r == name_matches(requested@, actual@),
{
    let req = pkg_utils::normalize_dependency_name(requested);
    let act = pkg_utils::normalize_dependency_name(actual);
    let requested_lower = text::to_ascii_lower(&req);
    let actual_lower = text::to_ascii_lower(&act);
    text::same(&actual_lower, &requested_lower) || text::same(
        &actual_lower,
        &text::to_ascii_lower(canonical_package_name(&req)),
    ) || is_soname_of(&req, &actual_lower) || is_soname_of(&act, &requested_lower)
}

/// Every package answers a request for its own name.
pub proof fn name_matches_itself(name: Seq<char>)
    ensures
        name_matches(name, name),
{
}

/// Every package answers a request that stands for its name.
pub proof fn name_matches_alias(name: Seq<char>)
    ensures
        name_matches(name, canonical(pkg_utils::dependency_name(name))),
{
    let d = pkg_utils::dependency_name(name);
    pkg_utils::dependency_name_idempotent(name);
    reveal_strlit("linux");
    reveal_strlit("bash");
    reveal_strlit("lksystem");
    reveal_strlit("libarchive");
    if canonical(d) != d {
        plain_name_kept(canonical(d));
    }
}

/// A name without colons, constraints and white space is its own dependency name.
pub proof fn plain_name_kept(s: Seq<char>)
    requires
        forall|i: int|
            0 <= i < s.len() ==> {
                &&& #[trigger] s[i] != ':'
                &&& !pkg_utils::is_operator(s[i])
                &&& !text::is_space(s[i])
            },
    ensures
        pkg_utils::dependency_name(s) == s,
{
    text::first_index_is(s, ':', s.len() as int);
    assert(s.take(s.len() as int) =~= s);
    pkg_utils::bare_len_bounds(s);
    pkg_utils::trimmed_fixed(s);
}


// ---------------------------------------------------------------------------
// Package files

/// The endings of package files, the ones that hold others first.
pub open spec fn package_endings() -> Seq<Seq<char>> {
    seq![
        ".pkg.tar.zst"@,
        ".pkg.tar.xz"@,
        ".pkg.tar.gz"@,
        ".lsk.tar.zst"@,
        ".lsk.tar.xz"@,
        ".lsk.tar.gz"@,
        ".tar.zst"@,
        ".tar.xz"@,
        ".tar.gz"@,
        ".tar"@,
    ]
}

/// The number of bytes that a character takes in UTF-8.
pub open spec fn utf8_size(c: char) -> nat {
    if c <= '\u{7f}' {
        1
    } else if c <= '\u{7ff}' {
        2
    } else if c <= '\u{ffff}' {
        3
    } else {
        4
    }
}

/// Text without its last `n` bytes, if the cut falls between two characters.
pub open spec fn without_last_bytes(s: Seq<char>, n: nat) -> Option<Seq<char>>
    decreases s.len(),
{
    if n == 0 {
        Some(s)
    } else if s.len() == 0 || utf8_size(s.last()) > n {
        None
    } else {
        without_last_bytes(s.drop_last(), (n - utf8_size(s.last())) as nat)
    }
}

/// The first of the given endings, from the `i`th on, that a lower-case name has.
pub open spec fn ending_from(lower: Seq<char>, endings: Seq<Seq<char>>, i: int) -> Option<Seq<char>>
    decreases endings.len() - i,
{
    if i < 0 || i >= endings.len() {
        None
    } else if text::has_suffix(lower, endings[i]) {
        Some(endings[i])
    } else {
        ending_from(lower, endings, i + 1)
    }
}

/// A file name without the ending of a package file.
pub open spec fn package_stem(file_name: Seq<char>) -> Option<Seq<char>> {
    match ending_from(text::lowercase_of(file_name), package_endings(), 0) {
        Some(ending) => without_last_bytes(file_name, ending.len()),
        None => None,
    }
}

fn drop_last_bytes(s: &str, n: usize) -> (r: Option<String>)
    ensures
        match r {
            Some(t) => without_last_bytes(s@, n as nat) == Some(t@),
            None => without_last_bytes(s@, n as nat) is None,
        },
{
    let c = text::to_chars(s);
    let mut end: usize = c.len();
    let mut left: usize = n;
    assert(c@.take(end as int) =~= c@);
    while left > 0
        invariant
            end <= c@.len(),
            without_last_bytes(s@, n as nat) == without_last_bytes(c@.take(end as int), left as nat),
        decreases end,
    {
        if end == 0 {
            return None;
        }
        let ch = c[end - 1];
        let size: usize = if ch <= '\u{7f}' {
            1
        } else if ch <= '\u{7ff}' {
            2
        } else if ch <= '\u{ffff}' {
            3
        } else {
            4
        };
        if size > left {
            return None;
        }
        assert(c@.take(end as int).drop_last() =~= c@.take(end - 1));
        left = left - size;
        end = end - 1;
    }
    assert(c@.take(end as int) =~= c@.subrange(0, end as int));
    Some(text::range_string(&c, 0, end))
}

/// Whether the lower case of a text ends in what the text ends in, lower-cased,
/// as far as that is ASCII.
pub open spec fn ascii_tails_lowered(s: Seq<char>) -> bool {
    forall|tail: Seq<char>|
        text::all_ascii(tail) && #[trigger] text::has_suffix(s, tail) ==> text::has_suffix(
            text::lowercase_of(s),
            text::ascii_lower(tail),
        )
}

/// A file name without the ending of a package file.
pub fn strip_package_extension(file_name: &str) -> (r: Option<String>)
    ensures
        match r {
            Some(t) => package_stem(file_name@) == Some(t@),
            None => package_stem(file_name@) is None,
        },
        ascii_tails_lowered(file_name@),
{
    let lower = text::to_lowercase(file_name);
    let endings: Vec<&str> = vec![
        ".pkg.tar.zst",
        ".pkg.tar.xz",
        ".pkg.tar.gz",
        ".lsk.tar.zst",
        ".lsk.tar.xz",
        ".lsk.tar.gz",
        ".tar.zst",
        ".tar.xz",
        ".tar.gz",
        ".tar",
    ];
    let mut i: usize = 0;
    while i < endings.len()
        invariant
            i <= endings@.len(),
            lower@ == text::lowercase_of(file_name@),
            ascii_tails_lowered(file_name@),
            endings@.map_values(|e: &str| e@) == package_endings(),
            ending_from(lower@, package_endings(), 0) == ending_from(
                lower@,
                package_endings(),
                i as int,
            ),
        decreases endings@.len() - i,
    {
        let ending = endings[i];
        assert(endings@.map_values(|e: &str| e@)[i as int] == ending@);
        if text::ends_with(&lower, ending) {
            return drop_last_bytes(file_name, ending.unicode_len());
        }
        i = i + 1;
    }
    None
}

/// Whether text begins with a decimal digit, as versions do.
pub open spec fn version_like(value: Seq<char>) -> bool {
    value.len() > 0 && text::is_digit(value[0])
}

/// Whether text begins with a decimal digit, as versions do.
pub fn looks_like_version(value: &str) -> (r: bool)
    ensures
        r == version_like(value@),
{
    let c = text::to_chars(value);
    c.len() > 0 && '0' <= c[0] && c[0] <= '9'
}

/// Whether text names an architecture.
pub open spec fn arch_like(value: Seq<char>) -> bool {
    ||| value == "any"@
    ||| value == "x86_64"@
    ||| value == "i686"@
    ||| value == "aarch64"@
    ||| value == "armv7h"@
    ||| value == "riscv64"@
}

/// Whether text names an architecture.
pub fn looks_like_arch(value: &str) -> (r: bool)
    ensures
        r == arch_like(value@),
{
    text::same(value, "any") || text::same(value, "x86_64") || text::same(value, "i686")
        || text::same(value, "aarch64") || text::same(value, "armv7h") || text::same(
        value,
        "riscv64",
    )
}

/// The parts of a text between its last dashes, at most `n`, the last part first.
pub open spec fn dash_parts(s: Seq<char>, n: nat) -> Seq<Seq<char>>
    decreases n,
{
    if n <= 1 {
        seq![s]
    } else {
        match text::cut_last(s, '-') {
            Some(p) => seq![p.1] + dash_parts(p.0, (n - 1) as nat),
            None => seq![s],
        }
    }
}

fn split_dashes(s: &str, n: usize) -> (r: Vec<String>)
    ensures
        text::texts(r@) == dash_parts(s@, n as nat),
    decreases n,
{
    let mut out: Vec<String> = Vec::new();
    if n > 1 {
        if let Some(p) = text::rsplit_once(s, '-') {
            let (before, after) = p;
            let mut rest = split_dashes(&before, n - 1);
            out.push(after);
            let ghost head = out@;
            let ghost tail = rest@;
            out.append(&mut rest);
            assert(text::texts(out@) =~= seq![after@] + text::texts(tail));
            return out;
        }
    }
    out.push(s.to_owned());
    assert(text::texts(out@) =~= seq![s@]);
    out
}

/// The name and the version that the name of a package file gives.
pub struct PackageFileMetadata {
    pub name: String,
    pub version: String,
}

/// The name and the version that a file name without its ending gives:
/// `name-version-release-arch`, `name-version-arch` or `name-version`.
pub open spec fn stem_fields(stem: Seq<char>) -> Option<(Seq<char>, Seq<char>)> {
    let parts = dash_parts(stem, 4);
    if parts.len() == 4 && arch_like(parts[0]) && version_like(parts[2]) {
        Some((parts[3], parts[2] + "-"@ + parts[1]))
    } else if parts.len() == 3 && arch_like(parts[0]) && version_like(parts[1]) {
        Some((parts[2], parts[1]))
    } else {
        match text::cut_last(stem, '-') {
            Some(p) => if version_like(p.1) {
                Some(p)
            } else {
                None
            },
            None => None,
        }
    }
}

/// The name and the version that the name of a package file gives.
pub open spec fn file_fields(file_name: Seq<char>) -> Option<(Seq<char>, Seq<char>)> {
    match package_stem(file_name) {
        Some(stem) => stem_fields(stem),
        None => None,
    }
}

/// The name and the version that a file name without its ending gives.
pub fn parse_package_stem(stem: &str) -> (r: Option<PackageFileMetadata>)
    ensures
        match r {
            Some(m) => stem_fields(stem@) == Some((m.name@, m.version@)),
            None => stem_fields(stem@) is None,
        },
{
    let parts = split_dashes(stem, 4);
    let ghost spec_parts = dash_parts(stem@, 4);
    assert(parts@.len() == spec_parts.len());
    assert(forall|i: int| 0 <= i < parts@.len() ==> #[trigger] parts@[i]@ == spec_parts[i]) by {
        assert forall|i: int| 0 <= i < parts@.len() implies #[trigger] parts@[i]@
            == spec_parts[i] by {
            assert(text::texts(parts@)[i] == parts@[i]@);
        }
    }
    if parts.len() == 4 && looks_like_arch(&parts[0]) && looks_like_version(&parts[2]) {
        return Some(
            PackageFileMetadata {
                name: text::copy(&parts[3]),
                version: text::join3(&parts[2], "-", &parts[1]),
            },
        );
    }
    if parts.len() == 3 && looks_like_arch(&parts[0]) && looks_like_version(&parts[1]) {
        return Some(
            PackageFileMetadata { name: text::copy(&parts[2]), version: text::copy(&parts[1]) },
        );
    }
    match text::rsplit_once(stem, '-') {
        Some(p) => {
            let (name, version) = p;
            if looks_like_version(&version) {
                Some(PackageFileMetadata { name, version })
            } else {
                None
            }
        },
        None => None,
    }
}

/// The name and the version that the name of a package file gives.
pub fn parse_package_file_metadata(file_name: &str) -> (r: Option<PackageFileMetadata>)
    ensures
        match r {
            Some(m) => file_fields(file_name@) == Some((m.name@, m.version@)),
            None => file_fields(file_name@) is None,
        },
        reads_full_names(file_name@),
{
    let stem = strip_package_extension(file_name);
    proof {
        full_names_are_read(file_name@);
    }
    match stem {
        Some(stem) => parse_package_stem(&stem),
        None => None,
    }
}

/// The package that a file is of: what its name gives, or else the name itself.
/// So a file that is named in full gives the name that it was named after, and
/// one without an ending of package files its own name.
pub fn package_name_from_file_name(file_name: &str) -> (r: String)
    ensures
        r@ == (match file_fields(file_name@) {
            Some(f) => f.0,
            None => file_name@,
        }),
        forall|
            name: Seq<char>,
            version: Seq<char>,
            release: Seq<char>,
            arch: Seq<char>,
            ending: Seq<char>,
        |
            file_name@ == #[trigger] full_name(name, version, release, arch, ending)
                && are_name_parts(version, release, arch, ending) ==> r@ == name,
        !has_ending(text::lowercase_of(file_name@)) ==> r@ == file_name@,
{
    proof {
        if !has_ending(text::lowercase_of(file_name@)) {
            no_ending_found(text::lowercase_of(file_name@), 0);
        }
    }
    match parse_package_file_metadata(file_name) {
        Some(m) => m.name,
        None => file_name.to_owned(),
    }
}

/// The version that a file name gives, if the file is of the requested package.
pub fn extract_package_version(package: &str, file_name: &str) -> (r: Option<String>)
    ensures
        match file_fields(file_name@) {
            Some(f) => if name_matches(package@, f.0) {
                r matches Some(v) && v@ == f.1
            } else {
                r is None
            },
            None => r is None,
        },
{
    match parse_package_file_metadata(file_name) {
        Some(m) => if package_name_matches_request(package, &m.name) {
            Some(m.version)
        } else {
            None
        },
        None => None,
    }
}

/// The whole name of a package file.
pub open spec fn full_name(
    name: Seq<char>,
    version: Seq<char>,
    release: Seq<char>,
    arch: Seq<char>,
    ending: Seq<char>,
) -> Seq<char> {
    name + "-"@ + version + "-"@ + release + "-"@ + arch + ending
}

/// Whether the parts of a file name are such that they can be told apart: a
/// version that begins with a digit, a release, neither of them with a dash, a
/// known architecture and the ending of a package file.
pub open spec fn are_name_parts(
    version: Seq<char>,
    release: Seq<char>,
    arch: Seq<char>,
    ending: Seq<char>,
) -> bool {
    &&& version_like(version)
    &&& text::last_index(version, '-') == -1
    &&& text::last_index(release, '-') == -1
    &&& arch_like(arch)
    &&& package_endings().contains(ending)
}

/// Whether a lower-case name ends as package files do.
pub open spec fn has_ending(lower: Seq<char>) -> bool {
    exists|i: int|
        0 <= i < package_endings().len() && text::has_suffix(
            lower,
            #[trigger] package_endings()[i],
        )
}

/// Whether a file name gives the name and the version that it was made of,
/// whatever these are.
pub open spec fn reads_full_names(file_name: Seq<char>) -> bool {
    forall|
        name: Seq<char>,
        version: Seq<char>,
        release: Seq<char>,
        arch: Seq<char>,
        ending: Seq<char>,
    |
        file_name == #[trigger] full_name(name, version, release, arch, ending) && are_name_parts(
            version,
            release,
            arch,
            ending,
        ) ==> file_fields(file_name) == Some((name, version + "-"@ + release))
}

proof fn no_ending_found(lower: Seq<char>, i: int)
    requires
        !has_ending(lower),
        0 <= i <= package_endings().len(),
    ensures
        ending_from(lower, package_endings(), i) is None,
    decreases package_endings().len() - i,
{
    if i < package_endings().len() {
        no_ending_found(lower, i + 1);
    }
}

proof fn ending_found(lower: Seq<char>, k: int, i: int)
    requires
        0 <= i <= k < package_endings().len(),
        text::has_suffix(lower, package_endings()[k]),
        forall|j: int|
            0 <= j < k ==> !text::has_suffix(lower, #[trigger] package_endings()[j]),
    ensures
        ending_from(lower, package_endings(), i) == Some(package_endings()[k]),
    decreases k - i,
{
    if i < k {
        assert(!text::has_suffix(lower, package_endings()[i]));
        ending_found(lower, k, i + 1);
    }
}

/// A character of a text that ends in another, counted from the end.
proof fn suffix_char(s: Seq<char>, p: Seq<char>, d: int)
    requires
        text::has_suffix(s, p),
    ensures
        0 <= d < p.len() ==> s[s.len() - 1 - d] == p[p.len() - 1 - d],
{
    if 0 <= d < p.len() {
        assert(s.skip(s.len() - p.len())[p.len() - 1 - d] == s[s.len() - 1 - d]);
    }
}

proof fn suffix_chars(s: Seq<char>, p: Seq<char>)
    requires
        text::has_suffix(s, p),
    ensures
        p.len() > 0 ==> s[s.len() - 1] == p[p.len() - 1],
        p.len() > 1 ==> s[s.len() - 2] == p[p.len() - 2],
        p.len() > 7 ==> s[s.len() - 8] == p[p.len() - 8],
        p.len() > 8 ==> s[s.len() - 9] == p[p.len() - 9],
{
    suffix_char(s, p, 0);
    suffix_char(s, p, 1);
    suffix_char(s, p, 7);
    suffix_char(s, p, 8);
}

proof fn reveal_endings()
    ensures
        package_endings().len() == 10,
        forall|i: int|
            #![trigger package_endings()[i]]
            0 <= i < 10 ==> package_endings()[i].len() == (if i < 6 {
                if i % 3 == 0 {
                    12int
                } else {
                    11int
                }
            } else if i < 9 {
                if i % 3 == 0 {
                    8int
                } else {
                    7int
                }
            } else {
                4int
            }),
        forall|i: int|
            #![trigger package_endings()[i]]
            0 <= i < 10 ==> {
                let e = package_endings()[i];
                let n = e.len() as int;
                &&& e[n - 1] == (if i == 9 {
                    'r'
                } else if i % 3 == 0 {
                    't'
                } else {
                    'z'
                })
                &&& i < 9 && i % 3 == 1 ==> e[n - 2] == 'x'
                &&& i < 9 && i % 3 == 2 ==> e[n - 2] == 'g'
                &&& i < 6 ==> e[(if i % 3 == 0 {
                    n - 9
                } else {
                    n - 8
                })] == (if i < 3 {
                    'g'
                } else {
                    'k'
                })
            },
        forall|i: int, c: int|
            #![trigger package_endings()[i][c]]
            0 <= i < 10 && 0 <= c < package_endings()[i].len() ==> is_plain(
                package_endings()[i][c],
            ),
{
    reveal_strlit(".pkg.tar.zst");
    reveal_strlit(".pkg.tar.xz");
    reveal_strlit(".pkg.tar.gz");
    reveal_strlit(".lsk.tar.zst");
    reveal_strlit(".lsk.tar.xz");
    reveal_strlit(".lsk.tar.gz");
    reveal_strlit(".tar.zst");
    reveal_strlit(".tar.xz");
    reveal_strlit(".tar.gz");
    reveal_strlit(".tar");
}

/// Whether a character is an ASCII one that is its own lower case.
spec fn is_plain(c: char) -> bool {
    c <= '\u{7f}' && !('A' <= c && c <= 'Z')
}

proof fn reveal_archs(arch: Seq<char>)
    requires
        arch_like(arch),
    ensures
        arch.len() > 0,
        arch.last() != 'g' && arch.last() != 'k',
        forall|c: int| 0 <= c < arch.len() ==> is_plain(#[trigger] arch[c]),
{
    reveal_strlit("any");
    reveal_strlit("x86_64");
    reveal_strlit("i686");
    reveal_strlit("aarch64");
    reveal_strlit("armv7h");
    reveal_strlit("riscv64");
}

/// The ending that follows an architecture is the one that is found.
proof fn ending_after_arch(lower: Seq<char>, arch: Seq<char>, k: int)
    requires
        arch_like(arch),
        0 <= k < package_endings().len(),
        text::has_suffix(lower, arch + package_endings()[k]),
    ensures
        ending_from(lower, package_endings(), 0) == Some(package_endings()[k]),
{
    reveal_endings();
    reveal_archs(arch);
    let ending = package_endings()[k];
    let n = ending.len() as int;
    let tail = arch + ending;
    suffix_chars(lower, tail);
    suffix_char(lower, tail, n);
    assert(tail[arch.len() - 1] == arch.last());
    assert(lower.skip(lower.len() - n) =~= ending) by {
        assert(lower.skip(lower.len() - tail.len()) == tail);
        assert forall|i: int| 0 <= i < n implies lower.skip(lower.len() - n)[i] == ending[i] by {
            assert(lower.skip(lower.len() - tail.len())[arch.len() + i] == tail[arch.len() + i]);
        }
    }
    assert forall|j: int| 0 <= j < k implies !text::has_suffix(
        lower,
        #[trigger] package_endings()[j],
    ) by {
        if text::has_suffix(lower, package_endings()[j]) {
            suffix_chars(lower, package_endings()[j]);
            suffix_chars(lower, ending);
        }
    }
    ending_found(lower, k, 0);
}

/// Cutting off ASCII characters takes as many bytes.
proof fn cut_ascii(s: Seq<char>, tail: Seq<char>)
    requires
        text::all_ascii(tail),
    ensures
        without_last_bytes(s + tail, tail.len()) == Some(s),
    decreases tail.len(),
{
    if tail.len() == 0 {
        assert(s + tail =~= s);
    } else {
        assert((s + tail).last() == tail.last());
        assert((s + tail).drop_last() =~= s + tail.drop_last());
        cut_ascii(s, tail.drop_last());
    }
}

/// A file that is named after a package, its version, its release and an
/// architecture, with the ending of a package file, gives back that name and
/// that version, if its lower case ends in the architecture and the ending, as
/// that of such a name does.
pub proof fn file_fields_of_full_name(
    name: Seq<char>,
    version: Seq<char>,
    release: Seq<char>,
    arch: Seq<char>,
    ending: Seq<char>,
)
    requires
        are_name_parts(version, release, arch, ending),
    ensures
        ({
            let file_name = full_name(name, version, release, arch, ending);
            text::has_suffix(text::lowercase_of(file_name), arch + ending) ==> file_fields(
                file_name,
            ) == Some((name, version + "-"@ + release))
        }),
{
    let file_name = full_name(name, version, release, arch, ending);
    let k = choose|k: int| 0 <= k < package_endings().len() && package_endings()[k] == ending;
    if text::has_suffix(text::lowercase_of(file_name), arch + ending) {
        ending_after_arch(text::lowercase_of(file_name), arch, k);
        reveal_endings();
        assert(text::all_ascii(ending)) by {
            assert forall|i: int| 0 <= i < ending.len() implies #[trigger] ending[i] <= '\u{7f}' by {
                assert(is_plain(package_endings()[k][i]));
            }
        }
        cut_ascii(name + "-"@ + version + "-"@ + release + "-"@ + arch, ending);
        stem_fields_of_full_name(name, version, release, arch);
    }
}

/// File names give back what they were made of.
proof fn full_names_are_read(file_name: Seq<char>)
    requires
        ascii_tails_lowered(file_name),
    ensures
        reads_full_names(file_name),
{
    assert forall|
        name: Seq<char>,
        version: Seq<char>,
        release: Seq<char>,
        arch: Seq<char>,
        ending: Seq<char>,
    |
        file_name == #[trigger] full_name(name, version, release, arch, ending) && are_name_parts(
            version,
            release,
            arch,
            ending,
        ) implies file_fields(file_name) == Some((name, version + "-"@ + release)) by {
        let k = choose|k: int| 0 <= k < package_endings().len() && package_endings()[k] == ending;
        let tail = arch + ending;
        let start = file_name.len() - tail.len();
        reveal_endings();
        reveal_archs(arch);
        assert forall|i: int| 0 <= i < tail.len() implies is_plain(#[trigger] tail[i]) by {
            if i < arch.len() {
                assert(is_plain(arch[i]));
            } else {
                assert(is_plain(package_endings()[k][i - arch.len()]));
            }
        }
        assert(text::ascii_lower(tail) =~= tail);
        assert(file_name.skip(start) =~= tail);
        assert(text::has_suffix(file_name, tail));
        file_fields_of_full_name(name, version, release, arch, ending);
    }
}

/// A file named after a package, its version, its release and an architecture
/// gives back that name and that version.
pub proof fn stem_fields_of_full_name(
    name: Seq<char>,
    version: Seq<char>,
    release: Seq<char>,
    arch: Seq<char>,
)
    requires
        version_like(version),
        arch_like(arch),
        text::last_index(version, '-') == -1,
        text::last_index(release, '-') == -1,
    ensures
        stem_fields(name + "-"@ + version + "-"@ + release + "-"@ + arch) == Some(
            (name, version + "-"@ + release),
        ),
{
    reveal_strlit("-");
    let a = name + "-"@ + version;
    let b = a + "-"@ + release;
    let s = b + "-"@ + arch;
    arch_has_no_dash(arch);
    cut_at_dash(b, arch);
    cut_at_dash(a, release);
    cut_at_dash(name, version);
    reveal_with_fuel(dash_parts, 5);
    assert(dash_parts(s, 4) =~= seq![arch, release, version, name]);
}

/// No architecture holds a dash.
proof fn arch_has_no_dash(arch: Seq<char>)
    requires
        arch_like(arch),
    ensures
        text::last_index(arch, '-') == -1,
{
    reveal_strlit("any");
    reveal_strlit("x86_64");
    reveal_strlit("i686");
    reveal_strlit("aarch64");
    reveal_strlit("armv7h");
    reveal_strlit("riscv64");
    text::last_index_bounds(arch, '-');
}

/// Text cut at its last dash, where that dash is known.
proof fn cut_at_dash(before: Seq<char>, after: Seq<char>)
    requires
        text::last_index(after, '-') == -1,
    ensures
        text::cut_last(before + "-"@ + after, '-') == Some((before, after)),
{
    reveal_strlit("-");
    let s = before + "-"@ + after;
    let n = before.len() as int;
    text::last_index_bounds(s, '-');
    text::last_index_bounds(after, '-');
    assert(s[n] == '-');
    let i = text::last_index(s, '-');
    if i > n {
        assert(s[i] == after[i - n - 1]);
    }
    assert(s.take(n) =~= before);
    assert(s.skip(n + 1) =~= after);
}

// ---------------------------------------------------------------------------
// Addresses

/// Whether text is an address with a scheme of the web.
pub open spec fn is_web_address(s: Seq<char>) -> bool {
    text::has_prefix(s, "http://"@) || text::has_prefix(s, "https://"@)
}

/// Whether text is an address with a scheme of the web.
pub fn web_address(s: &str) -> (r: bool)
    ensures
        r == is_web_address(s@),
{
    text::starts_with(s, "http://") || text::starts_with(s, "https://")
}

/// The scheme and the host of an address: what stands before its third slash.
pub open spec fn address_origin(base: Seq<char>) -> Seq<char> {
    let parts = text::pieces(base, '/');
    text::joined(parts.take(if parts.len() < 3 { parts.len() as int } else { 3 }), "/"@)
}

/// An address taken relative to another.
pub open spec fn resolved(base: Seq<char>, href: Seq<char>) -> Seq<char> {
    if is_web_address(href) {
        href
    } else if text::has_prefix(href, "/"@) {
        address_origin(base) + href
    } else {
        text::without_trailing(base, '/') + "/"@ + text::without_leading(href, '/')
    }
}

/// An address taken relative to another.
pub fn normalize_url(base: &str, href: &str) -> (r: String)
    ensures
        r@ == resolved(base@, href@),
{
    if web_address(href) {
        href.to_owned()
    } else if text::starts_with(href, "/") {
        let mut parts = text::split(base, '/');
        let ghost all = parts@;
        parts.truncate(3);
        assert(text::texts(parts@) =~= text::texts(all).take(
            if all.len() < 3 { all.len() as int } else { 3 },
        ));
        text::join2(&text::join(&parts, "/"), href)
    } else {
        text::join3(&text::trim_trailing(base, '/'), "/", &text::trim_leading(href, '/'))
    }
}

/// The file that an address names: the last part of its path, without the query.
pub open spec fn href_file(href: Seq<char>) -> Seq<char> {
    text::last_piece(text::without_trailing(text::first_piece(href, '?'), '/'), '/')
}

/// The file that an address names.
pub fn file_name_from_href(href: &str) -> (r: String)
    ensures
        r@ == href_file(href@),
{
    text::last_part(&text::trim_trailing(&text::first_part(href, '?'), '/'), '/')
}

/// The package file that an address names.
pub open spec fn url_file(url: Seq<char>) -> Seq<char> {
    href_file(text::without_trailing(text::first_piece(url, '?'), '/'))
}

/// The package file that an address names.
pub fn package_file_name_from_url(url: &str) -> (r: String)
    ensures
        r@ == url_file(url@),
{
    file_name_from_href(&text::trim_trailing(&text::first_part(url, '?'), '/'))
}

/// What the addresses of a repository's packages begin with.
pub open spec fn match_prefix(repo_url: Seq<char>) -> Seq<char> {
    let url = text::without_trailing(repo_url, '/');
    if text::has_suffix(url, ".json"@) {
        match text::cut_last(url, '/') {
            Some(p) => p.0,
            None => url,
        }
    } else {
        url
    }
}

/// What the addresses of a repository's packages begin with.
pub fn repo_match_prefix(repo_url: &str) -> (r: String)
    ensures
        r@ == match_prefix(repo_url@),
{
    let url = text::trim_trailing(repo_url, '/');
    if text::ends_with(&url, ".json") {
        match text::rsplit_once(&url, '/') {
            Some(p) => p.0,
            None => url,
        }
    } else {
        url
    }
}

/// The address of a repository's package index.
pub open spec fn index_url(repo_url: Seq<char>) -> Seq<char> {
    let repo = text::without_trailing(repo_url, '/');
    if text::has_suffix(repo, ".json.tar.zst"@) {
        repo
    } else {
        repo + "/db.json.tar.zst"@
    }
}

/// The address of a repository's package index.
pub fn json_repo_index_url(repo_url: &str) -> (r: String)
    ensures
        r@ == index_url(repo_url@),
{
    let repo = text::trim_trailing(repo_url, '/');
    if text::ends_with(&repo, ".json.tar.zst") {
        repo
    } else {
        text::join2(&repo, "/db.json.tar.zst")
    }
}

/// Every index is a compressed archive.
pub proof fn index_url_ending(repo_url: Seq<char>)
    ensures
        text::has_suffix(index_url(repo_url), ".json.tar.zst"@),
{
    reveal_strlit(".json.tar.zst");
    reveal_strlit("/db.json.tar.zst");
    let repo = text::without_trailing(repo_url, '/');
    let u = repo + "/db.json.tar.zst"@;
    assert(u.skip(u.len() - 13) =~= ".json.tar.zst"@);
}

/// The address that a repository's packages are taken relative to.
pub open spec fn base_url(repo_url: Seq<char>) -> Seq<char> {
    let repo = text::without_trailing(repo_url, '/');
    if text::has_suffix(repo, ".json.tar.zst"@) {
        match text::cut_last(repo, '/') {
            Some(p) => p.0,
            None => repo,
        }
    } else {
        repo
    }
}

/// The address that a repository's packages are taken relative to.
pub fn json_repo_base_url(repo_url: &str) -> (r: String)
    ensures
        r@ == base_url(repo_url@),
{
    let repo = text::trim_trailing(repo_url, '/');
    if text::ends_with(&repo, ".json.tar.zst") {
        match text::rsplit_once(&repo, '/') {
            Some(p) => p.0,
            None => repo,
        }
    } else {
        repo
    }
}

/// The address of a package, given the address that its repository's index holds for it.
pub open spec fn package_url(repo_url: Seq<char>, url: Seq<char>) -> Seq<char> {
    if is_web_address(url) {
        url
    } else {
        resolved(base_url(repo_url), url)
    }
}

/// The address of a package.
pub fn normalize_json_package_url(repo_url: &str, package_url: &str) -> (r: String)
    ensures
        r@ == self::package_url(repo_url@, package_url@),
{
    if web_address(package_url) {
        package_url.to_owned()
    } else {
        normalize_url(&json_repo_base_url(repo_url), package_url)
    }
}


// ---------------------------------------------------------------------------
// The repositories of a configuration

/// The repositories of a configuration, the core ones first.
pub open spec fn repos_of(cfg: crate::config::ConfigView) -> Seq<Seq<char>> {
    cfg.core_repos + cfg.extra_mirrors
}

/// The repositories of a configuration, the core ones first.
pub fn repo_urls(cfg: &Config) -> (r: Vec<String>)
    ensures
        text::texts(r@) == repos_of(cfg@),
{
    let mut out = text::copy_all(&cfg.core_repos);
    let mut extra = text::copy_all(&cfg.extra_mirrors);
    let ghost a = out@;
    let ghost b = extra@;
    out.append(&mut extra);
    assert(text::texts(out@) =~= text::texts(a) + text::texts(b));
    out
}

/// An address that ends in one slash.
pub open spec fn with_slash(s: Seq<char>) -> Seq<char> {
    text::without_trailing(s, '/') + "/"@
}

/// The addresses of a list, each ending in one slash.
pub fn slashed(v: &Vec<String>) -> (r: Vec<String>)
    ensures
        text::texts(r@) == text::texts(v@).map_values(|s: Seq<char>| with_slash(s)),
{
    let mut out: Vec<String> = Vec::new();
    let mut i: usize = 0;
    let ghost want = text::texts(v@).map_values(|s: Seq<char>| with_slash(s));
    while i < v.len()
        invariant
            i <= v@.len(),
            want == text::texts(v@).map_values(|s: Seq<char>| with_slash(s)),
            text::texts(out@) == want.take(i as int),
        decreases v@.len() - i,
    {
        let ghost before = out@;
        out.push(text::join2(&text::trim_trailing(&v[i], '/'), "/"));
        assert(text::texts(out@) =~= text::texts(before).push(want[i as int]));
        i = i + 1;
        assert(text::texts(out@) =~= want.take(i as int));
    }
    assert(want.take(v@.len() as int) =~= want);
    out
}

/// The addresses of the repositories, each ending in one slash.
pub fn repo_roots(cfg: &Config) -> (r: Vec<String>)
    ensures
        text::texts(r@) == repos_of(cfg@).map_values(|s: Seq<char>| with_slash(s)),
{
    slashed(&repo_urls(cfg))
}

/// The first repository from the `i`th on whose packages' addresses a source begins like.
pub open spec fn source_prefix(repos: Seq<Seq<char>>, source: Seq<char>, i: int) -> Option<Seq<char>>
    decreases repos.len() - i,
{
    if i < 0 || i >= repos.len() {
        None
    } else if text::has_prefix(source, match_prefix(repos[i])) {
        Some(match_prefix(repos[i]))
    } else {
        source_prefix(repos, source, i + 1)
    }
}

/// How the source of a package is shown: the host of the repository that it
/// comes from, or of the source itself, or else the address.
pub open spec fn source_label(repos: Seq<Seq<char>>, source: Seq<char>) -> Seq<char> {
    let address = match source_prefix(repos, source, 0) {
        Some(prefix) => prefix,
        None => source,
    };
    label_for(address, url::host_of(address))
}

/// How an address is shown, given the host that it names.
pub open spec fn label_for(address: Seq<char>, host: Option<Seq<char>>) -> Seq<char> {
    match host {
        Some(host) => host,
        None => address,
    }
}

/// The address by which a source is shown: that of the repository that it
/// comes from, or its own.
pub fn labelled_address(cfg: &Config, source: &str) -> (r: String)
    ensures
        r@ == (match source_prefix(repos_of(cfg@), source@, 0) {
            Some(prefix) => prefix,
            None => source@,
        }),
{
    let urls = repo_urls(cfg);
    let mut i: usize = 0;
    while i < urls.len()
        invariant
            i <= urls@.len(),
            text::texts(urls@) == repos_of(cfg@),
            source_prefix(repos_of(cfg@), source@, 0) == source_prefix(
                repos_of(cfg@),
                source@,
                i as int,
            ),
        decreases urls@.len() - i,
    {
        assert(text::texts(urls@)[i as int] == urls@[i as int]@);
        let prefix = repo_match_prefix(&urls[i]);
        if text::starts_with(source, &prefix) {
            return prefix;
        }
        i = i + 1;
    }
    source.to_owned()
}

/// How an address is shown, given the host that it names.
pub fn address_label(address: String, host: Option<String>) -> (r: String)
    ensures
        r@ == label_for(address@, cli::opt_text(host)),
{
    match host {
        Some(h) => h,
        None => address,
    }
}

/// How the source of a package is shown.
pub fn repo_source_label(cfg: &Config, source: &str) -> (r: String)
    ensures
        r@ == source_label(repos_of(cfg@), source@),
{
    let address = labelled_address(cfg, source);
    let host = url::host(&address);
    address_label(address, host)
}

/// The addresses to try, in order, to see whether a repository can be reached.
pub open spec fn probe_urls(url: Seq<char>) -> Seq<Seq<char>> {
    if index_url(url) == url {
        seq![url]
    } else {
        seq![index_url(url), url]
    }
}

/// The addresses to try, in order, to see whether a repository can be reached.
pub fn reachability_probes(url: &str) -> (r: Vec<String>)
    ensures
        text::texts(r@) == probe_urls(url@),
{
    let index = json_repo_index_url(url);
    let mut out: Vec<String> = Vec::new();
    if !text::same(&index, url) {
        out.push(index);
    }
    out.push(url.to_owned());
    assert(text::texts(out@) =~= probe_urls(url@));
    out
}

/// Whether a repository can be reached: whether one of the addresses
/// answered with success. An address that did not answer is `None`.
pub fn repo_is_reachable(statuses: &Vec<Option<u16>>) -> (r: bool)
    ensures
        r == exists|i: int|
            0 <= i < statuses@.len() && (#[trigger] statuses@[i] matches Some(s) && 200 <= s < 300),
{
    let mut i: usize = 0;
    while i < statuses.len()
        invariant
            i <= statuses@.len(),
            forall|k: int|
                0 <= k < i ==> !(#[trigger] statuses@[k] matches Some(s) && 200 <= s < 300),
        decreases statuses@.len() - i,
    {
        if let Some(s) = statuses[i] {
            if 200 <= s && s < 300 {
                assert(statuses@[i as int] matches Some(s) && 200 <= s < 300);
                return true;
            }
        }
        i = i + 1;
    }
    false
}

// ---------------------------------------------------------------------------
// Package indexes

/// Where a package can be had.
#[derive(Clone)]
pub enum PackageLocation {
    Remote(String),
}

impl View for PackageLocation {
    type V = Seq<char>;

    open spec fn view(&self) -> Seq<char> {
        match self {
            PackageLocation::Remote(url) => url@,
        }
    }
}

/// A package as a repository's index describes it.
#[derive(Clone, Debug)]
pub struct JsonRepoPackage {
    pub name: String,
    pub version: String,
    pub origin: Option<String>,
    pub sha256: Option<String>,
    pub url: String,
    pub provides: Vec<String>,
    pub depends: Vec<String>,
    pub optdepends: Vec<String>,
    pub conflicts: Vec<String>,
}

/// A package of an index with its texts taken as sequences of characters.
pub struct RepoPackageView {
    pub name: Seq<char>,
    pub version: Seq<char>,
    pub origin: Option<Seq<char>>,
    pub sha256: Option<Seq<char>>,
    pub url: Seq<char>,
    pub provides: Seq<Seq<char>>,
    pub depends: Seq<Seq<char>>,
    pub optdepends: Seq<Seq<char>>,
    pub conflicts: Seq<Seq<char>>,
}

impl View for JsonRepoPackage {
    type V = RepoPackageView;

    open spec fn view(&self) -> RepoPackageView {
        RepoPackageView {
            name: self.name@,
            version: self.version@,
            origin: cli::opt_text(self.origin),
            sha256: cli::opt_text(self.sha256),
            url: self.url@,
            provides: text::texts(self.provides@),
            depends: text::texts(self.depends@),
            optdepends: text::texts(self.optdepends@),
            conflicts: text::texts(self.conflicts@),
        }
    }
}

impl JsonRepoPackage {
    /// Copies the package.
    pub fn copy(&self) -> (r: JsonRepoPackage)
        ensures
            r@ == self@,
    {
        JsonRepoPackage {
            name: text::copy(&self.name),
            version: text::copy(&self.version),
            origin: cli::copy_opt(&self.origin),
            sha256: cli::copy_opt(&self.sha256),
            url: text::copy(&self.url),
            provides: text::copy_all(&self.provides),
            depends: text::copy_all(&self.depends),
            optdepends: text::copy_all(&self.optdepends),
            conflicts: text::copy_all(&self.conflicts),
        }
    }
}

/// The packages of a repository, as far as its index can be had.
pub struct RepoIndex {
    pub repo_url: String,
    pub packages: Option<Vec<JsonRepoPackage>>,
}

/// A repository's packages with its texts taken as sequences of characters.
pub struct RepoIndexView {
    pub repo_url: Seq<char>,
    pub packages: Option<Seq<RepoPackageView>>,
}

impl View for RepoIndex {
    type V = RepoIndexView;

    open spec fn view(&self) -> RepoIndexView {
        RepoIndexView {
            repo_url: self.repo_url@,
            packages: match self.packages {
                Some(v) => Some(v@.map_values(|p: JsonRepoPackage| p@)),
                None => None,
            },
        }
    }
}

/// The repositories of a list.
pub open spec fn indexes(v: Seq<RepoIndex>) -> Seq<RepoIndexView> {
    v.map_values(|i: RepoIndex| i@)
}

/// Whether one of the names of a list answers a request.
pub open spec fn any_matches(requested: Seq<char>, names: Seq<Seq<char>>) -> bool {
    exists|i: int| 0 <= i < names.len() && name_matches(requested, #[trigger] names[i])
}

/// Whether a package answers a request, by its name or by something that it provides.
pub open spec fn answers(package: RepoPackageView, requested: Seq<char>) -> bool {
    name_matches(requested, package.name) || any_matches(requested, package.provides)
}

/// The first package from the `i`th on that answers a request.
pub open spec fn first_answer(
    packages: Seq<RepoPackageView>,
    requested: Seq<char>,
    i: int,
) -> Option<RepoPackageView>
    decreases packages.len() - i,
{
    if i < 0 || i >= packages.len() {
        None
    } else if answers(packages[i], requested) {
        Some(packages[i])
    } else {
        first_answer(packages, requested, i + 1)
    }
}

/// The first package of a repository that answers a request. A repository
/// whose index cannot be had has none.
pub open spec fn index_answer(index: RepoIndexView, requested: Seq<char>) -> Option<RepoPackageView> {
    match index.packages {
        Some(packages) => first_answer(packages, requested, 0),
        None => None,
    }
}

/// The package that answers a request: from the first repository, from the
/// `i`th on, that has one, together with the address of that repository.
pub open spec fn answer_from(
    repos: Seq<RepoIndexView>,
    requested: Seq<char>,
    i: int,
) -> Option<(Seq<char>, RepoPackageView)>
    decreases repos.len() - i,
{
    if i < 0 || i >= repos.len() {
        None
    } else {
        match index_answer(repos[i], requested) {
            Some(p) => Some((repos[i].repo_url, p)),
            None => answer_from(repos, requested, i + 1),
        }
    }
}

/// The package that answers a request.
pub open spec fn package_info(
    repos: Seq<RepoIndexView>,
    requested: Seq<char>,
) -> Option<RepoPackageView> {
    match answer_from(repos, requested, 0) {
        Some(a) => Some(a.1),
        None => None,
    }
}

/// Where the package that answers a request can be had.
pub open spec fn package_location(
    repos: Seq<RepoIndexView>,
    requested: Seq<char>,
) -> Option<Seq<char>> {
    match answer_from(repos, requested, 0) {
        Some(a) => Some(package_url(a.0, a.1.url)),
        None => None,
    }
}

fn any_name_matches(requested: &str, names: &Vec<String>) -> (r: bool)
    ensures
        r == any_matches(requested@, text::texts(names@)),
{
    let mut i: usize = 0;
    while i < names.len()
        invariant
            i <= names@.len(),
            forall|k: int| 0 <= k < i ==> !name_matches(requested@, #[trigger] text::texts(names@)[k]),
        decreases names@.len() - i,
    {
        if package_name_matches_request(requested, &names[i]) {
            assert(name_matches(requested@, text::texts(names@)[i as int]));
            return true;
        }
        i = i + 1;
    }
    false
}

/// The first package of an index that answers a request.
pub fn find_in_index(index: &RepoIndex, requested: &str) -> (r: Option<JsonRepoPackage>)
    ensures
        match r {
            Some(p) => index_answer(index@, requested@) == Some(p@),
            None => index_answer(index@, requested@) is None,
        },
{
    match &index.packages {
        Some(packages) => {
            let ghost all = packages@.map_values(|p: JsonRepoPackage| p@);
            let mut i: usize = 0;
            while i < packages.len()
                invariant
                    i <= packages@.len(),
                    all == packages@.map_values(|p: JsonRepoPackage| p@),
                    index@.packages == Some(all),
                    first_answer(all, requested@, 0) == first_answer(all, requested@, i as int),
                decreases packages@.len() - i,
            {
                assert(all[i as int] == packages@[i as int]@);
                if package_name_matches_request(requested, &packages[i].name) || any_name_matches(
                    requested,
                    &packages[i].provides,
                ) {
                    return Some(packages[i].copy());
                }
                i = i + 1;
            }
            None
        },
        None => None,
    }
}

fn find_answer(repos: &Vec<RepoIndex>, requested: &str) -> (r: Option<(String, JsonRepoPackage)>)
    ensures
        match r {
            Some(a) => answer_from(indexes(repos@), requested@, 0) == Some((a.0@, a.1@)),
            None => answer_from(indexes(repos@), requested@, 0) is None,
        },
{
    let ghost all = indexes(repos@);
    let mut i: usize = 0;
    while i < repos.len()
        invariant
            i <= repos@.len(),
            all == indexes(repos@),
            answer_from(all, requested@, 0) == answer_from(all, requested@, i as int),
        decreases repos@.len() - i,
    {
        assert(all[i as int] == repos@[i as int]@);
        if let Some(p) = find_in_index(&repos[i], requested) {
            return Some((text::copy(&repos[i].repo_url), p));
        }
        i = i + 1;
    }
    None
}

/// The package that answers a request.
pub fn find_repo_package_info(repos: &Vec<RepoIndex>, package: &str) -> (r: Result<
    Option<JsonRepoPackage>,
    LkpmError,
>)
    ensures
        match r {
            Ok(Some(p)) => package_info(indexes(repos@), package@) == Some(p@),
            Ok(None) => package_info(indexes(repos@), package@) is None,
            Err(_) => false,
        },
{
    match find_answer(repos, package) {
        Some(a) => Ok(Some(a.1)),
        None => Ok(None),
    }
}

/// Where the package that answers a request can be had.
pub fn find_pkg_in_json_repos(repos: &Vec<RepoIndex>, package: &str) -> (r: Result<
    Option<PackageLocation>,
    LkpmError,
>)
    ensures
        match r {
            Ok(Some(l)) => package_location(indexes(repos@), package@) == Some(l@),
            Ok(None) => package_location(indexes(repos@), package@) is None,
            Err(_) => false,
        },
{
    match find_answer(repos, package) {
        Some(a) => Ok(Some(PackageLocation::Remote(normalize_json_package_url(&a.0, &a.1.url)))),
        None => Ok(None),
    }
}

/// Where the package that answers a request can be had.
pub fn find_pkg_in_repos_location(repos: &Vec<RepoIndex>, package: &str) -> (r: Result<
    Option<PackageLocation>,
    LkpmError,
>)
    ensures
        match r {
            Ok(Some(l)) => package_location(indexes(repos@), package@) == Some(l@),
            Ok(None) => package_location(indexes(repos@), package@) is None,
            Err(_) => false,
        },
{
    find_pkg_in_json_repos(repos, package)
}

/// A package has a location exactly when it has a description.
pub proof fn located_when_described(repos: Seq<RepoIndexView>, requested: Seq<char>)
    ensures
        package_info(repos, requested) is Some <==> package_location(repos, requested) is Some,
{
}

// ---------------------------------------------------------------------------
// Fetching indexes

/// The text of the index that a listing holds, from its `i`th member on, or
/// the message of the error.
pub open spec fn index_in(members: archive::Listing, i: int, url: Seq<char>) -> Result<
    Seq<char>,
    Seq<char>,
>
    decreases members.len() - i,
{
    if i < 0 || i >= members.len() {
        Err("db.json not found in "@ + url)
    } else {
        match members[i] {
            Err(e) => Err(e),
            Ok(m) => if path::file_name_of(rawpath::units(m.path)) == Some("db.json"@) {
                archive::member_text(m)
            } else {
                index_in(members, i + 1, url)
            },
        }
    }
}

/// The text of the index that an opened archive holds, or the message of the error.
pub open spec fn index_of(
    opened: Result<archive::Listing, Seq<char>>,
    url: Seq<char>,
) -> Result<Seq<char>, Seq<char>> {
    match opened {
        Ok(members) => index_in(members, 0, url),
        Err(e) => Err(e),
    }
}

/// The text of the index that an opened archive holds.
pub fn index_in_archive(
    opened: &Result<Vec<Result<archive::Member, String>>, String>,
    url: &str,
) -> (r: Result<String, LkpmError>)
    ensures
        match r {
            Ok(t) => index_of(archive::opened(*opened), url@) == Ok::<Seq<char>, Seq<char>>(t@),
            Err(e) => e@ matches error::ErrorView::Network(m) && index_of(
                archive::opened(*opened),
                url@,
            ) == Err::<Seq<char>, Seq<char>>(m),
        },
{
    match opened {
        Ok(members) => {
            let ghost all = archive::listing(members@);
            let mut i: usize = 0;
            while i < members.len()
                invariant
                    i <= members@.len(),
                    all == archive::listing(members@),
                    index_of(archive::opened(*opened), url@) == index_in(all, i as int, url@),
                decreases members@.len() - i,
            {
                match &members[i] {
                    Err(e) => {
                        assert(all[i as int] == Err::<archive::MemberView, Seq<char>>(e@));
                        return Err(LkpmError::Network(text::copy(e)));
                    },
                    Ok(m) => {
                        assert(all[i as int] == Ok::<archive::MemberView, Seq<char>>(m@));
                        let place = rawpath::unit_text(m.path.as_slice());
                        if let Some(name) = path::file_name(&place) {
                            if text::same(&name, "db.json") {
                                return match m.text() {
                                    Ok(t) => Ok(t),
                                    Err(e) => Err(LkpmError::Network(e)),
                                };
                            }
                        }
                    },
                }
                i = i + 1;
            }
            Err(LkpmError::Network(text::join2("db.json not found in ", url)))
        },
        Err(e) => Err(LkpmError::Network(text::copy(e))),
    }
}

/// The text of a repository's index, given what was fetched from its address.
pub fn index_from_response(index_url: &str, body: &[u8]) -> (r: Result<String, LkpmError>)
    ensures
        match r {
            Ok(t) => index_of(archive::zstd_tar(body@), index_url@) == Ok::<Seq<char>, Seq<char>>(
                t@,
            ),
            Err(e) => e@ matches error::ErrorView::Network(m) && index_of(
                archive::zstd_tar(body@),
                index_url@,
            ) == Err::<Seq<char>, Seq<char>>(m),
        },
{
    index_in_archive(&archive::read_zstd_tar(body), index_url)
}

/// What came of asking for a repository's index.
pub enum FetchOutcome {
    /// The status of the answer and what it holds.
    Response(u16, Vec<u8>),
    /// Why no answer came.
    Failure(String),
}

/// What refreshing a repository comes to: the text of its index, or the error.
pub open spec fn refresh_result(url: Seq<char>, outcome: FetchOutcome) -> Result<
    Seq<char>,
    Seq<char>,
> {
    match outcome {
        FetchOutcome::Response(status, body) => if 200 <= status < 300 {
            index_of(archive::zstd_tar(body@), url)
        } else {
            Err("Failed to fetch "@ + url)
        },
        FetchOutcome::Failure(e) => Err(e@),
    }
}

/// The index of a repository, given what came of asking for it.
pub fn fetched_index(repo_url: &str, outcome: &FetchOutcome) -> (r: Result<String, LkpmError>)
    ensures
        match r {
            Ok(t) => refresh_result(index_url(repo_url@), *outcome) == Ok::<Seq<char>, Seq<char>>(
                t@,
            ),
            Err(e) => e@ matches error::ErrorView::Network(m) && refresh_result(
                index_url(repo_url@),
                *outcome,
            ) == Err::<Seq<char>, Seq<char>>(m),
        },
{
    let url = json_repo_index_url(repo_url);
    match outcome {
        FetchOutcome::Response(status, body) => if 200 <= *status && *status < 300 {
            index_from_response(&url, body.as_slice())
        } else {
            Err(LkpmError::Network(text::join2("Failed to fetch ", &url)))
        },
        FetchOutcome::Failure(e) => Err(LkpmError::Network(text::copy(e))),
    }
}

/// What came of refreshing a repository: where the index was stored, that
/// nothing came, or the error.
pub type RefreshOutcome = Result<Option<String>, LkpmError>;

/// The indexes that are stored once one was fetched.
pub open spec fn cache_after(
    cache: Seq<(Seq<char>, Seq<char>)>,
    repo_url: Seq<char>,
    json: Seq<char>,
) -> Seq<(Seq<char>, Seq<char>)> {
    database::without_key(cache, index_url(repo_url)).push((index_url(repo_url), json))
}

/// Stores the index of a repository, given what came of asking for it, and
/// tells where it is stored.
pub fn refresh_json_repo(
    cfg: &Config,
    db: &mut Database,
    repo_url: &str,
    outcome: &FetchOutcome,
) -> (r: RefreshOutcome)
    ensures
        final(db).db_file == old(db).db_file,
        final(db).packages == old(db).packages,
        match refresh_result(index_url(repo_url@), *outcome) {
            Ok(json) => {
                &&& r matches Ok(Some(p)) && p@ == path::joined(cfg@.db_path, "db.sqlite"@)
                &&& final(db).cache() == cache_after(old(db).cache(), repo_url@, json)
            },
            Err(m) => {
                &&& r matches Err(e) && e@ == error::ErrorView::Network(m)
                &&& final(db).cache() == old(db).cache()
            },
        },
{
    match fetched_index(repo_url, outcome) {
        Ok(json) => {
            db.store_repo_index(&json_repo_index_url(repo_url), &json);
            Ok(Some(path::join(&cfg.db_path, "db.sqlite")))
        },
        Err(e) => Err(e),
    }
}

/// What to do next to have a repository's index.
pub enum IndexStep {
    /// The index is this text.
    Use(String),
    /// Fetch the index, store it and read it again.
    Refresh,
    /// There is no index to be had.
    Fail(LkpmError),
}

/// What to do next to have a repository's index, given whether it has been
/// fetched since it was first looked for.
pub fn read_or_refresh_json_repo(db: &Database, repo_url: &str, refreshed: bool) -> (r: IndexStep)
    ensures
        match database::lookup(db.cache(), index_url(repo_url@)) {
            Some(text) => r matches IndexStep::Use(t) && t@ == text,
            None => if refreshed {
                r matches IndexStep::Fail(e) && e@ == error::ErrorView::Other(
                    "Repository index not available for "@ + repo_url@,
                )
            } else {
                r is Refresh
            },
        },
{
    match db.read_repo_index(&json_repo_index_url(repo_url)) {
        Some(t) => IndexStep::Use(t),
        None => if refreshed {
            IndexStep::Fail(
                LkpmError::Other(text::join2("Repository index not available for ", repo_url)),
            )
        } else {
            IndexStep::Refresh
        },
    }
}

/// An index that was fetched is the one that is used from then on, and the
/// indexes of other repositories stay as they are.
pub proof fn fetched_index_is_used(
    cache: Seq<(Seq<char>, Seq<char>)>,
    repo_url: Seq<char>,
    json: Seq<char>,
    other: Seq<char>,
)
    ensures
        database::lookup(cache_after(cache, repo_url, json), index_url(repo_url)) == Some(json),
        index_url(other) != index_url(repo_url) ==> database::lookup(
            cache_after(cache, repo_url, json),
            index_url(other),
        ) == database::lookup(cache, index_url(other)),
{
    database::index_after_store(cache, index_url(repo_url), json, index_url(other));
}

/// The places where indexes were stored.
pub open spec fn stored(outcomes: Seq<RefreshOutcome>) -> Seq<Seq<char>>
    decreases outcomes.len(),
{
    if outcomes.len() == 0 {
        seq![]
    } else {
        match outcomes.last() {
            Ok(Some(path)) => stored(outcomes.drop_last()).push(path@),
            _ => stored(outcomes.drop_last()),
        }
    }
}

/// What went wrong for the repositories whose index was not stored.
pub open spec fn refresh_errors(
    urls: Seq<Seq<char>>,
    outcomes: Seq<RefreshOutcome>,
) -> Seq<Seq<char>>
    decreases outcomes.len(),
{
    if outcomes.len() == 0 {
        seq![]
    } else {
        let before = refresh_errors(urls, outcomes.drop_last());
        let url = urls[outcomes.len() - 1];
        match outcomes.last() {
            Ok(Some(_)) => before,
            Ok(None) => before.push(url + ": metadata refresh returned no data"@),
            Err(e) => before.push(url + ": "@ + error::error_message(e@)),
        }
    }
}

/// What refreshing all repositories comes to: where the indexes are stored,
/// or an error if there are repositories and none of them could be refreshed.
pub fn refresh_repo_metadata(cfg: &Config, outcomes: &Vec<RefreshOutcome>) -> (r: Result<
    Vec<String>,
    LkpmError,
>)
    requires
        outcomes@.len() == repos_of(cfg@).len(),
    ensures
        match r {
            Ok(v) => {
                &&& text::texts(v@) == stored(outcomes@)
                &&& outcomes@.len() == 0 || v@.len() > 0
            },
            Err(e) => {
                &&& outcomes@.len() > 0
                &&& stored(outcomes@).len() == 0
                &&& e@ == error::ErrorView::Network(
                    "Failed to refresh any configured repositories: "@ + text::joined(
                        refresh_errors(repos_of(cfg@), outcomes@),
                        "; "@,
                    ),
                )
            },
        },
{
    let urls = repo_urls(cfg);
    let ghost repos = repos_of(cfg@);
    let mut refreshed: Vec<String> = Vec::new();
    let mut errors: Vec<String> = Vec::new();
    let mut i: usize = 0;
    assert(text::texts(refreshed@) =~= stored(outcomes@.take(0)));
    assert(text::texts(errors@) =~= refresh_errors(repos, outcomes@.take(0)));
    while i < outcomes.len()
        invariant
            i <= outcomes@.len(),
            outcomes@.len() == urls@.len(),
            text::texts(urls@) == repos,
            text::texts(refreshed@) == stored(outcomes@.take(i as int)),
            text::texts(errors@) == refresh_errors(repos, outcomes@.take(i as int)),
        decreases outcomes@.len() - i,
    {
        let ghost now = outcomes@.take(i + 1);
        assert(now.drop_last() =~= outcomes@.take(i as int));
        assert(now.last() == outcomes@[i as int]);
        assert(repos[i as int] == urls@[i as int]@);
        let ghost before_r = refreshed@;
        let ghost before_e = errors@;
        match &outcomes[i] {
            Ok(Some(p)) => {
                refreshed.push(text::copy(p));
                assert(text::texts(refreshed@) =~= text::texts(before_r).push(p@));
            },
            Ok(None) => {
                let m = text::join2(&urls[i], ": metadata refresh returned no data");
                errors.push(m);
                assert(text::texts(errors@) =~= text::texts(before_e).push(m@));
            },
            Err(e) => {
                let m = text::join3(&urls[i], ": ", &e.message());
                errors.push(m);
                assert(text::texts(errors@) =~= text::texts(before_e).push(m@));
            },
        }
        i = i + 1;
    }
    assert(outcomes@.take(outcomes@.len() as int) =~= outcomes@);
    if outcomes.len() == 0 || refreshed.len() > 0 {
        Ok(refreshed)
    } else {
        Err(
            LkpmError::Network(
                text::join2(
                    "Failed to refresh any configured repositories: ",
                    &text::join(&errors, "; "),
                ),
            ),
        )
    }
}

/// Where a downloaded package is put.
pub fn download_pkg_path(cfg: &Config, url: &str) -> (r: String)
    ensures
        r@ == path::joined(cfg@.cache_path, url_file(url@)),
{
    path::join(&cfg.cache_path, &package_file_name_from_url(url))
}

// ---------------------------------------------------------------------------
// What the repositories answer

/// Whether a package is asked for by its own name or by one that it provides.
pub open spec fn offers(p: RepoPackageView, requested: Seq<char>) -> bool {
    name_matches(requested, p.name) || (exists|k: int|
        0 <= k < p.provides.len() && name_matches(requested, #[trigger] p.provides[k]))
}

/// Whether the `j`th package of the `i`th repository is the first that is
/// asked for.
pub open spec fn comes_first(
    repos: Seq<RepoIndexView>,
    requested: Seq<char>,
    i: int,
    j: int,
) -> bool {
    &&& 0 <= i < repos.len()
    &&& repos[i].packages is Some
    &&& 0 <= j < repos[i].packages->0.len()
    &&& offers(repos[i].packages->0[j], requested)
    &&& forall|n: int| 0 <= n < j ==> !offers(#[trigger] repos[i].packages->0[n], requested)
    &&& forall|m: int, n: int|
        0 <= m < i && repos[m].packages is Some && 0 <= n < repos[m].packages->0.len() ==> !offers(
            #[trigger] repos[m].packages->0[n],
            requested,
        )
}

proof fn index_answers_first(packages: Seq<RepoPackageView>, requested: Seq<char>, k: int, j: int)
    requires
        0 <= k <= j <= packages.len(),
        j < packages.len() ==> offers(packages[j], requested),
        forall|n: int| 0 <= n < j ==> !offers(#[trigger] packages[n], requested),
    ensures
        first_answer(packages, requested, k) == (if j < packages.len() {
            Some(packages[j])
        } else {
            None
        }),
    decreases j - k,
{
    if k < j {
        assert(!offers(packages[k], requested));
        index_answers_first(packages, requested, k + 1, j);
    }
}

proof fn repos_answer_first(repos: Seq<RepoIndexView>, requested: Seq<char>, k: int, i: int, j: int)
    requires
        0 <= k <= i,
        comes_first(repos, requested, i, j),
    ensures
        answer_from(repos, requested, k) == Some((repos[i].repo_url, repos[i].packages->0[j])),
    decreases i - k,
{
    if k == i {
        index_answers_first(repos[i].packages->0, requested, 0, j);
    } else {
        if repos[k].packages is Some {
            let packages = repos[k].packages->0;
            assert forall|n: int| 0 <= n < packages.len() implies !offers(
                #[trigger] packages[n],
                requested,
            ) by {
                assert(!offers(repos[k].packages->0[n], requested));
            }
            index_answers_first(packages, requested, 0, packages.len() as int);
        }
        repos_answer_first(repos, requested, k + 1, i, j);
    }
}

/// The first package that is asked for, in the order of the repositories and
/// of their packages, is the one that is described, and it is downloaded from
/// where its own repository says.
pub proof fn first_answer_wins(repos: Seq<RepoIndexView>, requested: Seq<char>, i: int, j: int)
    requires
        comes_first(repos, requested, i, j),
    ensures
        package_info(repos, requested) == Some(repos[i].packages->0[j]),
        package_location(repos, requested) == Some(
            package_url(repos[i].repo_url, repos[i].packages->0[j].url),
        ),
{
    repos_answer_first(repos, requested, 0, i, j);
}

proof fn repos_have_none(repos: Seq<RepoIndexView>, requested: Seq<char>, k: int)
    requires
        0 <= k <= repos.len(),
        forall|m: int, n: int|
            0 <= m < repos.len() && repos[m].packages is Some && 0 <= n
                < repos[m].packages->0.len() ==> !offers(
                #[trigger] repos[m].packages->0[n],
                requested,
            ),
    ensures
        answer_from(repos, requested, k) is None,
    decreases repos.len() - k,
{
    if k < repos.len() {
        if repos[k].packages is Some {
            let packages = repos[k].packages->0;
            assert forall|n: int| 0 <= n < packages.len() implies !offers(
                #[trigger] packages[n],
                requested,
            ) by {
                assert(!offers(repos[k].packages->0[n], requested));
            }
            index_answers_first(packages, requested, 0, packages.len() as int);
        }
        repos_have_none(repos, requested, k + 1);
    }
}

/// Nothing is described or downloaded that no repository has.
pub proof fn no_answer_without_package(repos: Seq<RepoIndexView>, requested: Seq<char>)
    requires
        forall|m: int, n: int|
            0 <= m < repos.len() && repos[m].packages is Some && 0 <= n
                < repos[m].packages->0.len() ==> !offers(
                #[trigger] repos[m].packages->0[n],
                requested,
            ),
    ensures
        package_info(repos, requested) is None,
        package_location(repos, requested) is None,
{
    repos_have_none(repos, requested, 0);
}

/// What an answer is made of: the package that is described is asked for, and
/// is one of a repository.
pub proof fn answers_are_asked_for(repos: Seq<RepoIndexView>, requested: Seq<char>)
    ensures
        package_info(repos, requested) matches Some(p) ==> offers(p, requested),
{
    answer_offered(repos, requested, 0);
}

proof fn answer_offered(repos: Seq<RepoIndexView>, requested: Seq<char>, i: int)
    ensures
        answer_from(repos, requested, i) matches Some(a) ==> offers(a.1, requested),
    decreases repos.len() - i,
{
    if 0 <= i < repos.len() {
        if repos[i].packages is Some {
            first_offered(repos[i].packages->0, requested, 0);
        }
        answer_offered(repos, requested, i + 1);
    }
}

proof fn first_offered(packages: Seq<RepoPackageView>, requested: Seq<char>, i: int)
    ensures
        first_answer(packages, requested, i) matches Some(p) ==> offers(p, requested),
    decreases packages.len() - i,
{
    if 0 <= i < packages.len() {
        first_offered(packages, requested, i + 1);
    }
}

// ---------------------------------------------------------------------------
// Addresses of packages

/// A package with an address of its own is downloaded from there.
pub proof fn own_addresses_count(repo_url: Seq<char>, url: Seq<char>)
    requires
        text::has_prefix(url, "http://"@) || text::has_prefix(url, "https://"@),
    ensures
        package_url(repo_url, url) == url,
{
}

/// A package that is named by a file is downloaded from beside the index of
/// its repository, whether the repository is given by its directory, with or
/// without slashes at its end, or by its index.
pub proof fn files_lie_beside_the_index(dir: Seq<char>, index: Seq<char>, file: Seq<char>)
    requires
        dir.len() > 0 && dir.last() != '/',
        !text::has_suffix(dir, ".json.tar.zst"@),
        text::has_suffix(index, ".json.tar.zst"@),
        text::last_index(index, '/') == -1,
        file.len() > 0 && file[0] != '/',
        !text::has_prefix(file, "http://"@) && !text::has_prefix(file, "https://"@),
    ensures
        package_url(dir, file) == dir + "/"@ + file,
        package_url(dir + "/"@, file) == dir + "/"@ + file,
        package_url(dir + "/"@ + index, file) == dir + "/"@ + file,
        index_url(dir) == dir + "/db.json.tar.zst"@,
        index_url(dir + "/"@) == dir + "/db.json.tar.zst"@,
        index_url(dir + "/"@ + index) == dir + "/"@ + index,
{
    reveal_strlit("/");
    reveal_strlit(".json.tar.zst");
    let whole = dir + "/"@ + index;
    text::end_kept(dir, '/');
    assert(dir + "/"@ =~= dir.push('/'));
    assert(text::without_leading(file, '/') == file);
    assert(!text::has_prefix(file, "/"@)) by {
        if text::has_prefix(file, "/"@) {
            assert(file.take(1)[0] == '/');
        }
    }
    assert(index.last() == 't') by {
        assert(index.skip(index.len() - 13)[12] == index.last());
    }
    assert(whole.last() == index.last());
    text::end_kept(whole, '/');
    assert(text::has_suffix(whole, ".json.tar.zst"@)) by {
        assert(whole.skip(whole.len() - 13) =~= index.skip(index.len() - 13));
    }
    let n = dir.len() as int;
    text::last_index_bounds(whole, '/');
    text::last_index_bounds(index, '/');
    assert(whole[n] == '/');
    let k = text::last_index(whole, '/');
    if k > n {
        assert(whole[k] == index[k - n - 1]);
    }
    assert(whole.take(n) =~= dir);
}

/// A package that is named by a path from the root of the host is downloaded
/// from that host.
pub proof fn paths_start_at_the_host(scheme: Seq<char>, host: Seq<char>, path: Seq<char>, place: Seq<char>)
    requires
        scheme == "http:"@ || scheme == "https:"@,
        text::first_index(host, '/') == host.len(),
        text::first_index(path, '/') == path.len(),
        place.len() > 0 && place[0] == '/',
    ensures
        resolved(scheme + "//"@ + host + "/"@ + path, place) == scheme + "//"@ + host + place,
        resolved(scheme + "//"@ + host, place) == scheme + "//"@ + host + place,
{
    reveal_strlit("http:");
    reveal_strlit("https:");
    reveal_strlit("http://");
    reveal_strlit("https://");
    reveal_strlit("//");
    reveal_strlit("/");
    assert(!is_web_address(place)) by {
        if text::has_prefix(place, "http://"@) {
            assert(place.take(7)[0] == 'h');
        }
        if text::has_prefix(place, "https://"@) {
            assert(place.take(8)[0] == 'h');
        }
    }
    assert(text::has_prefix(place, "/"@)) by {
        assert(place.take(1) =~= "/"@);
    }
    let n = scheme.len() as int;
    let bare = scheme + "//"@ + host;
    let long = bare + "/"@ + path;
    text::first_index_bounds(scheme, '/');
    assert(forall|i: int| 0 <= i < n ==> scheme[i] != '/');
    text::first_index_bounds(host, '/');
    text::first_index_bounds(path, '/');
    // What stands after the first slash, and after the second.
    let one = bare.skip(n + 1);
    let two = bare.skip(n + 2);
    text::first_index_is(bare, '/', n);
    text::first_index_is(one, '/', 0);
    assert(two =~= host);
    assert(one.skip(1) =~= two);
    assert(bare.take(n) =~= scheme);
    assert(one.take(0) =~= seq![]);
    assert(text::pieces(two, '/') == seq![host]);
    assert(text::pieces(one, '/') =~= seq![Seq::<char>::empty(), host]);
    assert(text::pieces(bare, '/') =~= seq![scheme, Seq::<char>::empty(), host]);
    let first = long.skip(n + 1);
    let second = long.skip(n + 2);
    let third = long.skip(bare.len() as int + 1);
    text::first_index_is(long, '/', n);
    text::first_index_is(first, '/', 0);
    assert(second =~= host + "/"@ + path);
    text::first_index_is(second, '/', host.len() as int);
    assert(third =~= path);
    assert(first.skip(1) =~= second);
    assert(second.skip(host.len() as int + 1) =~= third);
    assert(second.take(host.len() as int) =~= host);
    assert(long.take(n) =~= scheme);
    assert(first.take(0) =~= seq![]);
    assert(text::pieces(third, '/') == seq![path]);
    assert(text::pieces(second, '/') =~= seq![host, path]);
    assert(text::pieces(first, '/') =~= seq![Seq::<char>::empty(), host, path]);
    assert(text::pieces(long, '/') =~= seq![scheme, Seq::<char>::empty(), host, path]);
    let parts = seq![scheme, Seq::<char>::empty(), host];
    assert(text::pieces(long, '/').take(3) =~= parts);
    assert(text::pieces(bare, '/').take(3) =~= parts);
    assert(parts.drop_last() =~= seq![scheme, Seq::<char>::empty()]);
    assert(parts.drop_last().drop_last() =~= seq![scheme]);
    assert(text::joined(parts.drop_last().drop_last(), "/"@) == scheme);
    assert(text::joined(parts.drop_last(), "/"@) =~= scheme + "/"@);
    assert(text::joined(parts, "/"@) =~= bare);
}

/// The file that an address names is what follows its last slash, without a
/// query; a download is kept under that name.
pub proof fn downloads_are_named_after_their_file(dir: Seq<char>, file: Seq<char>, query: Seq<char>)
    requires
        text::first_index(dir, '?') == dir.len(),
        text::first_index(file, '?') == file.len(),
        file.len() > 0 && text::last_index(file, '/') == -1,
    ensures
        url_file(dir + "/"@ + file) == file,
        url_file(dir + "/"@ + file + "?"@ + query) == file,
{
    reveal_strlit("/");
    reveal_strlit("?");
    let bare = dir + "/"@ + file;
    let whole = bare + "?"@ + query;
    let n = dir.len() as int;
    text::first_index_bounds(dir, '?');
    text::first_index_bounds(file, '?');
    text::last_index_bounds(file, '/');
    assert forall|i: int| 0 <= i < bare.len() implies bare[i] != '?' by {
        if i > n {
            assert(bare[i] == file[i - n - 1]);
        }
    }
    text::first_index_is(bare, '?', bare.len() as int);
    text::first_index_is(whole, '?', bare.len() as int);
    assert(bare.take(bare.len() as int) =~= bare);
    assert(whole.take(bare.len() as int) =~= bare);
    assert(bare.last() == file.last());
    assert(file.last() == file[file.len() - 1]);
    text::end_kept(bare, '/');
    text::last_index_bounds(bare, '/');
    assert(bare[n] == '/');
    let k = text::last_index(bare, '/');
    if k > n {
        assert(bare[k] == file[k - n - 1]);
    }
    assert(bare.skip(n + 1) =~= file);
}

// ---------------------------------------------------------------------------
// Indexes and refreshes

/// The index of a repository is the text of the first member that is named
/// after it, if every member before it can be read.
pub proof fn first_index_member_counts(members: archive::Listing, url: Seq<char>, i: int)
    requires
        0 <= i < members.len(),
        forall|k: int|
            0 <= k < i ==> ((#[trigger] members[k]) matches Ok(m) && path::file_name_of(
                rawpath::units(m.path),
            ) != Some("db.json"@)),
        members[i] matches Ok(m) && path::file_name_of(rawpath::units(m.path)) == Some("db.json"@),
    ensures
        index_in(members, 0, url) == archive::member_text(members[i]->Ok_0),
{
    index_member_from(members, url, 0, i);
}

proof fn index_member_from(members: archive::Listing, url: Seq<char>, k: int, i: int)
    requires
        0 <= k <= i < members.len(),
        forall|n: int|
            0 <= n < i ==> ((#[trigger] members[n]) matches Ok(m) && path::file_name_of(
                rawpath::units(m.path),
            ) != Some("db.json"@)),
        members[i] matches Ok(m) && path::file_name_of(rawpath::units(m.path)) == Some("db.json"@),
    ensures
        index_in(members, k, url) == archive::member_text(members[i]->Ok_0),
    decreases i - k,
{
    if k < i {
        assert(members[k] is Ok);
        index_member_from(members, url, k + 1, i);
    }
}

/// A refresh counts what was stored, each file once for each time, and
/// nothing else.
pub proof fn stored_is_what_came(outcomes: Seq<RefreshOutcome>, path: Seq<char>)
    ensures
        stored(outcomes).contains(path) <==> exists|i: int|
            0 <= i < outcomes.len() && ((#[trigger] outcomes[i]) matches Ok(Some(p)) && p@ == path),
    decreases outcomes.len(),
{
    if outcomes.len() > 0 {
        let init = outcomes.drop_last();
        let last = outcomes.last();
        stored_is_what_came(init, path);
        assert(forall|i: int| 0 <= i < init.len() ==> #[trigger] init[i] == outcomes[i]);
        assert(outcomes[outcomes.len() - 1] == last);
        if stored(init).contains(path) {
            let i = choose|i: int|
                0 <= i < init.len() && ((#[trigger] init[i]) matches Ok(Some(p)) && p@ == path);
            assert(outcomes[i] == init[i]);
            let k = choose|k: int| 0 <= k < stored(init).len() && stored(init)[k] == path;
            assert(stored(outcomes)[k] == path);
        }
        if let Ok(Some(p)) = last {
            assert(stored(outcomes)[stored(init).len() as int] == p@);
        }
        if stored(outcomes).contains(path) {
            let k = choose|k: int| 0 <= k < stored(outcomes).len() && stored(outcomes)[k] == path;
            if k < stored(init).len() {
                assert(stored(init)[k] == path);
                let i = choose|i: int|
                    0 <= i < init.len() && ((#[trigger] init[i]) matches Ok(Some(p)) && p@ == path);
                assert(outcomes[i] == init[i]);
            }
        }
        if exists|i: int|
            0 <= i < outcomes.len() && ((#[trigger] outcomes[i]) matches Ok(Some(p)) && p@
                == path) {
            let i = choose|i: int|
                0 <= i < outcomes.len() && ((#[trigger] outcomes[i]) matches Ok(Some(p)) && p@
                    == path);
            if i < init.len() {
                assert(init[i] == outcomes[i]);
            }
        }
    }
}

/// Every repository that could not be refreshed is told of, in order, by its
/// own address.
pub proof fn failed_refreshes_are_told(urls: Seq<Seq<char>>, outcomes: Seq<RefreshOutcome>, i: int)
    requires
        0 <= i < outcomes.len() <= urls.len(),
        outcomes[i] is Err || outcomes[i]->Ok_0 is None,
    ensures
        exists|k: int|
            0 <= k < refresh_errors(urls, outcomes).len() && text::has_prefix(
                #[trigger] refresh_errors(urls, outcomes)[k],
                urls[i] + ": "@,
            ),
    decreases outcomes.len(),
{
    reveal_strlit(": ");
    reveal_strlit(": metadata refresh returned no data");
    let init = outcomes.drop_last();
    let before = refresh_errors(urls, init);
    let all = refresh_errors(urls, outcomes);
    if i < init.len() {
        assert(init[i] == outcomes[i]);
        failed_refreshes_are_told(urls, init, i);
        let k = choose|k: int|
            0 <= k < before.len() && text::has_prefix(#[trigger] before[k], urls[i] + ": "@);
        assert(all[k] == before[k]);
    } else {
        let k = before.len() as int;
        assert(all[k].take(urls[i].len() as int + 2) =~= urls[i] + ": "@);
        assert(text::has_prefix(all[k], urls[i] + ": "@));
    }
}

// ---------------------------------------------------------------------------
// Names

/// Two names that are neither of libraries nor aliases match exactly if they
/// are the same but for case, constraints and descriptions.
pub proof fn plain_names_match_by_name(requested: Seq<char>, actual: Seq<char>)
    requires
        !text::has_prefix(text::ascii_lower(pkg_utils::dependency_name(requested)), "lib"@),
        !text::has_prefix(text::ascii_lower(pkg_utils::dependency_name(actual)), "lib"@),
        canonical(pkg_utils::dependency_name(requested)) == pkg_utils::dependency_name(requested),
    ensures
        name_matches(requested, actual) <==> text::ascii_lower(
            pkg_utils::dependency_name(requested),
        ) == text::ascii_lower(pkg_utils::dependency_name(actual)),
{
}

proof fn so_found(root: Seq<char>, rest: Seq<char>, k: int)
    requires
        0 <= k <= root.len(),
        forall|i: int| 0 <= i < root.len() ==> root[i] != '.',
    ensures
        text::find_text((root + ".so"@ + rest).skip(k), ".so"@) == Some((root.len() - k) as nat),
    decreases root.len() - k,
{
    reveal_strlit(".so");
    let s = root + ".so"@ + rest;
    if k == root.len() {
        assert(s.skip(k).take(3) =~= ".so"@);
    } else {
        assert(s.skip(k).drop_first() =~= s.skip(k + 1));
        assert(!text::has_prefix(s.skip(k), ".so"@)) by {
            if text::has_prefix(s.skip(k), ".so"@) {
                assert(s.skip(k).take(3)[0] == root[k]);
            }
        }
        so_found(root, rest, k + 1);
    }
}

/// A library is found by the name of its shared object, and the other way
/// round, whatever version the shared object has.
pub proof fn libraries_match_their_objects(root: Seq<char>, rest: Seq<char>)
    requires
        text::has_prefix(root, "lib"@),
        text::ascii_lower(root) == root,
        forall|i: int| 0 <= i < root.len() ==> root[i] != '.',
        pkg_utils::dependency_name(root) == root,
        pkg_utils::dependency_name(root + ".so"@ + rest) == root + ".so"@ + rest,
    ensures
        name_matches(root + ".so"@ + rest, root),
        name_matches(root, root + ".so"@ + rest),
{
    reveal_strlit(".so");
    reveal_strlit("lib");
    let object = root + ".so"@ + rest;
    let lower = text::ascii_lower(object);
    let tail = text::ascii_lower(rest);
    assert(text::ascii_lower(".so"@) =~= ".so"@);
    assert(lower =~= root + ".so"@ + tail) by {
        assert forall|i: int| 0 <= i < lower.len() implies lower[i] == (root + ".so"@ + tail)[i] by {
            if i < root.len() {
                assert(text::ascii_lower(root)[i] == root[i]);
                assert(object[i] == root[i]);
            }
        }
    }
    so_found(root, tail, 0);
    assert(lower.skip(0) =~= lower);
    assert(object.take(root.len() as int) =~= root);
    assert(text::has_prefix(lower, "lib"@)) by {
        assert(lower.take(3) =~= root.take(3));
    }
    assert(soname_stem(object) == Some(root));
}

/// A source is labelled by the first repository that it lies in: by its host,
/// or by its address if that names none. A source of no repository is labelled
/// by itself.
pub proof fn sources_are_labelled_by_repository(
    repos: Seq<Seq<char>>,
    source: Seq<char>,
    i: int,
)
    requires
        0 <= i <= repos.len(),
        forall|k: int|
            0 <= k < i ==> !text::has_prefix(source, match_prefix(#[trigger] repos[k])),
        i < repos.len() ==> text::has_prefix(source, match_prefix(repos[i])),
    ensures
        ({
            let address = if i < repos.len() {
                match_prefix(repos[i])
            } else {
                source
            };
            &&& url::host_of(address) is Some ==> source_label(repos, source) == url::host_of(
                address,
            )->0
            &&& url::host_of(address) is None ==> source_label(repos, source) == address
        }),
{
    prefix_from(repos, source, 0, i);
}

proof fn prefix_from(repos: Seq<Seq<char>>, source: Seq<char>, from: int, i: int)
    requires
        0 <= from <= i <= repos.len(),
        forall|k: int|
            0 <= k < i ==> !text::has_prefix(source, match_prefix(#[trigger] repos[k])),
    ensures
        source_prefix(repos, source, from) == source_prefix(repos, source, i),
    decreases i - from,
{
    if from < i {
        assert(!text::has_prefix(source, match_prefix(repos[from])));
        prefix_from(repos, source, from + 1, i);
    }
}

/// A repository that is given by its index is known by the directory that the
/// index lies in; any other is known by its address.
pub proof fn an_index_stands_for_its_directory(dir: Seq<char>, index: Seq<char>, url: Seq<char>)
    requires
        forall|i: int| 0 <= i < index.len() ==> index[i] != '/',
        url.len() > 0 && url.last() != '/',
        !text::has_suffix(url, ".json"@),
    ensures
        match_prefix(dir.push('/') + (index + ".json"@)) == dir,
        match_prefix(url) == url,
        match_prefix(url.push('/')) == url,
{
    reveal_strlit(".json");
    let name = index + ".json"@;
    let p = dir.push('/') + name;
    assert(p.last() == 'n');
    assert(text::without_trailing(p, '/') == p);
    assert(p =~= (dir.push('/') + index) + ".json"@);
    text::suffix_is_the_end(dir.push('/') + index, ".json"@);
    assert forall|i: int| 0 <= i < name.len() implies name[i] != '/' by {
        if i < index.len() {
            assert(name[i] == index[i]);
        } else {
            assert(name[i] == ".json"@[i - index.len()]);
        }
    }
    text::last_separator_parts(dir, '/', name);
    text::end_kept(url, '/');
}

/// A repository is tried at its index before it is tried at its address, and
/// nowhere else.
pub proof fn the_index_is_tried_first(url: Seq<char>)
    ensures
        probe_urls(url)[0] == index_url(url),
        probe_urls(url).last() == url,
        probe_urls(url).len() == (if index_url(url) == url {
            1nat
        } else {
            2nat
        }),
{
}

/// An index is read from an answer that reports success, and from no other.
pub proof fn only_good_answers_are_read(url: Seq<char>, status: u16, body: Vec<u8>, e: String)
    ensures
        200 <= status && status <= 299 ==> refresh_result(
            url,
            FetchOutcome::Response(status, body),
        ) == index_of(archive::zstd_tar(body@), url),
        status < 200 || status > 299 ==> refresh_result(url, FetchOutcome::Response(status, body))
            is Err,
        refresh_result(url, FetchOutcome::Failure(e)) == Err::<Seq<char>, Seq<char>>(e@),
{
}

/// The core repositories come before the extra ones, each kind in its own
/// order.
pub proof fn core_repositories_come_first(cfg: crate::config::ConfigView, k: int)
    ensures
        repos_of(cfg).len() == cfg.core_repos.len() + cfg.extra_mirrors.len(),
        0 <= k < cfg.core_repos.len() ==> repos_of(cfg)[k] == cfg.core_repos[k],
        0 <= k < cfg.extra_mirrors.len() ==> repos_of(cfg)[cfg.core_repos.len() + k]
            == cfg.extra_mirrors[k],
{
}

/// A version begins with a digit.
pub proof fn versions_begin_with_a_digit(value: Seq<char>)
    ensures
        version_like(value) <==> value.len() > 0 && '0' <= value[0] <= '9',
{
}

/// The names of package files may leave out the release, and the architecture
/// with it.
pub proof fn shorter_names_are_read(name: Seq<char>, version: Seq<char>, arch: Seq<char>)
    requires
        version.len() > 0 && '0' <= version[0] <= '9',
        forall|i: int| 0 <= i < name.len() ==> name[i] != '-',
        forall|i: int| 0 <= i < version.len() ==> version[i] != '-',
        arch == "any"@ || arch == "x86_64"@ || arch == "i686"@ || arch == "aarch64"@ || arch
            == "armv7h"@ || arch == "riscv64"@,
    ensures
        stem_fields(name + "-"@ + version + "-"@ + arch) == Some((name, version)),
        stem_fields(name + "-"@ + version) == Some((name, version)),
        stem_fields(name) is None,
{
    reveal_strlit("-");
    let a = name + "-"@ + version;
    let s = a + "-"@ + arch;
    text::last_index_bounds(version, '-');
    text::last_index_bounds(name, '-');
    arch_has_no_dash(arch);
    cut_at_dash(a, arch);
    cut_at_dash(name, version);
    assert(text::cut_last(name, '-') is None);
    reveal_with_fuel(dash_parts, 5);
    assert(dash_parts(s, 4) =~= seq![arch, version, name]);
    assert(dash_parts(a, 4) =~= seq![version, name]);
    assert(dash_parts(name, 4) =~= seq![name]);
}

} // verus!
