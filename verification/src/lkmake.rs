//! Building packages.
use vstd::prelude::*;

use crate::database;
use crate::text;

verus! {

// ---------------------------------------------------------------------------
// The command line

/// What a build is asked to do.
#[derive(PartialEq, Eq, Structural, Clone, Copy, Debug)]
pub struct BuildOptions {
    pub skip_deps: bool,
    pub install_after: bool,
    pub clean_after: bool,
}

/// Whether the help text is asked for. The first argument is the program.
pub fn wants_help(args: &Vec<String>) -> (r: bool)
    ensures
        r == (args@.len() > 1 && (args@[1]@ == "-h"@ || args@[1]@ == "--help"@)),
{
    args.len() > 1 && (text::same(&args[1], "-h") || text::same(&args[1], "--help"))
}

/// What a build is asked to do.
pub fn build_options(args: &Vec<String>) -> (r: BuildOptions)
    ensures
        ({
            let all = text::texts(args@);
            &&& r.skip_deps == (all.contains("-d"@) || all.contains("--nodeps"@))
            &&& r.install_after == (all.contains("-i"@) || all.contains("--install"@))
            &&& r.clean_after == (all.contains("-c"@) || all.contains("--clean"@))
        }),
{
    BuildOptions {
        skip_deps: text::list_contains(args, "-d") || text::list_contains(args, "--nodeps"),
        install_after: text::list_contains(args, "-i") || text::list_contains(args, "--install"),
        clean_after: text::list_contains(args, "-c") || text::list_contains(args, "--clean"),
    }
}

/// The lines of the help text.
pub open spec fn help_text() -> Seq<Seq<char>> {
    seq![
        ""@,
        "---------------------------------------"@,
        "::: [ Liska Package Maker (1.0.0) ] :::"@,
        "---------------------------------------"@,
        ""@,
        "Usage: lkmake <command>"@,
        "> -d | --nodeps     skip dependency resolution and installation"@,
        "> -c | --clean      clean up work files after build"@,
        "> -i | --install    install package after successful build"@,
        ""@,
    ]
}

/// The lines of the help text.
pub fn help_lines() -> (r: Vec<String>)
    ensures
        text::texts(r@) == help_text(),
{
    let r = vec![
        "".to_owned(),
        "---------------------------------------".to_owned(),
        "::: [ Liska Package Maker (1.0.0) ] :::".to_owned(),
        "---------------------------------------".to_owned(),
        "".to_owned(),
        "Usage: lkmake <command>".to_owned(),
        "> -d | --nodeps     skip dependency resolution and installation".to_owned(),
        "> -c | --clean      clean up work files after build".to_owned(),
        "> -i | --install    install package after successful build".to_owned(),
        "".to_owned(),
    ];
    assert(text::texts(r@) =~= help_text());
    r
}

// ---------------------------------------------------------------------------
// Scripts

/// The lines of a text without white space around them, as far as anything is left.
pub open spec fn entries(lines: Seq<Seq<char>>) -> Seq<Seq<char>>
    decreases lines.len(),
{
    if lines.len() == 0 {
        seq![]
    } else {
        let rest = entries(lines.drop_last());
        let line = text::trimmed(lines.last());
        if line.len() == 0 {
            rest
        } else {
            rest.push(line)
        }
    }
}

/// The entries that a script has printed, one to a line.
pub fn printed_entries(output: &str) -> (r: Vec<String>)
    ensures
        text::texts(r@) == entries(text::lines_of(output@)),
{
    let lines = text::lines(output);
    let ghost all = text::lines_of(output@);
    let mut out: Vec<String> = Vec::new();
    let mut i: usize = 0;
    assert(text::texts(out@) =~= entries(all.take(0)));
    while i < lines.len()
        invariant
            i <= lines@.len(),
            all == text::texts(lines@),
            text::texts(out@) == entries(all.take(i as int)),
        decreases lines@.len() - i,
    {
        assert(all.take(i + 1).drop_last() =~= all.take(i as int));
        assert(all[i as int] == lines@[i as int]@);
        let line = text::trim(&lines[i]);
        if !line.as_str().is_empty() {
            let ghost before = out@;
            let ghost lv = line@;
            out.push(line);
            assert(text::texts(out@) =~= text::texts(before).push(lv));
        }
        i = i + 1;
    }
    assert(all.take(all.len() as int) =~= all);
    out
}

/// The script that prints the entries of an array of the build recipe.
pub fn array_script(pkgbuild: &str, var: &str) -> (r: String)
    ensures
        r@ == "source \""@ + pkgbuild@ + "\" >/dev/null 2>&1 && printf '%s\\n' \"${"@ + var@
            + "[@]}\""@,
{
    text::join5(
        "source \"",
        pkgbuild,
        "\" >/dev/null 2>&1 && printf '%s\\n' \"${",
        var,
        "[@]}\"",
    )
}

/// The script that prints a variable of the build recipe.
pub fn variable_script(var: &str) -> (r: String)
    ensures
        r@ == "source ./PKGBUILD >/dev/null 2>&1 && printf '%s' \"${"@ + var@ + "}\""@,
{
    text::join3("source ./PKGBUILD >/dev/null 2>&1 && printf '%s' \"${", var, "}\"")
}

/// The script that tells whether the build recipe has a function.
pub fn function_exists_script(pkgbuild: &str, func: &str) -> (r: String)
    ensures
        r@ == "source \""@ + pkgbuild@ + "\" >/dev/null 2>&1 && type -t \""@ + func@
            + "\" >/dev/null 2>&1"@,
{
    text::join5(
        "source \"",
        pkgbuild,
        "\" >/dev/null 2>&1 && type -t \"",
        func,
        "\" >/dev/null 2>&1",
    )
}

/// The script that prints the functions of the build recipe that belong to a phase.
pub fn list_functions_script(pkgbuild: &str, phase: &str) -> (r: String)
    ensures
        r@ == "source \""@ + pkgbuild@
            + "\" >/dev/null 2>&1 && declare -F | awk '{print $3}' | grep -E '^"@ + phase@
            + "_+' | sort -u"@,
{
    text::join5(
        "source \"",
        pkgbuild,
        "\" >/dev/null 2>&1 && declare -F | awk '{print $3}' | grep -E '^",
        phase,
        "_+' | sort -u",
    )
}

/// The script that runs a function of the build recipe, with the directories
/// that it works in.
pub open spec fn run_script(
    func: Seq<char>,
    pkgbuild: Seq<char>,
    srcdir: Seq<char>,
    pkgdir: Seq<char>,
    pkgdest: Seq<char>,
) -> Seq<char> {
    "PKGDEST=\""@ + pkgdest + "\" SRCDEST=\""@ + srcdir + "\" srcdir=\""@ + srcdir
        + "\" pkgdir=\""@ + pkgdir + "\"; export PKGDEST SRCDEST srcdir pkgdir; source \""@
        + pkgbuild + "\" >/dev/null 2>&1 && set -e && "@ + func
}

/// The script that runs a function of the build recipe, and whether it runs
/// as if by the superuser: what makes up the package does.
pub fn run_pkg_function(
    func: &str,
    pkgbuild: &str,
    srcdir: &str,
    pkgdir: &str,
    pkgdest: &str,
) -> (r: (String, bool))
    ensures
        r.0@ == run_script(func@, pkgbuild@, srcdir@, pkgdir@, pkgdest@),
        r.1 == text::has_prefix(func@, "package"@),
{
    let head = text::join5(
        &text::join5("PKGDEST=\"", pkgdest, "\" SRCDEST=\"", srcdir, "\" srcdir=\""),
        srcdir,
        "\" pkgdir=\"",
        pkgdir,
        "\"; export PKGDEST SRCDEST srcdir pkgdir; source \"",
    );
    (
        text::join4(&head, pkgbuild, "\" >/dev/null 2>&1 && set -e && ", func),
        text::starts_with(func, "package"),
    )
}

/// The functions that a phase runs: its own, if there is one, then those that
/// belong to it.
pub open spec fn phase_functions(
    phase: Seq<char>,
    exists_own: bool,
    others: Seq<Seq<char>>,
) -> Seq<Seq<char>> {
    if exists_own {
        seq![phase] + others
    } else {
        others
    }
}

/// The functions that a phase runs.
pub fn run_pkg_phase(phase: &str, exists_own: bool, others: &Vec<String>) -> (r: Vec<String>)
    ensures
        text::texts(r@) == phase_functions(phase@, exists_own, text::texts(others@)),
{
    let mut out: Vec<String> = Vec::new();
    if exists_own {
        out.push(phase.to_owned());
    }
    let ghost start = out@;
    let mut more = text::copy_all(others);
    let ghost added = more@;
    out.append(&mut more);
    assert(text::texts(out@) =~= text::texts(start) + text::texts(added));
    assert(text::texts(out@) =~= phase_functions(phase@, exists_own, text::texts(others@)));
    out
}

/// The size that `du` has printed; zero if it is none.
pub fn printed_size(output: &str) -> (r: u64)
    ensures
        r == (match text::number_of(text::trimmed(output@)) {
            Some(n) => n,
            None => 0,
        }),
{
    match text::parse_number(&text::trim(output)) {
        Some(n) => n,
        None => 0,
    }
}

// ---------------------------------------------------------------------------
// Dependencies

/// A list without what occurs again.
pub open spec fn firsts(list: Seq<Seq<char>>) -> Seq<Seq<char>>
    decreases list.len(),
{
    if list.len() == 0 {
        seq![]
    } else {
        let rest = firsts(list.drop_last());
        if rest.contains(list.last()) {
            rest
        } else {
            rest.push(list.last())
        }
    }
}

/// The build dependencies to install, each once, in the order in which they
/// are listed first.
pub fn resolve_and_install_deps(deps: &Vec<String>) -> (r: Vec<String>)
    ensures
        text::texts(r@) == firsts(text::texts(deps@)),
{
    let ghost all = text::texts(deps@);
    let mut out: Vec<String> = Vec::new();
    let mut i: usize = 0;
    assert(text::texts(out@) =~= firsts(all.take(0)));
    while i < deps.len()
        invariant
            i <= deps@.len(),
            all == text::texts(deps@),
            text::texts(out@) == firsts(all.take(i as int)),
        decreases deps@.len() - i,
    {
        assert(all.take(i + 1).drop_last() =~= all.take(i as int));
        assert(all[i as int] == deps@[i as int]@);
        if !text::list_contains(&out, &deps[i]) {
            let ghost before = out@;
            out.push(text::copy(&deps[i]));
            assert(text::texts(out@) =~= text::texts(before).push(all[i as int]));
        }
        i = i + 1;
    }
    assert(all.take(all.len() as int) =~= all);
    out
}

/// The command that runs the package manager: with `sudo` unless the
/// superuser runs it.
pub fn run_lkpm(euid: u32, args: &Vec<String>) -> (r: Vec<String>)
    ensures
        text::texts(r@) == (if euid == 0 {
            seq!["lkpm"@] + text::texts(args@)
        } else {
            seq!["sudo"@, "lkpm"@] + text::texts(args@)
        }),
{
    let mut out: Vec<String> = Vec::new();
    if euid != 0 {
        out.push("sudo".to_owned());
    }
    out.push("lkpm".to_owned());
    let ghost start = out@;
    let mut more = text::copy_all(args);
    let ghost added = more@;
    out.append(&mut more);
    assert(text::texts(out@) =~= text::texts(start) + text::texts(added));
    assert(text::texts(start) =~= if euid == 0 {
        seq!["lkpm"@]
    } else {
        seq!["sudo"@, "lkpm"@]
    });
    out
}

// ---------------------------------------------------------------------------
// Sources

/// Where a source is downloaded to.
pub fn source_path(srcdir: &str, source: &str) -> (r: String)
    ensures
        r@ == srcdir@ + "/"@ + text::last_piece(source@, '/'),
{
    text::join3(srcdir, "/", &text::last_part(source, '/'))
}

/// The checksum that `sha256sum` has printed: its first word.
pub fn printed_checksum(output: &str) -> (r: String)
    ensures
        r@ == (if text::words_of(output@).len() > 0 {
            text::words_of(output@)[0]
        } else {
            seq![]
        }),
{
    let words = text::words(output);
    assert(text::texts(words@).len() == words@.len());
    if words.len() > 0 {
        assert(text::texts(words@)[0] == words@[0]@);
        text::copy(&words[0])
    } else {
        let r = String::new();
        assert(r@ =~= seq![]);
        r
    }
}

/// What an entry of the checksums says: the file and its checksum. An entry
/// that says to skip, or nothing, says neither; one without a file is invalid.
pub enum ChecksumEntry {
    Nothing,
    Invalid(String),
    Expect(String, String),
}

/// What an entry says, with its texts taken as sequences of characters.
pub enum ChecksumView {
    Nothing,
    Invalid(Seq<char>),
    Expect(Seq<char>, Seq<char>),
}

impl View for ChecksumEntry {
    type V = ChecksumView;

    open spec fn view(&self) -> ChecksumView {
        match self {
            ChecksumEntry::Nothing => ChecksumView::Nothing,
            ChecksumEntry::Invalid(e) => ChecksumView::Invalid(e@),
            ChecksumEntry::Expect(f, c) => ChecksumView::Expect(f@, c@),
        }
    }
}

/// What an entry of the checksums says.
pub open spec fn checksum_entry(entry: Seq<char>) -> ChecksumView {
    let e = text::trimmed(entry);
    let words = text::words_of(e);
    if e.len() == 0 || e == "SKIP"@ {
        ChecksumView::Nothing
    } else if words.len() >= 2 {
        ChecksumView::Expect(words[1], words[0])
    } else {
        ChecksumView::Invalid(e)
    }
}

/// Reads an entry of the checksums.
pub fn read_checksum_entry(entry: &str) -> (r: ChecksumEntry)
    ensures
        r@ == checksum_entry(entry@),
{
    let e = text::trim(entry);
    if e.as_str().is_empty() || text::same(&e, "SKIP") {
        return ChecksumEntry::Nothing;
    }
    let words = text::words(&e);
    assert(text::texts(words@).len() == words@.len());
    if words.len() >= 2 {
        assert(text::texts(words@)[0] == words@[0]@);
        assert(text::texts(words@)[1] == words@[1]@);
        ChecksumEntry::Expect(text::copy(&words[1]), text::copy(&words[0]))
    } else {
        ChecksumEntry::Invalid(e)
    }
}

/// The files and checksums that a list of entries expects; of two entries for
/// a file the last one counts.
pub open spec fn expected(entries: Seq<Seq<char>>) -> Seq<(Seq<char>, Seq<char>)>
    decreases entries.len(),
{
    if entries.len() == 0 {
        seq![]
    } else {
        let rest = expected(entries.drop_last());
        match checksum_entry(entries.last()) {
            ChecksumView::Expect(file, sum) => database::without_key(rest, file).push((file, sum)),
            _ => rest,
        }
    }
}

/// The entries that are invalid, in order.
pub open spec fn invalid_entries(entries: Seq<Seq<char>>) -> Seq<Seq<char>>
    decreases entries.len(),
{
    if entries.len() == 0 {
        seq![]
    } else {
        let rest = invalid_entries(entries.drop_last());
        match checksum_entry(entries.last()) {
            ChecksumView::Invalid(e) => rest.push(e),
            _ => rest,
        }
    }
}

/// The files and checksums that a list of entries expects, and the entries
/// that are invalid.
pub fn expected_checksums(entries: &Vec<String>) -> (r: (Vec<(String, String)>, Vec<String>))
    ensures
        database::pair_texts(r.0@) == expected(text::texts(entries@)),
        text::texts(r.1@) == invalid_entries(text::texts(entries@)),
{
    let ghost all = text::texts(entries@);
    let mut out: Vec<(String, String)> = Vec::new();
    let mut bad: Vec<String> = Vec::new();
    let mut i: usize = 0;
    assert(database::pair_texts(out@) =~= expected(all.take(0)));
    assert(text::texts(bad@) =~= invalid_entries(all.take(0)));
    while i < entries.len()
        invariant
            i <= entries@.len(),
            all == text::texts(entries@),
            database::pair_texts(out@) == expected(all.take(i as int)),
            text::texts(bad@) == invalid_entries(all.take(i as int)),
        decreases entries@.len() - i,
    {
        assert(all.take(i + 1).drop_last() =~= all.take(i as int));
        assert(all[i as int] == entries@[i as int]@);
        match read_checksum_entry(&entries[i]) {
            ChecksumEntry::Nothing => {},
            ChecksumEntry::Invalid(e) => {
                let ghost before = bad@;
                let ghost ev = e@;
                bad.push(e);
                assert(text::texts(bad@) =~= text::texts(before).push(ev));
            },
            ChecksumEntry::Expect(file, sum) => {
                out = database::drop_key(&out, &file);
                let ghost before = out@;
                let ghost pv = (file@, sum@);
                out.push((file, sum));
                assert(database::pair_texts(out@) =~= database::pair_texts(before).push(pv));
            },
        }
        i = i + 1;
    }
    assert(all.take(all.len() as int) =~= all);
    (out, bad)
}

/// What a source file turned out to be.
pub enum SourceState {
    Missing,
    /// Its checksum could not be computed.
    Unreadable,
    Checksum(String),
}

/// What is wrong with a source file, if anything is.
pub open spec fn source_fault(
    file: Seq<char>,
    expected_sum: Seq<char>,
    state: SourceState,
) -> Option<Seq<char>> {
    match state {
        SourceState::Missing => Some("Expected source file "@ + file + " is missing"@),
        SourceState::Unreadable => Some("Failed to compute sha256 for "@ + file),
        SourceState::Checksum(actual) => if actual@ == expected_sum {
            None
        } else {
            Some(
                "Checksum mismatch for "@ + file + ": expected "@ + expected_sum + " got "@
                    + actual@,
            )
        },
    }
}

/// What is wrong with a source file, if anything is. A build goes on only if
/// nothing is wrong with any.
pub fn check_source(file: &str, expected_sum: &str, state: &SourceState) -> (r: Option<String>)
    ensures
        match r {
            Some(m) => source_fault(file@, expected_sum@, *state) == Some(m@),
            None => source_fault(file@, expected_sum@, *state) is None,
        },
{
    match state {
        SourceState::Missing => Some(
            text::join3("Expected source file ", file, " is missing"),
        ),
        SourceState::Unreadable => Some(text::join2("Failed to compute sha256 for ", file)),
        SourceState::Checksum(actual) => if text::same(actual, expected_sum) {
            None
        } else {
            Some(
                text::join2(
                    &text::join5(
                        "Checksum mismatch for ",
                        file,
                        ": expected ",
                        expected_sum,
                        " got ",
                    ),
                    actual,
                ),
            )
        },
    }
}

/// The faults of source files, in order.
pub open spec fn source_faults(
    expected: Seq<(Seq<char>, Seq<char>)>,
    states: Seq<SourceState>,
    n: nat,
) -> Seq<Seq<char>>
    decreases n,
{
    if n == 0 {
        seq![]
    } else {
        let rest = source_faults(expected, states, (n - 1) as nat);
        match source_fault(expected[n - 1].0, expected[n - 1].1, states[n - 1]) {
            Some(m) => rest.push(m),
            None => rest,
        }
    }
}

/// What is wrong with the source files. The build goes on only if nothing is.
pub fn check_integrity(expected: &Vec<(String, String)>, states: &Vec<SourceState>) -> (r: Vec<String>)
    requires
        expected@.len() == states@.len(),
    ensures
        text::texts(r@) == source_faults(
            database::pair_texts(expected@),
            states@,
            expected@.len(),
        ),
{
    let ghost all = database::pair_texts(expected@);
    let mut out: Vec<String> = Vec::new();
    let mut i: usize = 0;
    assert(text::texts(out@) =~= source_faults(all, states@, 0));
    while i < expected.len()
        invariant
            i <= expected@.len(),
            expected@.len() == states@.len(),
            all == database::pair_texts(expected@),
            text::texts(out@) == source_faults(all, states@, i as nat),
        decreases expected@.len() - i,
    {
        assert(all[i as int] == (expected@[i as int].0@, expected@[i as int].1@));
        if let Some(m) = check_source(&expected[i].0, &expected[i].1, &states[i]) {
            let ghost before = out@;
            let ghost mv = m@;
            out.push(m);
            assert(text::texts(out@) =~= text::texts(before).push(mv));
        }
        i = i + 1;
    }
    out
}

// ---------------------------------------------------------------------------
// What a recipe asks for

/// Every line that says something is an entry, in order and without the space
/// around it.
pub proof fn every_printed_line_counts(a: Seq<Seq<char>>, b: Seq<Seq<char>>)
    ensures
        entries(a + b) == entries(a) + entries(b),
        b.len() == 1 ==> entries(b) == (if text::trimmed(b[0]).len() > 0 {
            seq![text::trimmed(b[0])]
        } else {
            seq![]
        }),
    decreases b.len(),
{
    if b.len() == 0 {
        assert(a + b =~= a);
        assert(entries(a) + entries(b) =~= entries(a));
    } else {
        every_printed_line_counts(a, b.drop_last());
        assert((a + b).drop_last() =~= a + b.drop_last());
        assert((a + b).last() == b.last());
        assert(entries(a + b) =~= entries(a) + entries(b));
        if b.len() == 1 {
            assert(b.drop_last() =~= seq![]);
            assert(entries(b.drop_last()) =~= seq![]);
            assert(entries(b) =~= (if text::trimmed(b[0]).len() > 0 {
                seq![text::trimmed(b[0])]
            } else {
                seq![]
            }));
        }
    }
}

/// Each dependency is asked for once, and none is left out.
pub proof fn each_dependency_once(list: Seq<Seq<char>>, x: Seq<char>)
    ensures
        firsts(list).contains(x) <==> list.contains(x),
        firsts(list).no_duplicates(),
    decreases list.len(),
{
    if list.len() > 0 {
        let init = list.drop_last();
        let rest = firsts(init);
        let all = firsts(list);
        each_dependency_once(init, x);
        each_dependency_once(init, list.last());
        assert(list[list.len() - 1] == list.last());
        if rest.contains(x) {
            let k = choose|k: int| 0 <= k < rest.len() && rest[k] == x;
            assert(all[k] == x);
            let i = choose|i: int| 0 <= i < init.len() && init[i] == x;
            assert(list[i] == x);
        }
        if !rest.contains(list.last()) {
            assert(all[rest.len() as int] == list.last());
        }
        if all.contains(x) {
            let k = choose|k: int| 0 <= k < all.len() && all[k] == x;
            if k < rest.len() {
                assert(rest[k] == x);
            }
        }
        if list.contains(x) {
            let i = choose|i: int| 0 <= i < list.len() && list[i] == x;
            if i < init.len() {
                assert(init[i] == x);
            }
        }
    }
}

/// The first of two dependencies is asked for first.
pub proof fn dependencies_keep_their_order(a: Seq<Seq<char>>, b: Seq<Seq<char>>, k: int)
    ensures
        firsts(a).len() <= firsts(a + b).len(),
        0 <= k < firsts(a).len() ==> firsts(a + b)[k] == firsts(a)[k],
    decreases b.len(),
{
    if b.len() == 0 {
        assert(a + b =~= a);
    } else {
        dependencies_keep_their_order(a, b.drop_last(), k);
        assert((a + b).drop_last() =~= a + b.drop_last());
    }
}

/// The function of a phase comes first, where the recipe has it, and then its
/// parts, each by itself and in order.
pub proof fn every_part_of_a_phase_is_run(
    phase: Seq<char>,
    exists_own: bool,
    others: Seq<Seq<char>>,
    k: int,
)
    ensures
        ({
            let all = phase_functions(phase, exists_own, others);
            &&& exists_own ==> all.len() == 1 + others.len() && all[0] == phase
            &&& exists_own && 0 <= k < others.len() ==> all[1 + k] == others[k]
            &&& !exists_own ==> all == others
        }),
{
}

/// An entry names a checksum and then its file; an empty one, and one that is
/// to be skipped, expects nothing.
pub proof fn checksum_entries_are_read(sum: Seq<char>, file: Seq<char>)
    requires
        sum.len() > 0,
        file.len() > 0,
        forall|i: int| 0 <= i < sum.len() ==> !text::is_space(#[trigger] sum[i]),
        forall|i: int| 0 <= i < file.len() ==> !text::is_space(#[trigger] file[i]),
    ensures
        checksum_entry(sum.push(' ') + file) == ChecksumView::Expect(file, sum),
        checksum_entry(seq![]) is Nothing,
        checksum_entry("SKIP"@) is Nothing,
        sum != "SKIP"@ ==> checksum_entry(sum) == ChecksumView::Invalid(sum),
{
    reveal_strlit("SKIP");
    let none = Seq::<char>::empty();
    let e = sum.push(' ') + file;
    assert(!text::is_space(sum[0]));
    assert(!text::is_space(sum[sum.len() - 1]));
    assert(!text::is_space(file[file.len() - 1]));
    assert(e[0] == sum[0]);
    assert(e.last() == file.last());
    text::space_around_is_trimmed(none, e, none);
    assert(none + e + none =~= e);
    text::space_around_is_trimmed(none, sum, none);
    assert(none + sum + none =~= sum);
    text::space_around_is_trimmed(none, "SKIP"@, none);
    assert(none + "SKIP"@ + none =~= "SKIP"@);
    text::space_parts_words(sum, ' ', file);
    text::space_parts_words(file, ' ', none);
    assert(text::words_of(e) =~= seq![sum, file]);
    assert(e[sum.len() as int] == ' ');
    if e == "SKIP"@ {
        assert("SKIP"@[sum.len() as int] == ' ');
    }
}

/// A source is sound exactly if it is there and has the checksum that is
/// expected of it.
pub proof fn only_matching_sources_are_sound(
    file: Seq<char>,
    expected_sum: Seq<char>,
    state: SourceState,
)
    ensures
        source_fault(file, expected_sum, state) is None <==> (state matches SourceState::Checksum(
            actual,
        ) && actual@ == expected_sum),
{
}

/// Sources are found sound exactly if each of them is.
pub proof fn every_source_is_checked(
    expected: Seq<(Seq<char>, Seq<char>)>,
    states: Seq<SourceState>,
    n: nat,
)
    requires
        n <= expected.len(),
        expected.len() == states.len(),
    ensures
        source_faults(expected, states, n).len() == 0 <==> forall|i: int|
            0 <= i < n ==> (#[trigger] states[i] matches SourceState::Checksum(actual) && actual@
                == expected[i].1),
    decreases n,
{
    if n > 0 {
        every_source_is_checked(expected, states, (n - 1) as nat);
        only_matching_sources_are_sound(expected[n - 1].0, expected[n - 1].1, states[n - 1]);
    }
}

/// A file is held to the last checksum that is given for it.
pub proof fn last_expectation_counts(
    entries: Seq<Seq<char>>,
    i: int,
    file: Seq<char>,
    sum: Seq<char>,
)
    requires
        0 <= i < entries.len(),
        checksum_entry(entries[i]) == ChecksumView::Expect(file, sum),
        forall|k: int|
            i < k < entries.len() ==> !(checksum_entry(#[trigger] entries[k]) matches
                ChecksumView::Expect(f, _) && f == file),
    ensures
        database::lookup(expected(entries), file) == Some(sum),
    decreases entries.len(),
{
    let init = entries.drop_last();
    let n = entries.len() - 1;
    if i < n {
        assert(init[i] == entries[i]);
        assert forall|k: int| i < k < init.len() implies !(checksum_entry(
            #[trigger] init[k],
        ) matches ChecksumView::Expect(f, _) && f == file) by {
            assert(init[k] == entries[k]);
        }
        last_expectation_counts(init, i, file, sum);
        let last = checksum_entry(entries[n]);
        if let ChecksumView::Expect(f, s) = last {
            assert(f != file);
            database::index_after_store(expected(init), f, s, file);
        }
    } else if let ChecksumView::Expect(f, s) = checksum_entry(entries.last()) {
        database::index_after_store(expected(init), f, s, file);
    }
}

/// Every entry that is not understood is told, in order.
pub proof fn every_invalid_entry_is_told(a: Seq<Seq<char>>, b: Seq<Seq<char>>)
    ensures
        invalid_entries(a + b) == invalid_entries(a) + invalid_entries(b),
        b.len() == 1 ==> invalid_entries(b) == (match checksum_entry(b[0]) {
            ChecksumView::Invalid(e) => seq![e],
            _ => seq![],
        }),
    decreases b.len(),
{
    if b.len() == 0 {
        assert(a + b =~= a);
        assert(invalid_entries(a) + invalid_entries(b) =~= invalid_entries(a));
    } else {
        every_invalid_entry_is_told(a, b.drop_last());
        assert((a + b).drop_last() =~= a + b.drop_last());
        assert((a + b).last() == b.last());
        assert(invalid_entries(a + b) =~= invalid_entries(a) + invalid_entries(b));
        if b.len() == 1 {
            assert(b.drop_last() =~= seq![]);
            assert(invalid_entries(b.drop_last()) =~= seq![]);
            assert(invalid_entries(b) =~= (match checksum_entry(b[0]) {
                ChecksumView::Invalid(e) => seq![e],
                _ => seq![],
            }));
        }
    }
}

} // verus!
