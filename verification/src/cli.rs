//! The command line of the package manager.
use vstd::prelude::*;

use crate::text;

verus! {

/// What the package manager is asked to do.
#[derive(Debug)]
pub enum Command {
    Install {
        packages: Vec<String>,
        install_deps: bool,
        local: bool,
        noconfirm: bool,
        root: Option<String>,
    },
    Update { packages: Vec<String>, noconfirm: bool, root: Option<String> },
    Delete { packages: Vec<String>, noconfirm: bool, root: Option<String> },
    Refresh { root: Option<String> },
    UpdateRefresh { packages: Vec<String>, noconfirm: bool, root: Option<String> },
    Package { package: String, root: Option<String> },
    Help,
}

/// A command with its texts taken as sequences of characters.
pub enum CommandView {
    Install {
        packages: Seq<Seq<char>>,
        install_deps: bool,
        local: bool,
        noconfirm: bool,
        root: Option<Seq<char>>,
    },
    Update { packages: Seq<Seq<char>>, noconfirm: bool, root: Option<Seq<char>> },
    Delete { packages: Seq<Seq<char>>, noconfirm: bool, root: Option<Seq<char>> },
    Refresh { root: Option<Seq<char>> },
    UpdateRefresh { packages: Seq<Seq<char>>, noconfirm: bool, root: Option<Seq<char>> },
    Package { package: Seq<char>, root: Option<Seq<char>> },
    Help,
}

/// The text of an optional string.
pub open spec fn opt_text(o: Option<String>) -> Option<Seq<char>> {
    match o {
        Some(s) => Some(s@),
        None => None,
    }
}

impl View for Command {
    type V = CommandView;

    open spec fn view(&self) -> CommandView {
        match self {
            Command::Install { packages, install_deps, local, noconfirm, root } => {
                CommandView::Install {
                    packages: text::texts(packages@),
                    install_deps: *install_deps,
                    local: *local,
                    noconfirm: *noconfirm,
                    root: opt_text(*root),
                }
            },
            Command::Update { packages, noconfirm, root } => CommandView::Update {
                packages: text::texts(packages@),
                noconfirm: *noconfirm,
                root: opt_text(*root),
            },
            Command::Delete { packages, noconfirm, root } => CommandView::Delete {
                packages: text::texts(packages@),
                noconfirm: *noconfirm,
                root: opt_text(*root),
            },
            Command::Refresh { root } => CommandView::Refresh { root: opt_text(*root) },
            Command::UpdateRefresh { packages, noconfirm, root } => CommandView::UpdateRefresh {
                packages: text::texts(packages@),
                noconfirm: *noconfirm,
                root: opt_text(*root),
            },
            Command::Package { package, root } => CommandView::Package {
                package: package@,
                root: opt_text(*root),
            },
            Command::Help => CommandView::Help,
        }
    }
}

/// What a run of arguments holds besides options that may stand anywhere.
pub struct Scan {
    pub rest: Seq<Seq<char>>,
    pub noconfirm: bool,
    pub root: Option<Seq<char>>,
}

/// Takes the options that may stand anywhere out of a run of arguments. A
/// root that is given more than once counts as it is given last.
pub open spec fn scan(args: Seq<Seq<char>>, so_far: Scan) -> Result<Scan, Seq<char>>
    decreases args.len(),
{
    if args.len() == 0 {
        Ok(so_far)
    } else if args[0] == "--noconfirm"@ {
        scan(args.skip(1), Scan { noconfirm: true, ..so_far })
    } else if text::has_prefix(args[0], "--root="@) {
        let value = args[0].skip("--root="@.len() as int);
        if value.len() == 0 {
            Err("--root argument requires a path!"@)
        } else {
            scan(args.skip(1), Scan { root: Some(value), ..so_far })
        }
    } else if args[0] == "--root"@ {
        if args.len() < 2 {
            Err("--root argument requires a path!"@)
        } else {
            scan(args.skip(2), Scan { root: Some(args[1]), ..so_far })
        }
    } else {
        scan(args.skip(1), Scan { rest: so_far.rest.push(args[0]), ..so_far })
    }
}

/// Nothing seen yet.
pub open spec fn nothing_scanned() -> Scan {
    Scan { rest: seq![], noconfirm: false, root: None }
}

/// The installation that an option asks for, or the message if no package is named.
pub open spec fn install_request(
    s: Scan,
    install_deps: bool,
    local: bool,
    message: Seq<char>,
) -> Result<CommandView, Seq<char>> {
    if s.rest.len() < 2 {
        Err(message)
    } else {
        Ok(
            CommandView::Install {
                packages: s.rest.skip(1),
                install_deps,
                local,
                noconfirm: s.noconfirm,
                root: s.root,
            },
        )
    }
}

/// The command that the arguments besides the options ask for.
pub open spec fn requested(s: Scan) -> Result<CommandView, Seq<char>> {
    if s.rest.len() == 0 {
        Ok(CommandView::Help)
    } else if s.rest[0] == "-i"@ {
        install_request(s, false, false, "-i argument requires at least one package!"@)
    } else if s.rest[0] == "-id"@ || s.rest[0] == "-di"@ {
        install_request(s, true, false, "-id or -di argument requires at least one package!"@)
    } else if s.rest[0] == "-l"@ {
        install_request(s, false, true, "-l argument requires at least one local package file!"@)
    } else if s.rest[0] == "-ld"@ || s.rest[0] == "-dl"@ {
        install_request(
            s,
            true,
            true,
            "-ld or -dl argument requires at least one local package file!"@,
        )
    } else if s.rest[0] == "-u"@ {
        Ok(
            CommandView::Update {
                packages: s.rest.skip(1),
                noconfirm: s.noconfirm,
                root: s.root,
            },
        )
    } else if s.rest[0] == "-d"@ {
        if s.rest.len() < 2 {
            Err("-d argument requires at least one package!"@)
        } else {
            Ok(
                CommandView::Delete {
                    packages: s.rest.skip(1),
                    noconfirm: s.noconfirm,
                    root: s.root,
                },
            )
        }
    } else if s.rest[0] == "-r"@ {
        Ok(CommandView::Refresh { root: s.root })
    } else if s.rest[0] == "-ru"@ || s.rest[0] == "-ur"@ {
        Ok(
            CommandView::UpdateRefresh {
                packages: s.rest.skip(1),
                noconfirm: s.noconfirm,
                root: s.root,
            },
        )
    } else if s.rest[0] == "-p"@ {
        if s.rest.len() != 2 {
            Err("-p argument requires a package!"@)
        } else {
            Ok(CommandView::Package { package: s.rest[1], root: s.root })
        }
    } else if s.rest[0] == "--help"@ {
        Ok(CommandView::Help)
    } else {
        Err("Unknown option "@ + s.rest[0])
    }
}

/// The command that a run of arguments asks for.
pub open spec fn parsed(args: Seq<Seq<char>>) -> Result<CommandView, Seq<char>> {
    match scan(args, nothing_scanned()) {
        Ok(s) => requested(s),
        Err(m) => Err(m),
    }
}

/// Copies a list of strings without its first one.
fn tail(v: &Vec<String>) -> (r: Vec<String>)
    requires
        v@.len() > 0,
    ensures
        text::texts(r@) == text::texts(v@).skip(1),
{
    let mut out = text::copy_all(v);
    assert(text::texts(out@).len() == v@.len());
    let ghost all = text::texts(out@);
    let first = out.remove(0);
    assert(text::texts(out@) =~= all.skip(1));
    out
}

fn install(
    filtered: &Vec<String>,
    install_deps: bool,
    local: bool,
    noconfirm: bool,
    root: Option<String>,
    message: &str,
) -> (r: Result<Command, String>)
    requires
        filtered@.len() > 0,
    ensures
        (match r {
            Ok(c) => Ok(c@),
            Err(m) => Err(m@),
        }) == install_request(
            Scan { rest: text::texts(filtered@), noconfirm, root: opt_text(root) },
            install_deps,
            local,
            message@,
        ),
{
    if filtered.len() < 2 {
        return Err(message.to_owned());
    }
    Ok(Command::Install { packages: tail(filtered), install_deps, local, noconfirm, root })
}

/// Reads the arguments that stand after the name of the program.
pub fn parse_args(args: Vec<String>) -> (r: Result<Command, String>)
    ensures
        (match r {
            Ok(c) => Ok(c@),
            Err(m) => Err(m@),
        }) == parsed(text::texts(args@)),
{
    let mut noconfirm = false;
    let mut root: Option<String> = None;
    let mut filtered: Vec<String> = Vec::new();
    let mut i: usize = 0;
    let ghost all = text::texts(args@);
    assert(all.skip(0) =~= all);
    assert(text::texts(filtered@) =~= nothing_scanned().rest);
    let n: usize = args.len();
    while i < n
        invariant
            i <= n,
            n == args@.len(),
            all == text::texts(args@),
            scan(all, nothing_scanned()) == scan(
                all.skip(i as int),
                Scan { rest: text::texts(filtered@), noconfirm, root: opt_text(root) },
            ),
        decreases n - i,
    {
        let ghost left = all.skip(i as int);
        let arg = &args[i];
        assert(left[0] == arg@);
        assert(left.skip(1) =~= all.skip(i + 1));
        if text::same(arg, "--noconfirm") {
            noconfirm = true;
        } else if let Some(value) = text::strip_prefix(arg, "--root=") {
            if value.as_str().is_empty() {
                return Err("--root argument requires a path!".to_owned());
            }
            root = Some(value);
        } else if text::same(arg, "--root") {
            if i + 1 >= n {
                return Err("--root argument requires a path!".to_owned());
            }
            assert(left[1] == args@[i + 1]@);
            assert(left.skip(2) =~= all.skip(i + 2));
            root = Some(text::copy(&args[i + 1]));
            i = i + 1;
        } else {
            let ghost before = filtered@;
            filtered.push(text::copy(arg));
            assert(text::texts(filtered@) =~= text::texts(before).push(arg@));
        }
        i = i + 1;
    }
    assert(all.skip(n as int).len() == 0);
    if filtered.len() == 0 {
        return Ok(Command::Help);
    }
    let first = text::copy(&filtered[0]);
    assert(text::texts(filtered@)[0] == first@);
    if text::same(&first, "-i") {
        install(
            &filtered,
            false,
            false,
            noconfirm,
            root,
            "-i argument requires at least one package!",
        )
    } else if text::same(&first, "-id") || text::same(&first, "-di") {
        install(
            &filtered,
            true,
            false,
            noconfirm,
            root,
            "-id or -di argument requires at least one package!",
        )
    } else if text::same(&first, "-l") {
        install(
            &filtered,
            false,
            true,
            noconfirm,
            root,
            "-l argument requires at least one local package file!",
        )
    } else if text::same(&first, "-ld") || text::same(&first, "-dl") {
        install(
            &filtered,
            true,
            true,
            noconfirm,
            root,
            "-ld or -dl argument requires at least one local package file!",
        )
    } else if text::same(&first, "-u") {
        Ok(Command::Update { packages: tail(&filtered), noconfirm, root })
    } else if text::same(&first, "-d") {
        if filtered.len() < 2 {
            return Err("-d argument requires at least one package!".to_owned());
        }
        Ok(Command::Delete { packages: tail(&filtered), noconfirm, root })
    } else if text::same(&first, "-r") {
        Ok(Command::Refresh { root })
    } else if text::same(&first, "-ru") || text::same(&first, "-ur") {
        Ok(Command::UpdateRefresh { packages: tail(&filtered), noconfirm, root })
    } else if text::same(&first, "-p") {
        if filtered.len() != 2 {
            return Err("-p argument requires a package!".to_owned());
        }
        assert(text::texts(filtered@)[1] == filtered@[1]@);
        Ok(Command::Package { package: text::copy(&filtered[1]), root })
    } else if text::same(&first, "--help") {
        Ok(Command::Help)
    } else {
        Err(text::join2("Unknown option ", &first))
    }
}

/// The root directory that a command is to work under, if it names one.
pub open spec fn root_of(c: CommandView) -> Option<Seq<char>> {
    match c {
        CommandView::Install { root, .. } => root,
        CommandView::Update { root, .. } => root,
        CommandView::Delete { root, .. } => root,
        CommandView::Refresh { root } => root,
        CommandView::UpdateRefresh { root, .. } => root,
        CommandView::Package { root, .. } => root,
        CommandView::Help => None,
    }
}

/// The packages that a command names.
pub open spec fn packages_of(c: CommandView) -> Seq<Seq<char>> {
    match c {
        CommandView::Install { packages, .. } => packages,
        CommandView::Update { packages, .. } => packages,
        CommandView::Delete { packages, .. } => packages,
        CommandView::UpdateRefresh { packages, .. } => packages,
        CommandView::Package { package, .. } => seq![package],
        _ => seq![],
    }
}

/// Whether a command goes on without asking.
pub open spec fn noconfirm_of(c: CommandView) -> bool {
    match c {
        CommandView::Install { noconfirm, .. } => noconfirm,
        CommandView::Update { noconfirm, .. } => noconfirm,
        CommandView::Delete { noconfirm, .. } => noconfirm,
        CommandView::UpdateRefresh { noconfirm, .. } => noconfirm,
        _ => false,
    }
}

/// Copies an optional string.
pub fn copy_opt(o: &Option<String>) -> (r: Option<String>)
    ensures
        opt_text(r) == opt_text(*o),
{
    match o {
        Some(s) => Some(s.clone()),
        None => None,
    }
}

impl Command {
    /// The root directory that the command is to work under, if it names one.
    pub fn root(&self) -> (r: Option<String>)
        ensures
            opt_text(r) == root_of(self@),
    {
        match self {
            Command::Install { root, .. } => copy_opt(root),
            Command::Update { root, .. } => copy_opt(root),
            Command::Delete { root, .. } => copy_opt(root),
            Command::Refresh { root } => copy_opt(root),
            Command::UpdateRefresh { root, .. } => copy_opt(root),
            Command::Package { root, .. } => copy_opt(root),
            Command::Help => None,
        }
    }

    /// The packages that the command names.
    pub fn packages(&self) -> (r: Vec<String>)
        ensures
            text::texts(r@) == packages_of(self@),
    {
        let r = match self {
            Command::Install { packages, .. } => text::copy_all(packages),
            Command::Update { packages, .. } => text::copy_all(packages),
            Command::Delete { packages, .. } => text::copy_all(packages),
            Command::UpdateRefresh { packages, .. } => text::copy_all(packages),
            Command::Package { package, .. } => vec![text::copy(package)],
            _ => Vec::new(),
        };
        assert(text::texts(r@) =~= packages_of(self@));
        r
    }

    /// Whether the command goes on without asking.
    pub fn noconfirm(&self) -> (r: bool)
        ensures
            r == noconfirm_of(self@),
    {
        match self {
            Command::Install { noconfirm, .. } => *noconfirm,
            Command::Update { noconfirm, .. } => *noconfirm,
            Command::Delete { noconfirm, .. } => *noconfirm,
            Command::UpdateRefresh { noconfirm, .. } => *noconfirm,
            _ => false,
        }
    }
}

/// Scanning a run of arguments is scanning its first part, and the rest from there.
proof fn scan_splits(a: Seq<Seq<char>>, b: Seq<Seq<char>>, s: Scan)
    requires
        scan(a, s) is Ok,
    ensures
        scan(a + b, s) == scan(b, scan(a, s)->Ok_0),
    decreases a.len(),
{
    if a.len() == 0 {
        assert(a + b =~= b);
    } else {
        assert((a + b)[0] == a[0]);
        assert((a + b).skip(1) =~= a.skip(1) + b);
        if a[0] == "--noconfirm"@ {
            scan_splits(a.skip(1), b, Scan { noconfirm: true, ..s });
        } else if text::has_prefix(a[0], "--root="@) {
            let value = a[0].skip("--root="@.len() as int);
            scan_splits(a.skip(1), b, Scan { root: Some(value), ..s });
        } else if a[0] == "--root"@ {
            assert((a + b)[1] == a[1]);
            assert((a + b).skip(2) =~= a.skip(2) + b);
            scan_splits(a.skip(2), b, Scan { root: Some(a[1]), ..s });
        } else {
            scan_splits(a.skip(1), b, Scan { rest: s.rest.push(a[0]), ..s });
        }
    }
}

/// What the prompts are to do has no bearing on the other arguments.
proof fn scan_keeps_noconfirm(b: Seq<Seq<char>>, s: Scan)
    ensures
        scan(b, Scan { noconfirm: true, ..s }) == (match scan(b, s) {
            Ok(r) => Ok(Scan { noconfirm: true, ..r }),
            Err(m) => Err(m),
        }),
    decreases b.len(),
{
    let t = Scan { noconfirm: true, ..s };
    if b.len() > 0 {
        if b[0] == "--noconfirm"@ {
            scan_keeps_noconfirm(b.skip(1), Scan { noconfirm: true, ..s });
        } else if text::has_prefix(b[0], "--root="@) {
            let value = b[0].skip("--root="@.len() as int);
            scan_keeps_noconfirm(b.skip(1), Scan { root: Some(value), ..s });
        } else if b[0] == "--root"@ {
            if b.len() >= 2 {
                scan_keeps_noconfirm(b.skip(2), Scan { root: Some(b[1]), ..s });
            }
        } else {
            scan_keeps_noconfirm(b.skip(1), Scan { rest: s.rest.push(b[0]), ..s });
        }
    }
}

/// Whether a run of arguments ends in a `--root` that still waits for its path.
pub open spec fn awaits_path(args: Seq<Seq<char>>) -> bool
    decreases args.len(),
{
    if args.len() == 0 {
        false
    } else if args[0] == "--root"@ {
        args.len() == 1 || awaits_path(args.skip(2))
    } else {
        awaits_path(args.skip(1))
    }
}

/// Arguments that cannot be read stay so whatever follows, unless they only
/// wait for a path.
proof fn scan_fails_early(a: Seq<Seq<char>>, b: Seq<Seq<char>>, s: Scan)
    requires
        !awaits_path(a),
        scan(a, s) is Err,
    ensures
        scan(a + b, s) == scan(a, s),
    decreases a.len(),
{
    reveal_strlit("--root");
    reveal_strlit("--root=");
    reveal_strlit("--noconfirm");
    assert((a + b)[0] == a[0]);
    assert((a + b).skip(1) =~= a.skip(1) + b);
    if a[0] == "--noconfirm"@ {
        assert("--noconfirm"@[2] != "--root"@[2]);
        scan_fails_early(a.skip(1), b, Scan { noconfirm: true, ..s });
    } else if text::has_prefix(a[0], "--root="@) {
        let value = a[0].skip("--root="@.len() as int);
        assert(a[0].len() > "--root"@.len());
        if value.len() > 0 {
            scan_fails_early(a.skip(1), b, Scan { root: Some(value), ..s });
        }
    } else if a[0] == "--root"@ {
        assert((a + b)[1] == a[1]);
        assert((a + b).skip(2) =~= a.skip(2) + b);
        scan_fails_early(a.skip(2), b, Scan { root: Some(a[1]), ..s });
    } else {
        scan_fails_early(a.skip(1), b, Scan { rest: s.rest.push(a[0]), ..s });
    }
}

/// A command that goes on without asking, if it would ask at all.
pub open spec fn unasked(c: CommandView) -> CommandView {
    match c {
        CommandView::Install { packages, install_deps, local, root, .. } => CommandView::Install {
            packages,
            install_deps,
            local,
            noconfirm: true,
            root,
        },
        CommandView::Update { packages, root, .. } => CommandView::Update {
            packages,
            noconfirm: true,
            root,
        },
        CommandView::Delete { packages, root, .. } => CommandView::Delete {
            packages,
            noconfirm: true,
            root,
        },
        CommandView::UpdateRefresh { packages, root, .. } => CommandView::UpdateRefresh {
            packages,
            noconfirm: true,
            root,
        },
        _ => c,
    }
}

/// `--noconfirm` may stand anywhere among the arguments but where a `--root`
/// waits for its path: the command is the one that is asked for without it,
/// and goes on without asking.
pub proof fn noconfirm_anywhere(a: Seq<Seq<char>>, b: Seq<Seq<char>>)
    requires
        !awaits_path(a),
    ensures
        parsed(a + seq!["--noconfirm"@] + b) == (match parsed(a + b) {
            Ok(c) => Ok(unasked(c)),
            Err(m) => Err(m),
        }),
{
    let flag = seq!["--noconfirm"@];
    assert(a + flag + b =~= a + (flag + b));
    if scan(a, nothing_scanned()) is Err {
        scan_fails_early(a, flag + b, nothing_scanned());
        scan_fails_early(a, b, nothing_scanned());
    } else {
        let s = scan(a, nothing_scanned())->Ok_0;
        scan_splits(a, flag + b, nothing_scanned());
        scan_splits(a, b, nothing_scanned());
        assert((flag + b)[0] == "--noconfirm"@);
        assert((flag + b).skip(1) =~= b);
        scan_keeps_noconfirm(b, s);
    }
}

/// A root means the same whether it is given with its option or after it.
pub proof fn root_forms_agree(a: Seq<Seq<char>>, root: Seq<char>, b: Seq<Seq<char>>)
    requires
        !awaits_path(a),
        root.len() > 0,
    ensures
        parsed(a + seq!["--root="@ + root] + b) == parsed(a + seq!["--root"@, root] + b),
{
    reveal_strlit("--root=");
    reveal_strlit("--root");
    reveal_strlit("--noconfirm");
    let one = seq!["--root="@ + root];
    let two = seq!["--root"@, root];
    assert(a + one + b =~= a + (one + b));
    assert(a + two + b =~= a + (two + b));
    if scan(a, nothing_scanned()) is Err {
        scan_fails_early(a, one + b, nothing_scanned());
        scan_fails_early(a, two + b, nothing_scanned());
    } else {
        scan_splits(a, one + b, nothing_scanned());
        scan_splits(a, two + b, nothing_scanned());
    }
    let first = "--root="@ + root;
    assert((one + b)[0] == first);
    assert(first.take("--root="@.len() as int) =~= "--root="@);
    assert(first.skip("--root="@.len() as int) =~= root);
    assert(first[2] == 'r' && "--noconfirm"@[2] == 'n');
    assert((one + b).skip(1) =~= b);
    assert((two + b)[0] == "--root"@);
    assert("--root"@[2] == 'r');
    assert("--root"@.len() < "--root="@.len());
    assert((two + b)[1] == root);
    assert((two + b).skip(2) =~= b);
}

// ---------------------------------------------------------------------------
// What each option asks for

/// Whether an argument is none of those that may stand anywhere.
pub open spec fn is_operand(arg: Seq<char>) -> bool {
    arg != "--noconfirm"@ && arg != "--root"@ && !text::has_prefix(arg, "--root="@)
}

proof fn operands_are_kept(args: Seq<Seq<char>>, s: Scan)
    requires
        forall|i: int| 0 <= i < args.len() ==> is_operand(#[trigger] args[i]),
    ensures
        scan(args, s) == Ok::<Scan, Seq<char>>(Scan { rest: s.rest + args, ..s }),
    decreases args.len(),
{
    if args.len() == 0 {
        assert(s.rest + args =~= s.rest);
    } else {
        assert(is_operand(args[0]));
        let t = Scan { rest: s.rest.push(args[0]), ..s };
        assert forall|i: int| 0 <= i < args.skip(1).len() implies is_operand(
            #[trigger] args.skip(1)[i],
        ) by {
            assert(is_operand(args[i + 1]));
        }
        operands_are_kept(args.skip(1), t);
        assert(t.rest + args.skip(1) =~= s.rest + args);
    }
}

proof fn options_are_spelled()
    ensures
        "-i"@.len() == 2,
        "-i"@[1] == 'i',
        "-id"@.len() == 3,
        "-id"@[1] == 'i',
        "-id"@[2] == 'd',
        "-di"@.len() == 3,
        "-di"@[1] == 'd',
        "-di"@[2] == 'i',
        "-l"@.len() == 2,
        "-l"@[1] == 'l',
        "-ld"@.len() == 3,
        "-ld"@[1] == 'l',
        "-ld"@[2] == 'd',
        "-dl"@.len() == 3,
        "-dl"@[1] == 'd',
        "-dl"@[2] == 'l',
        "-u"@.len() == 2,
        "-u"@[1] == 'u',
        "-d"@.len() == 2,
        "-d"@[1] == 'd',
        "-r"@.len() == 2,
        "-r"@[1] == 'r',
        "-ru"@.len() == 3,
        "-ru"@[1] == 'r',
        "-ru"@[2] == 'u',
        "-ur"@.len() == 3,
        "-ur"@[1] == 'u',
        "-ur"@[2] == 'r',
        "-p"@.len() == 2,
        "-p"@[1] == 'p',
        "--help"@.len() == 6,
        "--help"@[1] == '-',
        "--help"@[2] == 'h',
{
    reveal_strlit("-i");
    reveal_strlit("-id");
    reveal_strlit("-di");
    reveal_strlit("-l");
    reveal_strlit("-ld");
    reveal_strlit("-dl");
    reveal_strlit("-u");
    reveal_strlit("-d");
    reveal_strlit("-r");
    reveal_strlit("-ru");
    reveal_strlit("-ur");
    reveal_strlit("-p");
    reveal_strlit("--help");
}

proof fn options_are_operands()
    ensures
        is_operand("-i"@),
        is_operand("-id"@),
        is_operand("-di"@),
        is_operand("-l"@),
        is_operand("-ld"@),
        is_operand("-dl"@),
        is_operand("-u"@),
        is_operand("-d"@),
        is_operand("-r"@),
        is_operand("-ru"@),
        is_operand("-ur"@),
        is_operand("-p"@),
        is_operand("--help"@),
{
    reveal_strlit("--noconfirm");
    reveal_strlit("--root");
    reveal_strlit("--root=");
    options_are_spelled();
    assert("--root"@[2] == 'r');
    assert("--noconfirm"@.len() == 11);
    assert("--root="@.len() == 7);
}

proof fn first_is_the_option(option: Seq<char>, packages: Seq<Seq<char>>)
    requires
        is_operand(option),
        forall|i: int| 0 <= i < packages.len() ==> is_operand(#[trigger] packages[i]),
    ensures
        parsed(seq![option] + packages) == requested(
            Scan { rest: seq![option] + packages, noconfirm: false, root: None },
        ),
        (seq![option] + packages).skip(1) == packages,
        (seq![option] + packages)[0] == option,
{
    let args = seq![option] + packages;
    assert forall|i: int| 0 <= i < args.len() implies is_operand(#[trigger] args[i]) by {
        if i > 0 {
            assert(args[i] == packages[i - 1]);
        }
    }
    operands_are_kept(args, nothing_scanned());
    assert(Seq::<Seq<char>>::empty() + args =~= args);
    assert(args.skip(1) =~= packages);
}

/// The options that install, with the packages or the files that follow them:
/// with or without dependencies, from the repositories or from files. At least
/// one has to follow.
pub proof fn install_options(packages: Seq<Seq<char>>)
    requires
        forall|i: int| 0 <= i < packages.len() ==> is_operand(#[trigger] packages[i]),
    ensures
        ({
            let some = packages.len() > 0;
            let of = |deps: bool, local: bool|
                CommandView::Install {
                    packages,
                    install_deps: deps,
                    local,
                    noconfirm: false,
                    root: None,
                };
            &&& some ==> parsed(seq!["-i"@] + packages) == Ok::<CommandView, Seq<char>>(
                of(false, false),
            )
            &&& some ==> parsed(seq!["-id"@] + packages) == Ok::<CommandView, Seq<char>>(
                of(true, false),
            )
            &&& some ==> parsed(seq!["-l"@] + packages) == Ok::<CommandView, Seq<char>>(
                of(false, true),
            )
            &&& some ==> parsed(seq!["-ld"@] + packages) == Ok::<CommandView, Seq<char>>(
                of(true, true),
            )
            &&& !some ==> parsed(seq!["-i"@] + packages) is Err
            &&& !some ==> parsed(seq!["-id"@] + packages) is Err
            &&& !some ==> parsed(seq!["-l"@] + packages) is Err
            &&& !some ==> parsed(seq!["-ld"@] + packages) is Err
            &&& parsed(seq!["-di"@] + packages) == parsed(seq!["-id"@] + packages)
            &&& parsed(seq!["-dl"@] + packages) == parsed(seq!["-ld"@] + packages)
        }),
{
    options_are_operands();
    options_are_spelled();
    first_is_the_option("-i"@, packages);
    first_is_the_option("-id"@, packages);
    first_is_the_option("-di"@, packages);
    first_is_the_option("-l"@, packages);
    first_is_the_option("-ld"@, packages);
    first_is_the_option("-dl"@, packages);
}

/// The options that update, delete, refresh and describe, with what may follow
/// them.
pub proof fn other_options(packages: Seq<Seq<char>>)
    requires
        forall|i: int| 0 <= i < packages.len() ==> is_operand(#[trigger] packages[i]),
    ensures
        parsed(seq!["-u"@] + packages) == Ok::<CommandView, Seq<char>>(
            CommandView::Update { packages, noconfirm: false, root: None },
        ),
        packages.len() > 0 ==> parsed(seq!["-d"@] + packages) == Ok::<CommandView, Seq<char>>(
            CommandView::Delete { packages, noconfirm: false, root: None },
        ),
        packages.len() == 0 ==> parsed(seq!["-d"@] + packages) is Err,
        parsed(seq!["-r"@] + packages) == Ok::<CommandView, Seq<char>>(
            CommandView::Refresh { root: None },
        ),
        parsed(seq!["-ru"@] + packages) == Ok::<CommandView, Seq<char>>(
            CommandView::UpdateRefresh { packages, noconfirm: false, root: None },
        ),
        parsed(seq!["-ur"@] + packages) == parsed(seq!["-ru"@] + packages),
        packages.len() == 1 ==> parsed(seq!["-p"@] + packages) == Ok::<CommandView, Seq<char>>(
            CommandView::Package { package: packages[0], root: None },
        ),
        packages.len() != 1 ==> parsed(seq!["-p"@] + packages) is Err,
        parsed(seq!["--help"@] + packages) == Ok::<CommandView, Seq<char>>(CommandView::Help),
        parsed(seq![]) == Ok::<CommandView, Seq<char>>(CommandView::Help),
{
    options_are_operands();
    options_are_spelled();
    first_is_the_option("-u"@, packages);
    first_is_the_option("-d"@, packages);
    first_is_the_option("-r"@, packages);
    first_is_the_option("-ru"@, packages);
    first_is_the_option("-ur"@, packages);
    first_is_the_option("-p"@, packages);
    first_is_the_option("--help"@, packages);
    assert(packages.len() == 1 ==> (seq!["-p"@] + packages)[1] == packages[0]);
}

/// An option that there is not is refused.
pub proof fn unknown_options_are_refused(option: Seq<char>, packages: Seq<Seq<char>>)
    requires
        is_operand(option),
        forall|i: int| 0 <= i < packages.len() ==> is_operand(#[trigger] packages[i]),
        option != "-i"@,
        option != "-id"@,
        option != "-di"@,
        option != "-l"@,
        option != "-ld"@,
        option != "-dl"@,
        option != "-u"@,
        option != "-d"@,
        option != "-r"@,
        option != "-ru"@,
        option != "-ur"@,
        option != "-p"@,
        option != "--help"@,
    ensures
        parsed(seq![option] + packages) is Err,
{
    first_is_the_option(option, packages);
}

/// A root that is given counts for the whole command, whatever it is, and
/// changes nothing else of it; of two, the later one counts.
pub proof fn a_root_counts_for_the_command(
    earlier: Seq<char>,
    root: Seq<char>,
    args: Seq<Seq<char>>,
)
    requires
        forall|i: int| 0 <= i < args.len() ==> is_operand(#[trigger] args[i]),
    ensures
        ({
            let plain = parsed(args);
            let rooted = parsed(seq!["--root"@, root] + args);
            &&& plain is Ok <==> rooted is Ok
            &&& plain is Ok ==> {
                &&& packages_of(rooted->Ok_0) == packages_of(plain->Ok_0)
                &&& noconfirm_of(rooted->Ok_0) == noconfirm_of(plain->Ok_0)
                &&& !(plain->Ok_0 is Help) ==> root_of(rooted->Ok_0) == Some(root)
                &&& root_of(plain->Ok_0) is None
            }
            &&& parsed(seq!["--root"@, earlier, "--root"@, root] + args) == rooted
        }),
{
    reveal_strlit("--noconfirm");
    reveal_strlit("--root");
    reveal_strlit("--root=");
    let all = seq!["--root"@, root] + args;
    let both = seq!["--root"@, earlier, "--root"@, root] + args;
    let none = Seq::<Seq<char>>::empty();
    let with = Scan { root: Some(root), ..nothing_scanned() };
    let first = Scan { root: Some(earlier), ..nothing_scanned() };
    operands_are_kept(args, nothing_scanned());
    operands_are_kept(args, with);
    assert(none + args =~= args);
    assert(all[0] == "--root"@);
    assert(all[1] == root);
    assert(all.skip(2) =~= args);
    assert(both[0] == "--root"@);
    assert(both[1] == earlier);
    assert(both.skip(2) =~= all);
    assert(!text::has_prefix("--root"@, "--root="@));
    assert("--root"@ != "--noconfirm"@);
    assert(scan(all, nothing_scanned()) == scan(args, with));
    assert(scan(all, first) == scan(args, with));
    assert(scan(both, nothing_scanned()) == scan(all, first));
}

/// A root that is announced has to be given.
pub proof fn an_announced_root_is_needed(args: Seq<Seq<char>>, more: Seq<Seq<char>>)
    requires
        forall|i: int| 0 <= i < args.len() ==> is_operand(#[trigger] args[i]),
    ensures
        parsed(args + seq!["--root"@]) is Err,
        parsed(args + seq!["--root="@] + more) is Err,
{
    reveal_strlit("--noconfirm");
    reveal_strlit("--root");
    reveal_strlit("--root=");
    scan_goes_on(args, seq!["--root"@], nothing_scanned());
    scan_goes_on(args, seq!["--root="@] + more, nothing_scanned());
    assert(args + (seq!["--root="@] + more) =~= args + seq!["--root="@] + more);
    assert("--root="@.take("--root="@.len() as int) =~= "--root="@);
}

proof fn scan_goes_on(args: Seq<Seq<char>>, more: Seq<Seq<char>>, s: Scan)
    requires
        forall|i: int| 0 <= i < args.len() ==> is_operand(#[trigger] args[i]),
    ensures
        scan(args + more, s) == scan(more, Scan { rest: s.rest + args, ..s }),
    decreases args.len(),
{
    if args.len() == 0 {
        assert(args + more =~= more);
        assert(s.rest + args =~= s.rest);
    } else {
        let all = args + more;
        assert(is_operand(args[0]));
        assert(all[0] == args[0]);
        assert(all.skip(1) =~= args.skip(1) + more);
        let t = Scan { rest: s.rest.push(args[0]), ..s };
        assert forall|i: int| 0 <= i < args.skip(1).len() implies is_operand(
            #[trigger] args.skip(1)[i],
        ) by {
            assert(is_operand(args[i + 1]));
        }
        scan_goes_on(args.skip(1), more, t);
        assert(t.rest + args.skip(1) =~= s.rest + args);
    }
}

} // verus!
