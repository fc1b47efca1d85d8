//! The functions of install scripts, which run before and after a change.
use vstd::prelude::*;

use crate::cli;
use crate::config::Config;
use crate::config;
use crate::error;
use crate::error::LkpmError;
use crate::path;
use crate::text;

verus! {

// ---------------------------------------------------------------------------
// Quoting

/// Text between single quotes, each single quote in it written so that a
/// shell reads it back.
pub open spec fn quoted(s: Seq<char>) -> Seq<char> {
    "'"@ + text::replaced(s, '\'', "'\\''"@) + "'"@
}

/// Text between single quotes, such that a shell reads it back.
pub fn shell_quote(s: &str) -> (r: String)
    ensures
        r@ == quoted(s@),
{
    text::join3("'", &text::replace(s, '\'', "'\\''"), "'")
}

/// What a shell makes of a word of quoted text, backslashes and characters
/// that have no meaning of their own; `inside` says whether a single quote is
/// open. There is no such word if one stays open.
pub open spec fn unquoted(s: Seq<char>, inside: bool) -> Option<Seq<char>>
    decreases s.len(),
{
    if s.len() == 0 {
        if inside {
            None
        } else {
            Some(seq![])
        }
    } else if s[0] == '\'' {
        unquoted(s.drop_first(), !inside)
    } else if !inside && s[0] == '\\' {
        if s.len() == 1 {
            None
        } else {
            match unquoted(s.skip(2), inside) {
                Some(t) => Some(seq![s[1]] + t),
                None => None,
            }
        }
    } else {
        match unquoted(s.drop_first(), inside) {
            Some(t) => Some(seq![s[0]] + t),
            None => None,
        }
    }
}

proof fn unquoted_from_inside(s: Seq<char>, rest: Seq<char>)
    requires
        unquoted(rest, true) is Some,
    ensures
        unquoted(text::replaced(s, '\'', "'\\''"@) + rest, true) == Some(
            s + unquoted(rest, true)->0,
        ),
    decreases s.len(),
{
    let with = "'\\''"@;
    reveal_strlit("'\\''");
    let t = unquoted(rest, true)->0;
    if s.len() == 0 {
        assert(text::replaced(s, '\'', with) + rest =~= rest);
        assert(s + t =~= t);
    } else {
        let init = s.drop_last();
        let last = s.last();
        if last == '\'' {
            let next = with + rest;
            assert(next.drop_first().skip(2) =~= seq!['\''] + rest);
            assert((seq!['\''] + rest).drop_first() =~= rest);
            assert(next[0] == '\'' && next.drop_first()[0] == '\\' && next.drop_first()[1] == '\'');
            assert(unquoted(seq!['\''] + rest, false) == unquoted(rest, true));
            assert(unquoted(next.drop_first(), false) == Some(seq!['\''] + t));
            assert(unquoted(next, true) == Some(seq![last] + t));
            unquoted_from_inside(init, next);
            assert(text::replaced(s, '\'', with) + rest =~= text::replaced(init, '\'', with) + next);
            assert(init + (seq![last] + t) =~= s + t);
        } else {
            let next = seq![last] + rest;
            assert(next.drop_first() =~= rest);
            assert(unquoted(next, true) == Some(seq![last] + t));
            unquoted_from_inside(init, next);
            assert(text::replaced(s, '\'', with) + rest =~= text::replaced(init, '\'', with) + next);
            assert(init + (seq![last] + t) =~= s + t);
        }
    }
}

/// A shell reads quoted text as the text that was quoted.
pub proof fn quoted_reads_back(s: Seq<char>)
    ensures
        unquoted(quoted(s), false) == Some(s),
{
    reveal_strlit("'");
    let close = "'"@;
    assert(close.drop_first() =~= seq![]);
    assert(unquoted(close.drop_first(), false) == Some(Seq::<char>::empty()));
    assert(unquoted(close, true) == Some(Seq::<char>::empty()));
    unquoted_from_inside(s, close);
    assert(s + Seq::<char>::empty() =~= s);
    let body = text::replaced(s, '\'', "'\\''"@) + close;
    assert(quoted(s) =~= seq!['\''] + body);
    assert(quoted(s).drop_first() =~= body);
}

// ---------------------------------------------------------------------------
// Running a function

/// A function of an install script that is to be run.
pub struct HookRun {
    /// Where the script is written for the time of the run.
    pub host_path: String,
    pub script: String,
    /// The command, for bash.
    pub command: String,
    /// Whether it runs inside the root that packages are installed to.
    pub in_chroot: bool,
}

/// Whether a root is that of the running system.
pub open spec fn is_own_root(root: Seq<char>) -> bool {
    path::same_path(root, "/"@) || path::same_path(root, ""@)
}

/// Where the script of a package is written for the time of a run.
pub open spec fn script_path(
    cfg: config::ConfigView,
    package: Seq<char>,
    function: Seq<char>,
    pid: nat,
) -> Seq<char> {
    path::joined(
        path::joined(cfg.cache_path, "tmp-script"@),
        package + "-"@ + function + "-"@ + text::decimal_of(pid) + ".sh"@,
    )
}

/// What the script is called where the function runs.
pub open spec fn script_name(cfg: config::ConfigView, host_path: Seq<char>) -> Seq<char> {
    if is_own_root(cfg.install_root) {
        host_path
    } else {
        match path::relative_to(host_path, cfg.install_root) {
            Some(rel) => "/"@ + rel,
            None => host_path,
        }
    }
}

/// The command that runs a function of a script, if the script has it.
pub open spec fn hook_command(
    script: Seq<char>,
    function: Seq<char>,
    args: Seq<Seq<char>>,
) -> Seq<char> {
    "source "@ + quoted(script) + " >/dev/null 2>&1 && if declare -f "@ + function
        + " >/dev/null 2>&1; then "@ + function + " "@ + text::joined(
        args.map_values(|a: Seq<char>| quoted(a)),
        " "@,
    ) + "; fi"@
}

fn quote_all(args: &Vec<String>) -> (r: Vec<String>)
    ensures
        text::texts(r@) == text::texts(args@).map_values(|a: Seq<char>| quoted(a)),
{
    let ghost want = text::texts(args@).map_values(|a: Seq<char>| quoted(a));
    let mut out: Vec<String> = Vec::new();
    let mut i: usize = 0;
    while i < args.len()
        invariant
            i <= args@.len(),
            want == text::texts(args@).map_values(|a: Seq<char>| quoted(a)),
            text::texts(out@) == want.take(i as int),
        decreases args@.len() - i,
    {
        let ghost before = out@;
        out.push(shell_quote(&args[i]));
        assert(text::texts(out@) =~= text::texts(before).push(want[i as int]));
        i = i + 1;
        assert(text::texts(out@) =~= want.take(i as int));
    }
    assert(want.take(args@.len() as int) =~= want);
    out
}

/// What to do to run a function of a package's install script, if it has a script.
pub fn run_install_hook(
    cfg: &Config,
    package_name: &str,
    script: &Option<String>,
    function: &str,
    args: &Vec<String>,
    pid: u32,
) -> (r: Option<HookRun>)
    ensures
        match r {
            Some(run) => {
                &&& cli::opt_text(*script) == Some(run.script@)
                &&& run.host_path@ == script_path(cfg@, package_name@, function@, pid as nat)
                &&& run.command@ == hook_command(
                    script_name(cfg@, run.host_path@),
                    function@,
                    text::texts(args@),
                )
                &&& run.in_chroot == !is_own_root(cfg@.install_root)
            },
            None => script is None,
        },
{
    let script = match script {
        Some(s) => text::copy(s),
        None => {
            return None;
        },
    };
    let own = path::paths_equal(&cfg.install_root, "/") || path::paths_equal(
        &cfg.install_root,
        "",
    );
    let file_name = text::join2(
        &text::join5(package_name, "-", function, "-", &text::decimal(pid as u64)),
        ".sh",
    );
    let host_path = path::join(&cfg.install_script_dir(), &file_name);
    let name = if own {
        text::copy(&host_path)
    } else {
        match path::strip_prefix(&host_path, &cfg.install_root) {
            Some(rel) => text::join2("/", &rel),
            None => text::copy(&host_path),
        }
    };
    let arg_str = text::join(&quote_all(args), " ");
    let command = text::join5(
        &text::join5(
            "source ",
            &shell_quote(&name),
            " >/dev/null 2>&1 && if declare -f ",
            function,
            " >/dev/null 2>&1; then ",
        ),
        function,
        " ",
        &arg_str,
        "; fi",
    );
    Some(HookRun { host_path, script, command, in_chroot: !own })
}

/// How running a function of an install script went.
pub enum HookOutcome {
    /// The directory for the script could not be made.
    NoDirectory,
    /// The script could not be written.
    NotWritten,
    /// It ran inside another root and ended with this code.
    Code(i32),
    /// It could not be run inside another root.
    ChrootFailed,
    /// It ran on the running system; whether it succeeded, and how it ended.
    Status(bool, String),
    /// It could not be started.
    NotStarted,
}

/// Why running a function failed, if it did.
pub open spec fn hook_failure(
    cfg: config::ConfigView,
    run: HookRun,
    function: Seq<char>,
    outcome: HookOutcome,
) -> Option<Seq<char>> {
    match outcome {
        HookOutcome::NoDirectory => Some(
            "failed to create "@ + path::joined(cfg.cache_path, "tmp-script"@),
        ),
        HookOutcome::NotWritten => Some(
            "failed to write install script cache file "@ + run.host_path@,
        ),
        HookOutcome::Code(code) => if code == 0 {
            None
        } else {
            Some(
                "install script hook "@ + function + " exited with status code "@
                    + text::signed_decimal_of(code as int),
            )
        },
        HookOutcome::ChrootFailed => Some(
            "failed to run install script hook "@ + function + " inside chroot"@,
        ),
        HookOutcome::Status(ok, how) => if ok {
            None
        } else {
            Some("install script hook "@ + function + " exited with "@ + how@)
        },
        HookOutcome::NotStarted => Some("failed to run install script hook "@ + function),
    }
}

/// What came of running a function.
pub fn hook_result(cfg: &Config, run: &HookRun, function: &str, outcome: &HookOutcome) -> (r: Result<
    (),
    LkpmError,
>)
    ensures
        match r {
            Ok(_) => hook_failure(cfg@, *run, function@, *outcome) is None,
            Err(e) => hook_failure(cfg@, *run, function@, *outcome) matches Some(m) && e@
                == error::ErrorView::Other(m),
        },
{
    match outcome {
        HookOutcome::NoDirectory => Err(
            error::other(&text::join2("failed to create ", &cfg.install_script_dir())),
        ),
        HookOutcome::NotWritten => Err(
            error::other(
                &text::join2("failed to write install script cache file ", &run.host_path),
            ),
        ),
        HookOutcome::Code(code) => if *code == 0 {
            Ok(())
        } else {
            Err(
                error::other(
                    &text::join4(
                        "install script hook ",
                        function,
                        " exited with status code ",
                        &text::signed_decimal(*code),
                    ),
                ),
            )
        },
        HookOutcome::ChrootFailed => Err(
            error::other(
                &text::join3("failed to run install script hook ", function, " inside chroot"),
            ),
        ),
        HookOutcome::Status(ok, how) => if *ok {
            Ok(())
        } else {
            Err(
                error::other(&text::join4("install script hook ", function, " exited with ", how)),
            )
        },
        HookOutcome::NotStarted => Err(
            error::other(&text::join2("failed to run install script hook ", function)),
        ),
    }
}

// ---------------------------------------------------------------------------
// What is run for a package

/// A script below another root is named as it is seen from there; otherwise
/// it keeps its name.
pub proof fn scripts_are_named_from_the_root(
    cfg: config::ConfigView,
    parts: Seq<Seq<char>>,
    host_path: Seq<char>,
)
    requires
        cfg.install_root.len() > 0,
        parts.len() > 0,
        forall|i: int| 0 <= i < parts.len() ==> path::is_plain(#[trigger] parts[i]),
    ensures
        ({
            let rel = text::joined(parts, "/"@);
            path::names(cfg.install_root).len() > 0 ==> script_name(
                cfg,
                path::joined(cfg.install_root, rel),
            ) == "/"@ + rel
        }),
        cfg.install_root == "/"@ ==> script_name(cfg, host_path) == host_path,
{
    reveal_strlit("/");
    reveal_strlit("");
    path::relative_below(cfg.install_root, parts);
    assert(path::names("/"@).len() == 0) by {
        assert(path::name_start("/"@, 1) == 1);
        assert(path::name_start("/"@, 0) == 1);
    }
    assert(path::names(""@).len() == 0);
}

/// A function of a package is run with its arguments after its script has been
/// read, each of them as one word, and only if the script has that function.
pub proof fn hooks_get_their_arguments(
    script: Seq<char>,
    function: Seq<char>,
    first: Seq<char>,
    second: Seq<char>,
)
    ensures
        hook_command(script, function, seq![first]) == "source "@ + quoted(script)
            + " >/dev/null 2>&1 && if declare -f "@ + function + " >/dev/null 2>&1; then "@
            + function + " "@ + quoted(first) + "; fi"@,
        hook_command(script, function, seq![first, second]) == "source "@ + quoted(script)
            + " >/dev/null 2>&1 && if declare -f "@ + function + " >/dev/null 2>&1; then "@
            + function + " "@ + (quoted(first) + " "@ + quoted(second)) + "; fi"@,
{
    let one = seq![first].map_values(|a: Seq<char>| quoted(a));
    let two = seq![first, second].map_values(|a: Seq<char>| quoted(a));
    assert(one =~= seq![quoted(first)]);
    assert(two =~= one.push(quoted(second)));
    text::separators_stand_between(one, " "@, quoted(second));
    text::separators_stand_between(one, " "@, quoted(first));
}

/// A function of a package has succeeded exactly if its shell says so.
pub proof fn only_a_clean_exit_succeeds(
    cfg: config::ConfigView,
    run: HookRun,
    function: Seq<char>,
    outcome: HookOutcome,
)
    ensures
        hook_failure(cfg, run, function, outcome) is None <==> {
            ||| outcome matches HookOutcome::Code(code) && code == 0
            ||| outcome matches HookOutcome::Status(ok, _) && ok
        },
{
}

} // verus!
