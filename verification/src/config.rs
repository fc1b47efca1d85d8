//! The configuration: repositories, paths and rules.
use vstd::prelude::*;

use crate::path;
use crate::text;

verus! {

/// Where the package manager looks for packages, and where it keeps things.
#[derive(Clone, Debug)]
pub struct Config {
    pub core_repos: Vec<String>,
    pub extra_mirrors: Vec<String>,
    pub arch: String,
    pub blocked_packages: Vec<String>,
    pub parallel_operation: usize,
    pub no_update_packages: Vec<String>,
    pub db_path: String,
    pub cache_path: String,
    pub install_root: String,
    pub log_path: String,
}

/// A configuration with its texts taken as sequences of characters.
pub struct ConfigView {
    pub core_repos: Seq<Seq<char>>,
    pub extra_mirrors: Seq<Seq<char>>,
    pub arch: Seq<char>,
    pub blocked_packages: Seq<Seq<char>>,
    pub parallel_operation: usize,
    pub no_update_packages: Seq<Seq<char>>,
    pub db_path: Seq<char>,
    pub cache_path: Seq<char>,
    pub install_root: Seq<char>,
    pub log_path: Seq<char>,
}

impl View for Config {
    type V = ConfigView;

    open spec fn view(&self) -> ConfigView {
        ConfigView {
            core_repos: text::texts(self.core_repos@),
            extra_mirrors: text::texts(self.extra_mirrors@),
            arch: self.arch@,
            blocked_packages: text::texts(self.blocked_packages@),
            parallel_operation: self.parallel_operation,
            no_update_packages: text::texts(self.no_update_packages@),
            db_path: self.db_path@,
            cache_path: self.cache_path@,
            install_root: self.install_root@,
            log_path: self.log_path@,
        }
    }
}

/// The configuration before any file is read.
pub open spec fn default_config() -> ConfigView {
    ConfigView {
        core_repos: seq![],
        extra_mirrors: seq![],
        arch: "x86_64"@,
        blocked_packages: seq![],
        parallel_operation: 5,
        no_update_packages: seq![],
        db_path: "/var/db/lkpm"@,
        cache_path: "/var/cache/lkpm"@,
        install_root: "/"@,
        log_path: "/var/log/lkpm"@,
    }
}

// ---------------------------------------------------------------------------
// The mirror list

/// A line without its comment and without white space around it.
pub open spec fn line_content(line: Seq<char>) -> Seq<char> {
    let hash = text::first_index(line, '#');
    let semicolon = text::first_index(line, ';');
    text::trimmed(line.take(if hash <= semicolon { hash as int } else { semicolon as int }))
}

/// A line without its comment and without white space around it.
pub fn clean_line(line: &str) -> (r: String)
    ensures
        r@ == line_content(line@),
{
    let c = text::to_chars(line);
    assert(c@.skip(0) =~= c@);
    let hash = text::index_from(&c, 0, '#');
    let semicolon = text::index_from(&c, 0, ';');
    let end: usize = if hash <= semicolon {
        hash
    } else {
        semicolon
    };
    assert(c@.take(end as int) =~= c@.subrange(0, end as int));
    text::trim(&text::range_string(&c, 0, end))
}

/// Whether a line's content opens a section.
pub open spec fn opens_section(content: Seq<char>) -> bool {
    content.len() > 0 && content[0] == '[' && content.last() == ']'
}

/// The section that is in force after a run of lines: the one opened last.
pub open spec fn section_after(lines: Seq<Seq<char>>) -> Seq<char>
    decreases lines.len(),
{
    if lines.len() == 0 {
        seq![]
    } else {
        let content = line_content(lines.last());
        if opens_section(content) {
            text::ascii_lower(text::trimmed(content.subrange(1, content.len() - 1)))
        } else {
            section_after(lines.drop_last())
        }
    }
}

/// The entries of a section, in the order of the lines.
pub open spec fn section_entries(lines: Seq<Seq<char>>, section: Seq<char>) -> Seq<Seq<char>>
    decreases lines.len(),
{
    if lines.len() == 0 {
        seq![]
    } else {
        let content = line_content(lines.last());
        let before = section_entries(lines.drop_last(), section);
        if content.len() > 0 && !opens_section(content) && section_after(lines.drop_last())
            == section {
            before.push(content)
        } else {
            before
        }
    }
}

/// The repositories that a mirror list names.
pub struct Mirrorlist {
    pub core: Vec<String>,
    pub extra: Vec<String>,
}

impl Mirrorlist {
    /// Reads a mirror list: the entries of its sections `core` and `extra`.
    pub fn parse(list: &str) -> (r: Mirrorlist)
        ensures
            text::texts(r.core@) == section_entries(text::lines_of(list@), "core"@),
            text::texts(r.extra@) == section_entries(text::lines_of(list@), "extra"@),
    {
        let lines = text::lines(list);
        let ghost all = text::lines_of(list@);
        let mut core: Vec<String> = Vec::new();
        let mut extra: Vec<String> = Vec::new();
        let mut section = String::new();
        proof {
            reveal_strlit("core");
            reveal_strlit("extra");
            assert("core"@.len() == 4 && "extra"@.len() == 5);
        }
        let mut i: usize = 0;
        while i < lines.len()
            invariant
                i <= lines@.len(),
                text::texts(lines@) == all,
                "core"@ != "extra"@,
                section@ == section_after(all.take(i as int)),
                text::texts(core@) == section_entries(all.take(i as int), "core"@),
                text::texts(extra@) == section_entries(all.take(i as int), "extra"@),
            decreases lines@.len() - i,
        {
            let ghost now = all.take(i + 1);
            assert(now.drop_last() =~= all.take(i as int));
            assert(now.last() == lines@[i as int]@);
            let line = clean_line(&lines[i]);
            let c = text::to_chars(&line);
            let n: usize = c.len();
            if n > 0 {
                if c[0] == '[' && c[n - 1] == ']' {
                    assert('[' != ']');
                    section = text::to_ascii_lower(&text::trim(&text::range_string(&c, 1, n - 1)));
                } else if text::same(&section, "core") {
                    let ghost before = core@;
                    core.push(line);
                    assert(text::texts(core@) =~= text::texts(before).push(line@));
                } else if text::same(&section, "extra") {
                    let ghost before = extra@;
                    extra.push(line);
                    assert(text::texts(extra@) =~= text::texts(before).push(line@));
                }
            }
            i = i + 1;
        }
        assert(all.take(all.len() as int) =~= all);
        Mirrorlist { core, extra }
    }
}

// ---------------------------------------------------------------------------
// The configuration script

/// What a configuration script has set.
pub struct ScriptSettings {
    pub parallel_operation: Option<usize>,
    pub install_root: Option<String>,
    pub cache_path: Option<String>,
    pub log_path: Option<String>,
    pub arch: Option<String>,
    pub blocked_packages: Option<Vec<String>>,
    pub no_update: Option<Vec<String>>,
}

/// The text of an optional string, or another text.
pub open spec fn text_or(o: Option<String>, default: Seq<char>) -> Seq<char> {
    match o {
        Some(s) => s@,
        None => default,
    }
}

/// The texts of an optional list, or other texts.
pub open spec fn texts_or(o: Option<Vec<String>>, default: Seq<Seq<char>>) -> Seq<Seq<char>> {
    match o {
        Some(v) => text::texts(v@),
        None => default,
    }
}

/// A configuration with what a script has set put in its place.
pub open spec fn with_settings(cfg: ConfigView, s: ScriptSettings) -> ConfigView {
    ConfigView {
        parallel_operation: match s.parallel_operation {
            Some(n) => n,
            None => cfg.parallel_operation,
        },
        install_root: text_or(s.install_root, cfg.install_root),
        cache_path: text_or(s.cache_path, cfg.cache_path),
        log_path: text_or(s.log_path, cfg.log_path),
        arch: text_or(s.arch, cfg.arch),
        blocked_packages: texts_or(s.blocked_packages, cfg.blocked_packages),
        no_update_packages: texts_or(s.no_update, cfg.no_update_packages),
        ..cfg
    }
}

/// A configuration after a script: unchanged if the script is blank or failed.
pub open spec fn after_script(
    cfg: ConfigView,
    script: Seq<char>,
    outcome: Option<ScriptSettings>,
) -> ConfigView {
    match outcome {
        Some(s) => if text::trimmed(script).len() == 0 {
            cfg
        } else {
            with_settings(cfg, s)
        },
        None => cfg,
    }
}

/// The directories that must exist once a script has set them.
pub open spec fn directories_set(
    script: Seq<char>,
    outcome: Option<ScriptSettings>,
) -> Seq<Seq<char>> {
    match outcome {
        Some(s) => if text::trimmed(script).len() == 0 {
            seq![]
        } else {
            (match s.cache_path {
                Some(p) => seq![p@],
                None => seq![],
            }) + (match s.log_path {
                Some(p) => seq![p@],
                None => seq![],
            })
        },
        None => seq![],
    }
}

/// The file that is read: the one under the root, or else that of the
/// system, or else what stands in for them.
pub fn first_text(root: Option<String>, system: Option<String>, default: &str) -> (r: String)
    ensures
        r@ == text_or(root, text_or(system, default@)),
{
    match root {
        Some(t) => t,
        None => match system {
            Some(t) => t,
            None => default.to_owned(),
        },
    }
}

// ---------------------------------------------------------------------------
// Directories

/// A directory and the permissions that it gets.
pub struct DirectoryMode {
    pub path: String,
    pub mode: u32,
}

/// A list of directories with their permissions, as texts.
pub open spec fn modes(v: Seq<DirectoryMode>) -> Seq<(Seq<char>, u32)> {
    v.map_values(|d: DirectoryMode| (d.path@, d.mode))
}

/// The directories that lead to a path, open to all.
pub open spec fn open_chain(dir: Seq<char>) -> Seq<(Seq<char>, u32)> {
    path::chain(dir).map_values(|p: Seq<char>| (p, 0o755u32))
}

/// The directories that lead to a path, which itself is for its owner alone.
pub open spec fn private_chain(dir: Seq<char>) -> Seq<(Seq<char>, u32)> {
    (match path::parent_of(dir) {
        Some(p) => open_chain(p),
        None => seq![],
    }).push((dir, 0o700u32))
}

impl Config {
    /// The directories to create where missing, and the permissions to give
    /// them, so that a directory exists and is open to all.
    pub fn ensure_dir(dir: &str) -> (r: Vec<DirectoryMode>)
        ensures
            modes(r@) == open_chain(dir@),
    {
        let steps = path::directory_chain(dir);
        let mut out: Vec<DirectoryMode> = Vec::new();
        let mut i: usize = 0;
        while i < steps.len()
            invariant
                i <= steps@.len(),
                text::texts(steps@) == path::chain(dir@),
                modes(out@) == open_chain(dir@).take(i as int),
            decreases steps@.len() - i,
        {
            let ghost before = out@;
            assert(text::texts(steps@)[i as int] == steps@[i as int]@);
            out.push(DirectoryMode { path: text::copy(&steps[i]), mode: 0o755u32 });
            assert(modes(out@) =~= modes(before).push(open_chain(dir@)[i as int]));
            i = i + 1;
            assert(modes(out@) =~= open_chain(dir@).take(i as int));
        }
        assert(open_chain(dir@).len() == steps@.len());
        assert(open_chain(dir@).take(steps@.len() as int) =~= open_chain(dir@));
        out
    }

    /// The directories to create where missing, and the permissions to give
    /// them, so that a directory exists and is for its owner alone.
    pub fn ensure_private_dir(dir: &str) -> (r: Vec<DirectoryMode>)
        ensures
            modes(r@) == private_chain(dir@),
    {
        let mut out = match path::parent(dir) {
            Some(p) => Config::ensure_dir(&p),
            None => Vec::new(),
        };
        let ghost before = out@;
        out.push(DirectoryMode { path: dir.to_owned(), mode: 0o700u32 });
        assert(modes(out@) =~= modes(before).push((dir@, 0o700u32)));
        assert(modes(out@) =~= private_chain(dir@));
        out
    }

    /// The configuration before any file is read.
    pub fn defaults() -> (r: Config)
        ensures
            r@ == default_config(),
    {
        let r = Config {
            core_repos: Vec::new(),
            extra_mirrors: Vec::new(),
            arch: "x86_64".to_owned(),
            blocked_packages: Vec::new(),
            parallel_operation: 5,
            no_update_packages: Vec::new(),
            db_path: "/var/db/lkpm".to_owned(),
            cache_path: "/var/cache/lkpm".to_owned(),
            install_root: "/".to_owned(),
            log_path: "/var/log/lkpm".to_owned(),
        };
        assert(r@.core_repos =~= seq![]);
        assert(r@.extra_mirrors =~= seq![]);
        assert(r@.blocked_packages =~= seq![]);
        assert(r@.no_update_packages =~= seq![]);
        r
    }

    /// The configuration that a mirror list and a configuration script make,
    /// and the directories that must then exist.
    pub fn load(mirrorlist: &str, script: &str, outcome: Option<ScriptSettings>) -> (r: (
        Config,
        Vec<String>,
    ))
        ensures
            r.0@ == after_script(with_mirrorlist(default_config(), mirrorlist@), script@, outcome),
            text::texts(r.1@) == directories_set(script@, outcome),
    {
        let mut cfg = Config::defaults();
        cfg.apply_mirrorlist(mirrorlist);
        let dirs = cfg.apply_config_lua(script, outcome);
        (cfg, dirs)
    }

    /// Takes the repositories from a mirror list. A section that the list
    /// leaves empty changes nothing.
    pub fn apply_mirrorlist(&mut self, list: &str)
        ensures
            final(self)@ == with_mirrorlist(old(self)@, list@),
    {
        let mirrorlist = Mirrorlist::parse(list);
        if !mirrorlist.core.is_empty() {
            self.core_repos = mirrorlist.core;
        }
        if !mirrorlist.extra.is_empty() {
            self.extra_mirrors = mirrorlist.extra;
        }
    }

    /// Takes the repositories from the mirror list of the install root.
    pub fn reload_mirrorlist_for_root(
        &mut self,
        root: Option<String>,
        system: Option<String>,
        default: &str,
    )
        ensures
            final(self)@ == with_mirrorlist(
                old(self)@,
                text_or(root, text_or(system, default@)),
            ),
    {
        let list = first_text(root, system, default);
        self.apply_mirrorlist(&list);
    }

    /// Whether a configuration script holds anything to run.
    pub fn has_script(script: &str) -> (r: bool)
        ensures
            r == (text::trimmed(script@).len() > 0),
    {
        let t = text::trim(script);
        !t.as_str().is_empty()
    }

    /// Takes what a configuration script has set, if it ran, and returns the
    /// directories that must then exist.
    pub fn apply_config_lua(&mut self, script: &str, outcome: Option<ScriptSettings>) -> (r: Vec<
        String,
    >)
        ensures
            final(self)@ == after_script(old(self)@, script@, outcome),
            text::texts(r@) == directories_set(script@, outcome),
    {
        let mut dirs: Vec<String> = Vec::new();
        if let Some(s) = outcome {
            if Config::has_script(script) {
                if let Some(v) = s.parallel_operation {
                    self.parallel_operation = v;
                }
                if let Some(v) = s.install_root {
                    self.install_root = v;
                }
                if let Some(v) = s.cache_path {
                    dirs.push(text::copy(&v));
                    self.cache_path = v;
                }
                if let Some(v) = s.log_path {
                    dirs.push(text::copy(&v));
                    self.log_path = v;
                }
                if let Some(v) = s.arch {
                    self.arch = v;
                }
                if let Some(v) = s.blocked_packages {
                    self.blocked_packages = v;
                }
                if let Some(v) = s.no_update {
                    self.no_update_packages = v;
                }
            }
        }
        assert(text::texts(dirs@) =~= directories_set(script@, outcome));
        dirs
    }

    /// Takes what the configuration script of another root has set. The
    /// paths stay as they are.
    pub fn apply_system_config_for_root(
        &mut self,
        script: &str,
        outcome: Option<ScriptSettings>,
    ) -> (r: Vec<String>)
        ensures
            final(self)@ == (ConfigView {
                cache_path: old(self)@.cache_path,
                install_root: old(self)@.install_root,
                log_path: old(self)@.log_path,
                ..after_script(old(self)@, script@, outcome)
            }),
            text::texts(r@) == directories_set(script@, outcome),
    {
        let saved_cache = text::copy(&self.cache_path);
        let saved_root = text::copy(&self.install_root);
        let saved_log = text::copy(&self.log_path);
        let dirs = self.apply_config_lua(script, outcome);
        self.cache_path = saved_cache;
        self.install_root = saved_root;
        self.log_path = saved_log;
        dirs
    }

    /// Where packages are downloaded to.
    pub fn download_dir(&self) -> (r: String)
        ensures
            r@ == path::joined(self@.cache_path, "download"@),
    {
        path::join(&self.cache_path, "download")
    }

    /// Where install scripts are put to be run.
    pub fn install_script_dir(&self) -> (r: String)
        ensures
            r@ == path::joined(self@.cache_path, "tmp-script"@),
    {
        path::join(&self.cache_path, "tmp-script")
    }

    /// Where the files of a replaced version are kept during an upgrade.
    pub fn pkg_backup_dir(&self) -> (r: String)
        ensures
            r@ == path::joined(self@.cache_path, "pkg-backup"@),
    {
        path::join(&self.cache_path, "pkg-backup")
    }

    /// Where packages are unpacked before their files are put in place.
    pub fn tmp_install_dir(&self) -> (r: String)
        ensures
            r@ == path::joined(self@.cache_path, "tmp-install"@),
    {
        path::join(&self.cache_path, "tmp-install")
    }

    /// Where files that the user has changed are saved.
    pub fn backup_dir(&self) -> (r: String)
        ensures
            r@ == path::joined(self@.install_root, "etc/lkpm.d/backup"@),
    {
        path::join(&self.install_root, "etc/lkpm.d/backup")
    }

    /// Where new versions of files that the user has changed are saved.
    pub fn update_backup_dir(&self) -> (r: String)
        ensures
            r@ == path::joined(self@.install_root, "etc/lkpm.d/backup/pkg-update"@),
    {
        path::join(&self.install_root, "etc/lkpm.d/backup/pkg-update")
    }

    /// Where changed files of deleted packages are saved.
    pub fn delete_backup_dir(&self) -> (r: String)
        ensures
            r@ == path::joined(self@.install_root, "etc/lkpm.d/backup/pkg-delete"@),
    {
        path::join(&self.install_root, "etc/lkpm.d/backup/pkg-delete")
    }

    /// Where a file of a package is saved below a directory.
    pub fn lkpmsave_path(backup_dir: &str, package_name: &str, file_name: &str) -> (r: String)
        ensures
            r@ == path::joined(
                path::joined(backup_dir@, package_name@),
                file_name@ + ".lkpmsave"@,
            ),
    {
        path::join(&path::join(backup_dir, package_name), &text::join2(file_name, ".lkpmsave"))
    }
}

/// A configuration with the repositories of a mirror list. A section that the
/// list leaves empty changes nothing.
pub open spec fn with_mirrorlist(cfg: ConfigView, list: Seq<char>) -> ConfigView {
    let core = section_entries(text::lines_of(list), "core"@);
    let extra = section_entries(text::lines_of(list), "extra"@);
    ConfigView {
        core_repos: if core.len() > 0 {
            core
        } else {
            cfg.core_repos
        },
        extra_mirrors: if extra.len() > 0 {
            extra
        } else {
            cfg.extra_mirrors
        },
        ..cfg
    }
}

// ---------------------------------------------------------------------------
// What a list of mirrors and a script say

/// A comment ends the content of a line, whichever of the two characters it
/// begins with.
pub proof fn comments_are_cut_off(line: Seq<char>, comment: Seq<char>)
    requires
        forall|i: int| 0 <= i < line.len() ==> (#[trigger] line[i]) != '#' && line[i] != ';',
    ensures
        line_content(line) == text::trimmed(line),
        line_content(line.push('#') + comment) == text::trimmed(line),
        line_content(line.push(';') + comment) == text::trimmed(line),
{
    let n = line.len() as int;
    let a = line.push('#') + comment;
    let b = line.push(';') + comment;
    text::first_index_is(line, '#', n);
    text::first_index_is(line, ';', n);
    text::first_index_is(a, '#', n);
    text::first_index_is(b, ';', n);
    text::first_index_bounds(a, ';');
    text::first_index_bounds(b, '#');
    assert(line.take(n) =~= line);
    assert(a.take(n) =~= line);
    assert(b.take(n) =~= line);
    assert(a[n] == '#');
    assert(b[n] == ';');
    if text::first_index(a, ';') < n {
        assert(a[text::first_index(a, ';') as int] == line[text::first_index(a, ';') as int]);
    }
    if text::first_index(b, '#') < n {
        assert(b[text::first_index(b, '#') as int] == line[text::first_index(b, '#') as int]);
    }
}

/// The content of those lines that have any, in order.
pub open spec fn contents(lines: Seq<Seq<char>>) -> Seq<Seq<char>>
    decreases lines.len(),
{
    if lines.len() == 0 {
        seq![]
    } else if line_content(lines.last()).len() == 0 {
        contents(lines.drop_last())
    } else {
        contents(lines.drop_last()).push(line_content(lines.last()))
    }
}

/// A section lists what stands under its name, up to the next name, each line
/// in order; the name is compared without regard to case. Under another name
/// nothing of it stands.
pub proof fn sections_list_their_lines(
    above: Seq<Seq<char>>,
    header: Seq<char>,
    name: Seq<char>,
    lines: Seq<Seq<char>>,
    section: Seq<char>,
)
    requires
        line_content(header) == seq!['['] + name + seq![']'],
        forall|i: int|
            0 <= i < lines.len() ==> !opens_section(line_content(#[trigger] lines[i])),
    ensures
        section_entries(above.push(header) + lines, section) == section_entries(above, section) + (
        if text::ascii_lower(text::trimmed(name)) == section {
            contents(lines)
        } else {
            seq![]
        }),
        section_after(above.push(header) + lines) == text::ascii_lower(text::trimmed(name)),
    decreases lines.len(),
{
    let all = above.push(header) + lines;
    let content = line_content(header);
    if lines.len() == 0 {
        assert(all =~= above.push(header));
        assert(all.drop_last() =~= above);
        assert(content.subrange(1, content.len() - 1) =~= name);
        assert(contents(lines) =~= seq![]);
        assert(section_entries(above, section) + seq![] =~= section_entries(above, section));
    } else {
        let init = lines.drop_last();
        assert forall|i: int| 0 <= i < init.len() implies !opens_section(
            line_content(#[trigger] init[i]),
        ) by {
            assert(init[i] == lines[i]);
        }
        sections_list_their_lines(above, header, name, init, section);
        assert(all.drop_last() =~= above.push(header) + init);
        assert(all.last() == lines.last());
        assert(!opens_section(line_content(lines[lines.len() - 1])));
        assert(section_entries(all, section) =~= section_entries(above, section) + (
        if text::ascii_lower(text::trimmed(name)) == section {
            contents(lines)
        } else {
            seq![]
        }));
    }
}

/// What stands above the first name belongs to no section.
pub proof fn nothing_stands_above_the_sections(lines: Seq<Seq<char>>, section: Seq<char>)
    requires
        section.len() > 0,
        forall|i: int|
            0 <= i < lines.len() ==> !opens_section(line_content(#[trigger] lines[i])),
    ensures
        section_entries(lines, section).len() == 0,
        section_after(lines).len() == 0,
    decreases lines.len(),
{
    if lines.len() > 0 {
        let init = lines.drop_last();
        assert forall|i: int| 0 <= i < init.len() implies !opens_section(
            line_content(#[trigger] init[i]),
        ) by {
            assert(init[i] == lines[i]);
        }
        nothing_stands_above_the_sections(init, section);
        assert(!opens_section(line_content(lines[lines.len() - 1])));
    }
}

/// A list of mirrors sets the repositories of a section that it fills, keeps
/// those of one that it leaves empty, and touches nothing else.
pub proof fn empty_sections_keep_their_mirrors(cfg: ConfigView, list: Seq<char>)
    ensures
        ({
            let core = section_entries(text::lines_of(list), "core"@);
            let extra = section_entries(text::lines_of(list), "extra"@);
            let now = with_mirrorlist(cfg, list);
            &&& core.len() > 0 ==> now.core_repos == core
            &&& core.len() == 0 ==> now.core_repos == cfg.core_repos
            &&& extra.len() > 0 ==> now.extra_mirrors == extra
            &&& extra.len() == 0 ==> now.extra_mirrors == cfg.extra_mirrors
            &&& now == (ConfigView {
                core_repos: now.core_repos,
                extra_mirrors: now.extra_mirrors,
                ..cfg
            })
        }),
{
}

/// A script that runs sets what it gives a value, and keeps the rest; one that
/// is blank, or that does not run, changes nothing.
pub proof fn scripts_set_what_they_name(cfg: ConfigView, script: Seq<char>, s: ScriptSettings)
    ensures
        after_script(cfg, script, None) == cfg,
        text::trimmed(script).len() == 0 ==> after_script(cfg, script, Some(s)) == cfg,
        text::trimmed(script).len() > 0 ==> ({
            let now = after_script(cfg, script, Some(s));
            &&& s.parallel_operation is Some ==> now.parallel_operation == s.parallel_operation->0
            &&& s.parallel_operation is None ==> now.parallel_operation == cfg.parallel_operation
            &&& s.install_root is Some ==> now.install_root == s.install_root->0@
            &&& s.install_root is None ==> now.install_root == cfg.install_root
            &&& s.cache_path is Some ==> now.cache_path == s.cache_path->0@
            &&& s.cache_path is None ==> now.cache_path == cfg.cache_path
            &&& s.log_path is Some ==> now.log_path == s.log_path->0@
            &&& s.log_path is None ==> now.log_path == cfg.log_path
            &&& s.arch is Some ==> now.arch == s.arch->0@
            &&& s.arch is None ==> now.arch == cfg.arch
            &&& s.blocked_packages is Some ==> now.blocked_packages == text::texts(
                s.blocked_packages->0@,
            )
            &&& s.blocked_packages is None ==> now.blocked_packages == cfg.blocked_packages
            &&& s.no_update is Some ==> now.no_update_packages == text::texts(s.no_update->0@)
            &&& s.no_update is None ==> now.no_update_packages == cfg.no_update_packages
            &&& now.core_repos == cfg.core_repos
            &&& now.extra_mirrors == cfg.extra_mirrors
            &&& now.db_path == cfg.db_path
        }),
{
}

/// A private directory is open to its owner alone; the way to it is open.
pub proof fn only_the_last_directory_is_private(
    up: Seq<char>,
    dir: Seq<char>,
    name: Seq<char>,
    k: int,
)
    requires
        path::is_plain(dir),
        path::is_plain(name) && name != ".."@,
    ensures
        ({
            let parent = up + "/"@ + dir;
            let p = parent + "/"@ + name;
            let way = path::chain(parent);
            &&& private_chain(p).len() == way.len() + 1
            &&& private_chain(p).last() == (p, 0o700u32)
            &&& 0 <= k < way.len() ==> private_chain(p)[k] == (way[k], 0o755u32)
            &&& open_chain(p).last() == (p, 0o755u32)
            &&& 0 <= k < way.len() ==> open_chain(p)[k] == (way[k], 0o755u32)
            &&& open_chain(p).len() == way.len() + 1
        }),
{
    path::the_way_leads_through_the_parent(up, dir, name);
    path::last_name_can_be_replaced(up, dir, name, name);
}

/// The directories that a script sets are made, and no others.
pub proof fn set_directories_are_made(script: Seq<char>, s: ScriptSettings, dir: Seq<char>)
    ensures
        directories_set(script, None).len() == 0,
        text::trimmed(script).len() == 0 ==> directories_set(script, Some(s)).len() == 0,
        text::trimmed(script).len() > 0 ==> (directories_set(script, Some(s)).contains(dir) <==> {
            ||| s.cache_path matches Some(p) && p@ == dir
            ||| s.log_path matches Some(p) && p@ == dir
        }),
{
    let all = directories_set(script, Some(s));
    if text::trimmed(script).len() > 0 {
        if let Some(p) = s.cache_path {
            assert(all[0] == p@);
        }
        if let Some(p) = s.log_path {
            assert(all.last() == p@);
        }
    }
}

} // verus!
