//! The table of installed packages.
use vstd::prelude::*;

use crate::cli;
use crate::config::Config;
use crate::error::LkpmError;
use crate::json;
use crate::path;
use crate::text;

verus! {

/// A package that is installed.
#[derive(Clone, Debug)]
pub struct InstalledPackage {
    pub name: String,
    pub version: String,
    pub source: String,
    pub source_kind: String,
    pub package_path: String,
    pub checksum: String,
    pub files: Vec<String>,
    pub requires: Vec<String>,
    pub optdepends: Vec<String>,
    pub conflicts: Vec<String>,
    pub provides: Vec<String>,
    /// The files that are saved when the user has changed them.
    pub backups: Vec<String>,
    /// The checksums of those files as the package brought them.
    pub backups_hashes: Vec<(String, String)>,
    pub install_script: Option<String>,
}

/// An installed package with its texts taken as sequences of characters.
pub struct InstalledView {
    pub name: Seq<char>,
    pub version: Seq<char>,
    pub source: Seq<char>,
    pub source_kind: Seq<char>,
    pub package_path: Seq<char>,
    pub checksum: Seq<char>,
    pub files: Seq<Seq<char>>,
    pub requires: Seq<Seq<char>>,
    pub optdepends: Seq<Seq<char>>,
    pub conflicts: Seq<Seq<char>>,
    pub provides: Seq<Seq<char>>,
    pub backups: Seq<Seq<char>>,
    pub backups_hashes: Seq<(Seq<char>, Seq<char>)>,
    pub install_script: Option<Seq<char>>,
}

/// The texts held by a list of pairs of strings.
pub open spec fn pair_texts(v: Seq<(String, String)>) -> Seq<(Seq<char>, Seq<char>)> {
    v.map_values(|p: (String, String)| (p.0@, p.1@))
}

impl View for InstalledPackage {
    type V = InstalledView;

    open spec fn view(&self) -> InstalledView {
        InstalledView {
            name: self.name@,
            version: self.version@,
            source: self.source@,
            source_kind: self.source_kind@,
            package_path: self.package_path@,
            checksum: self.checksum@,
            files: text::texts(self.files@),
            requires: text::texts(self.requires@),
            optdepends: text::texts(self.optdepends@),
            conflicts: text::texts(self.conflicts@),
            provides: text::texts(self.provides@),
            backups: text::texts(self.backups@),
            backups_hashes: pair_texts(self.backups_hashes@),
            install_script: cli::opt_text(self.install_script),
        }
    }
}

/// The packages of a list.
pub open spec fn packages_of(v: Seq<InstalledPackage>) -> Seq<InstalledView> {
    v.map_values(|p: InstalledPackage| p@)
}

/// Copies a list of pairs of strings.
pub fn copy_pairs(v: &Vec<(String, String)>) -> (r: Vec<(String, String)>)
    ensures
        pair_texts(r@) == pair_texts(v@),
{
    let mut out: Vec<(String, String)> = Vec::new();
    let mut i: usize = 0;
    while i < v.len()
        invariant
            i <= v@.len(),
            pair_texts(out@) == pair_texts(v@).take(i as int),
        decreases v@.len() - i,
    {
        let ghost before = out@;
        out.push((text::copy(&v[i].0), text::copy(&v[i].1)));
        assert(pair_texts(out@) =~= pair_texts(before).push(pair_texts(v@)[i as int]));
        i = i + 1;
        assert(pair_texts(out@) =~= pair_texts(v@).take(i as int));
    }
    assert(pair_texts(v@).take(v@.len() as int) =~= pair_texts(v@));
    out
}

impl InstalledPackage {
    /// Copies the package.
    pub fn copy(&self) -> (r: InstalledPackage)
        ensures
            r@ == self@,
    {
        InstalledPackage {
            name: text::copy(&self.name),
            version: text::copy(&self.version),
            source: text::copy(&self.source),
            source_kind: text::copy(&self.source_kind),
            package_path: text::copy(&self.package_path),
            checksum: text::copy(&self.checksum),
            files: text::copy_all(&self.files),
            requires: text::copy_all(&self.requires),
            optdepends: text::copy_all(&self.optdepends),
            conflicts: text::copy_all(&self.conflicts),
            provides: text::copy_all(&self.provides),
            backups: text::copy_all(&self.backups),
            backups_hashes: copy_pairs(&self.backups_hashes),
            install_script: cli::copy_opt(&self.install_script),
        }
    }
}

/// The value that a list of pairs holds for a key; the last one counts.
pub open spec fn lookup(pairs: Seq<(Seq<char>, Seq<char>)>, key: Seq<char>) -> Option<Seq<char>>
    decreases pairs.len(),
{
    if pairs.len() == 0 {
        None
    } else if pairs.last().0 == key {
        Some(pairs.last().1)
    } else {
        lookup(pairs.drop_last(), key)
    }
}

/// The value that a list of pairs holds for a key.
pub fn lookup_pair(pairs: &Vec<(String, String)>, key: &str) -> (r: Option<String>)
    ensures
        cli::opt_text(r) == lookup(pair_texts(pairs@), key@),
{
    let mut i: usize = pairs.len();
    let ghost all = pair_texts(pairs@);
    assert(all.take(i as int) =~= all);
    while i > 0
        invariant
            i <= pairs@.len(),
            all == pair_texts(pairs@),
            lookup(all, key@) == lookup(all.take(i as int), key@),
        decreases i,
    {
        assert(all.take(i as int).drop_last() =~= all.take(i - 1));
        assert(all[i - 1] == (pairs@[i - 1].0@, pairs@[i - 1].1@));
        if text::same(&pairs[i - 1].0, key) {
            return Some(text::copy(&pairs[i - 1].1));
        }
        i = i - 1;
    }
    None
}

// ---------------------------------------------------------------------------
// Rows

/// How a package whose origin is not recorded is marked.
pub fn default_source_kind() -> (r: String)
    ensures
        r@ == "unknown"@,
{
    "unknown".to_owned()
}

/// A package as a row of text columns. Lists are kept as JSON.
pub struct PackageRow {
    pub name: String,
    pub version: String,
    pub source: String,
    pub source_kind: String,
    pub package_path: String,
    pub checksum: String,
    pub files: String,
    pub requires: String,
    pub optdepends: String,
    pub conflicts: String,
    pub provides: String,
    pub backups: String,
    pub backups_hashes: String,
    pub install_script: Option<String>,
}

/// The list that a column holds; none where the column holds no list.
pub open spec fn column_list(column: Seq<char>) -> Seq<Seq<char>> {
    match json::list_of(column) {
        Some(v) => v,
        None => seq![],
    }
}

/// Pairs as one list, each key before its value.
pub open spec fn flat(pairs: Seq<(Seq<char>, Seq<char>)>) -> Seq<Seq<char>>
    decreases pairs.len(),
{
    if pairs.len() == 0 {
        seq![]
    } else {
        flat(pairs.drop_last()).push(pairs.last().0).push(pairs.last().1)
    }
}

/// A list as pairs of neighbours; one left over counts for nothing.
pub open spec fn paired(v: Seq<Seq<char>>) -> Seq<(Seq<char>, Seq<char>)> {
    Seq::new(v.len() / 2, |i: int| (v[2 * i], v[2 * i + 1]))
}

/// The package that a row holds.
pub open spec fn row_package(row: PackageRow) -> InstalledView {
    InstalledView {
        name: row.name@,
        version: row.version@,
        source: row.source@,
        source_kind: row.source_kind@,
        package_path: row.package_path@,
        checksum: row.checksum@,
        files: column_list(row.files@),
        requires: column_list(row.requires@),
        optdepends: column_list(row.optdepends@),
        conflicts: column_list(row.conflicts@),
        provides: column_list(row.provides@),
        backups: column_list(row.backups@),
        backups_hashes: paired(column_list(row.backups_hashes@)),
        install_script: cli::opt_text(row.install_script),
    }
}

/// Pairs come back out of the list that they were put into.
pub proof fn paired_flat(pairs: Seq<(Seq<char>, Seq<char>)>)
    ensures
        flat(pairs).len() == 2 * pairs.len(),
        paired(flat(pairs)) == pairs,
    decreases pairs.len(),
{
    if pairs.len() > 0 {
        let rest = pairs.drop_last();
        paired_flat(rest);
        let n = rest.len() as int;
        let f = flat(pairs);
        assert(f =~= flat(rest).push(pairs.last().0).push(pairs.last().1));
        assert forall|i: int| 0 <= i < pairs.len() implies paired(f)[i] == pairs[i] by {
            if i < n {
                assert(paired(flat(rest))[i] == rest[i]);
                assert(f[2 * i] == flat(rest)[2 * i]);
                assert(f[2 * i + 1] == flat(rest)[2 * i + 1]);
            }
        }
        assert(paired(f) =~= pairs);
    } else {
        assert(paired(flat(pairs)) =~= pairs);
    }
}

fn flatten_pairs(pairs: &Vec<(String, String)>) -> (r: Vec<String>)
    ensures
        text::texts(r@) == flat(pair_texts(pairs@)),
{
    let mut out: Vec<String> = Vec::new();
    let mut i: usize = 0;
    let ghost all = pair_texts(pairs@);
    assert(text::texts(out@) =~= flat(all.take(0)));
    while i < pairs.len()
        invariant
            i <= pairs@.len(),
            all == pair_texts(pairs@),
            text::texts(out@) == flat(all.take(i as int)),
        decreases pairs@.len() - i,
    {
        let ghost before = out@;
        out.push(text::copy(&pairs[i].0));
        out.push(text::copy(&pairs[i].1));
        assert(all.take(i + 1).drop_last() =~= all.take(i as int));
        assert(all[i as int] == (pairs@[i as int].0@, pairs@[i as int].1@));
        assert(text::texts(out@) =~= text::texts(before).push(pairs@[i as int].0@).push(
            pairs@[i as int].1@,
        ));
        i = i + 1;
    }
    assert(all.take(all.len() as int) =~= all);
    out
}

fn pair_up(v: &Vec<String>) -> (r: Vec<(String, String)>)
    ensures
        pair_texts(r@) == paired(text::texts(v@)),
{
    let mut out: Vec<(String, String)> = Vec::new();
    let len: usize = v.len();
    let n: usize = len / 2;
    let mut i: usize = 0;
    let ghost all = text::texts(v@);
    while i < n
        invariant
            len == v@.len(),
            n == len / 2,
            i <= n,
            all == text::texts(v@),
            pair_texts(out@) == paired(all).take(i as int),
        decreases n - i,
    {
        let ghost before = out@;
        assert(all[2 * i] == v@[2 * i as int]@);
        assert(all[2 * i + 1] == v@[2 * i + 1]@);
        out.push((text::copy(&v[2 * i]), text::copy(&v[2 * i + 1])));
        assert(pair_texts(out@) =~= pair_texts(before).push(paired(all)[i as int]));
        i = i + 1;
        assert(pair_texts(out@) =~= paired(all).take(i as int));
    }
    assert(paired(all).take(n as int) =~= paired(all));
    out
}

fn list_column(v: &Vec<String>, what: &str) -> (r: Result<String, LkpmError>)
    ensures
        match r {
            Ok(c) => column_list(c@) == text::texts(v@) && c@ == json::json_of(text::texts(v@)),
            Err(_) => false,
        },
{
    match json::to_json(v) {
        Ok(s) => Ok(s),
        Err(e) => Err(
            LkpmError::Other(text::join5("lkpm-database.db serialize ", what, " error: ", &e, "")),
        ),
    }
}

fn read_column(column: &str) -> (r: Vec<String>)
    ensures
        text::texts(r@) == column_list(column@),
{
    match json::from_json(column) {
        Some(v) => v,
        None => {
            let v: Vec<String> = Vec::new();
            assert(text::texts(v@) =~= seq![]);
            v
        },
    }
}

/// Turns a package into a row.
pub fn encode_row(package: &InstalledPackage) -> (r: Result<PackageRow, LkpmError>)
    ensures
        match r {
            Ok(row) => {
                &&& row_package(row) == package@
                &&& row.files@ == json::json_of(package@.files)
                &&& row.requires@ == json::json_of(package@.requires)
                &&& row.optdepends@ == json::json_of(package@.optdepends)
                &&& row.conflicts@ == json::json_of(package@.conflicts)
                &&& row.provides@ == json::json_of(package@.provides)
                &&& row.backups@ == json::json_of(package@.backups)
                &&& row.backups_hashes@ == json::json_of(flat(package@.backups_hashes))
            },
            Err(_) => false,
        },
{
    let files = list_column(&package.files, "files")?;
    let required = list_column(&package.requires, "requires")?;
    let optdepends = list_column(&package.optdepends, "optdepends")?;
    let conflicts = list_column(&package.conflicts, "conflicts")?;
    let provides = list_column(&package.provides, "provides")?;
    let backups = list_column(&package.backups, "backups")?;
    let backups_hashes = list_column(&flatten_pairs(&package.backups_hashes), "backups_hashes")?;
    proof {
        paired_flat(package@.backups_hashes);
    }
    Ok(
        PackageRow {
            name: text::copy(&package.name),
            version: text::copy(&package.version),
            source: text::copy(&package.source),
            source_kind: text::copy(&package.source_kind),
            package_path: text::copy(&package.package_path),
            checksum: text::copy(&package.checksum),
            files,
            requires: required,
            optdepends,
            conflicts,
            provides,
            backups,
            backups_hashes,
            install_script: cli::copy_opt(&package.install_script),
        },
    )
}

/// Turns a row into a package.
pub fn decode_row(row: &PackageRow) -> (r: InstalledPackage)
    ensures
        r@ == row_package(*row),
{
    let hashes = read_column(&row.backups_hashes);
    InstalledPackage {
        name: text::copy(&row.name),
        version: text::copy(&row.version),
        source: text::copy(&row.source),
        source_kind: text::copy(&row.source_kind),
        package_path: text::copy(&row.package_path),
        checksum: text::copy(&row.checksum),
        files: read_column(&row.files),
        requires: read_column(&row.requires),
        optdepends: read_column(&row.optdepends),
        conflicts: read_column(&row.conflicts),
        provides: read_column(&row.provides),
        backups: read_column(&row.backups),
        backups_hashes: pair_up(&hashes),
        install_script: cli::copy_opt(&row.install_script),
    }
}

// ---------------------------------------------------------------------------
// The table

/// A table without the package of a name.
pub open spec fn without(table: Seq<InstalledView>, name: Seq<char>) -> Seq<InstalledView> {
    table.filter(|p: InstalledView| p.name != name)
}

/// A table with a package put in: it takes the place of one of the same name, and stands last.
pub open spec fn put(table: Seq<InstalledView>, package: InstalledView) -> Seq<InstalledView> {
    without(table, package.name).push(package)
}

/// The package of a name.
pub open spec fn lookup_package(table: Seq<InstalledView>, name: Seq<char>) -> Option<InstalledView>
    decreases table.len(),
{
    if table.len() == 0 {
        None
    } else if table[0].name == name {
        Some(table[0])
    } else {
        lookup_package(table.drop_first(), name)
    }
}

/// Whether no two packages have the same name.
pub open spec fn distinct(table: Seq<InstalledView>) -> bool {
    forall|i: int, j: int|
        0 <= i < j < table.len() ==> (#[trigger] table[i]).name != (#[trigger] table[j]).name
}

/// The table that packages make when they are put in one after the other.
pub open spec fn table_of(packages: Seq<InstalledView>) -> Seq<InstalledView>
    decreases packages.len(),
{
    if packages.len() == 0 {
        seq![]
    } else {
        put(table_of(packages.drop_last()), packages.last())
    }
}

/// The table of installed packages, the indexes of repositories that were
/// fetched, each by its address, and the file that both are kept in.
#[derive(Clone, Debug)]
pub struct Database {
    pub db_file: String,
    pub packages: Vec<InstalledPackage>,
    pub repo_cache: Vec<(String, String)>,
}

impl View for Database {
    type V = Seq<InstalledView>;

    open spec fn view(&self) -> Seq<InstalledView> {
        packages_of(self.packages@)
    }
}

impl Database {
    /// Whether the name of a package is its key: no two packages share one.
    pub open spec fn wf(self) -> bool {
        distinct(self@)
    }

    /// The indexes that were fetched, each with its address.
    pub open spec fn cache(self) -> Seq<(Seq<char>, Seq<char>)> {
        pair_texts(self.repo_cache@)
    }

    /// The file that the table is kept in.
    pub fn file_of(cfg: &Config) -> (r: String)
        ensures
            r@ == path::joined(cfg@.db_path, "lkpm-database.db"@),
    {
        path::join(&cfg.db_path, "lkpm-database.db")
    }

    /// The table that the rows of the database make.
    pub fn load(cfg: &Config, rows: &Vec<PackageRow>) -> (r: Database)
        ensures
            r.wf(),
            r.db_file@ == path::joined(cfg@.db_path, "lkpm-database.db"@),
            r@ == table_of(rows@.map_values(|row: PackageRow| row_package(row))),
            r.cache() == Seq::<(Seq<char>, Seq<char>)>::empty(),
    {
        let ghost all = rows@.map_values(|row: PackageRow| row_package(row));
        let mut db = Database {
            db_file: Database::file_of(cfg),
            packages: Vec::new(),
            repo_cache: Vec::new(),
        };
        let mut i: usize = 0;
        assert(db.cache() =~= Seq::<(Seq<char>, Seq<char>)>::empty());
        assert(db@ =~= table_of(all.take(0)));
        while i < rows.len()
            invariant
                i <= rows@.len(),
                all == rows@.map_values(|row: PackageRow| row_package(row)),
                db.wf(),
                db.db_file@ == path::joined(cfg@.db_path, "lkpm-database.db"@),
                db.cache() == Seq::<(Seq<char>, Seq<char>)>::empty(),
                db@ == table_of(all.take(i as int)),
            decreases rows@.len() - i,
        {
            assert(all.take(i + 1).drop_last() =~= all.take(i as int));
            assert(all[i as int] == row_package(rows@[i as int]));
            db.put_package(decode_row(&rows[i]));
            i = i + 1;
        }
        assert(all.take(all.len() as int) =~= all);
        db
    }

    /// The table without the package of a name.
    fn drop_package(&mut self, name: &str)
        requires
            old(self).wf(),
        ensures
            final(self).wf(),
            final(self).db_file == old(self).db_file,
            final(self).repo_cache == old(self).repo_cache,
            final(self)@ == without(old(self)@, name@),
            forall|i: int|
                0 <= i < final(self)@.len() ==> (#[trigger] final(self)@[i]).name != name@,
    {
        let ghost before = self@;
        let mut i: usize = 0;
        while i < self.packages.len()
            invariant
                i <= self.packages@.len(),
                self.db_file == old(self).db_file,
                self.repo_cache == old(self).repo_cache,
                before == old(self)@,
                distinct(before),
                forall|k: int| 0 <= k < i ==> (#[trigger] self@[k]).name != name@,
                self@ == before,
            decreases self.packages@.len() - i,
        {
            assert(self@[i as int] == self.packages@[i as int]@);
            if text::same(&self.packages[i].name, name) {
                self.packages.remove(i);
                proof {
                    assert(self@ =~= before.remove(i as int));
                    filter_removes(before, name@, i as int);
                    assert forall|k: int| 0 <= k < self@.len() implies (#[trigger] self@[k]).name
                        != name@ by {
                        if k < i {
                            assert(before[k].name != before[i as int].name);
                        } else {
                            assert(before[i as int].name != before[k + 1].name);
                        }
                    }
                    assert(distinct(self@));
                }
                return ;
            }
            i = i + 1;
        }
        proof {
            filter_keeps(before, name@);
        }
    }

    fn put_package(&mut self, package: InstalledPackage)
        requires
            old(self).wf(),
        ensures
            final(self).wf(),
            final(self).db_file == old(self).db_file,
            final(self).repo_cache == old(self).repo_cache,
            final(self)@ == put(old(self)@, package@),
    {
        self.drop_package(&package.name);
        let ghost before = self@;
        self.packages.push(package);
        assert(self@ =~= before.push(package@));
    }

    /// Puts a package into the table, in the place of one of the same name.
    /// Returns the row to write.
    pub fn register(&mut self, package: InstalledPackage) -> (r: Result<PackageRow, LkpmError>)
        requires
            old(self).wf(),
        ensures
            final(self).wf(),
            final(self).db_file == old(self).db_file,
            final(self).repo_cache == old(self).repo_cache,
            final(self)@ == put(old(self)@, package@),
            r matches Ok(row) && row_package(row) == package@,
    {
        let row = encode_row(&package)?;
        self.put_package(package);
        Ok(row)
    }

    /// Takes a package out of the table.
    pub fn remove(&mut self, name: &str) -> (r: Result<Option<InstalledPackage>, LkpmError>)
        requires
            old(self).wf(),
        ensures
            final(self).wf(),
            final(self).db_file == old(self).db_file,
            final(self).repo_cache == old(self).repo_cache,
            final(self)@ == without(old(self)@, name@),
            match r {
                Ok(Some(p)) => lookup_package(old(self)@, name@) == Some(p@),
                Ok(None) => lookup_package(old(self)@, name@) is None,
                Err(_) => false,
            },
    {
        let found = self.get(name);
        self.drop_package(name);
        found
    }

    /// The package of a name.
    pub fn get(&self, name: &str) -> (r: Result<Option<InstalledPackage>, LkpmError>)
        ensures
            match r {
                Ok(Some(p)) => lookup_package(self@, name@) == Some(p@),
                Ok(None) => lookup_package(self@, name@) is None,
                Err(_) => false,
            },
    {
        let mut i: usize = 0;
        assert(self@.skip(0) =~= self@);
        while i < self.packages.len()
            invariant
                i <= self.packages@.len(),
                lookup_package(self@, name@) == lookup_package(self@.skip(i as int), name@),
            decreases self.packages@.len() - i,
        {
            assert(self@.skip(i as int)[0] == self.packages@[i as int]@);
            assert(self@.skip(i as int).drop_first() =~= self@.skip(i + 1));
            if text::same(&self.packages[i].name, name) {
                return Ok(Some(self.packages[i].copy()));
            }
            i = i + 1;
        }
        Ok(None)
    }

    /// The package of a name.
    pub fn find(&self, name: &str) -> (r: Result<Option<InstalledPackage>, LkpmError>)
        ensures
            match r {
                Ok(Some(p)) => lookup_package(self@, name@) == Some(p@),
                Ok(None) => lookup_package(self@, name@) is None,
                Err(_) => false,
            },
    {
        self.get(name)
    }

    /// All packages, in the order of the table.
    pub fn list(&self) -> (r: Result<Vec<InstalledPackage>, LkpmError>)
        ensures
            match r {
                Ok(v) => packages_of(v@) == self@,
                Err(_) => false,
            },
    {
        Ok(copy_packages(&self.packages))
    }

    /// Stores the index of a repository, in the place of an older one.
    pub fn store_repo_index(&mut self, index_url: &str, index_json: &str)
        ensures
            final(self).db_file == old(self).db_file,
            final(self).packages == old(self).packages,
            final(self).cache() == without_key(old(self).cache(), index_url@).push(
                (index_url@, index_json@),
            ),
    {
        let mut kept = drop_key(&self.repo_cache, index_url);
        let ghost before = kept@;
        kept.push((index_url.to_owned(), index_json.to_owned()));
        assert(pair_texts(kept@) =~= pair_texts(before).push((index_url@, index_json@)));
        self.repo_cache = kept;
    }

    /// The index of a repository, if it was stored.
    pub fn read_repo_index(&self, index_url: &str) -> (r: Option<String>)
        ensures
            crate::cli::opt_text(r) == lookup(self.cache(), index_url@),
    {
        lookup_pair(&self.repo_cache, index_url)
    }
}

/// A list of pairs without those of a key.
pub open spec fn without_key(
    pairs: Seq<(Seq<char>, Seq<char>)>,
    key: Seq<char>,
) -> Seq<(Seq<char>, Seq<char>)>
    decreases pairs.len(),
{
    if pairs.len() == 0 {
        seq![]
    } else if pairs.last().0 == key {
        without_key(pairs.drop_last(), key)
    } else {
        without_key(pairs.drop_last(), key).push(pairs.last())
    }
}

/// A list of pairs without those of a key.
pub fn drop_key(pairs: &Vec<(String, String)>, key: &str) -> (r: Vec<(String, String)>)
    ensures
        pair_texts(r@) == without_key(pair_texts(pairs@), key@),
{
    let ghost all = pair_texts(pairs@);
    let mut out: Vec<(String, String)> = Vec::new();
    let mut i: usize = 0;
    assert(pair_texts(out@) =~= without_key(all.take(0), key@));
    while i < pairs.len()
        invariant
            i <= pairs@.len(),
            all == pair_texts(pairs@),
            pair_texts(out@) == without_key(all.take(i as int), key@),
        decreases pairs@.len() - i,
    {
        assert(all.take(i + 1).drop_last() =~= all.take(i as int));
        assert(all[i as int] == (pairs@[i as int].0@, pairs@[i as int].1@));
        if !text::same(&pairs[i].0, key) {
            let ghost before = out@;
            out.push((text::copy(&pairs[i].0), text::copy(&pairs[i].1)));
            assert(pair_texts(out@) =~= pair_texts(before).push(
                all[i as int],
            ));
        }
        i = i + 1;
    }
    assert(all.take(all.len() as int) =~= all);
    out
}

/// What was stored for a repository is read for it, and what was stored for
/// others stays.
pub proof fn index_after_store(
    cache: Seq<(Seq<char>, Seq<char>)>,
    url: Seq<char>,
    json: Seq<char>,
    other: Seq<char>,
)
    ensures
        lookup(without_key(cache, url).push((url, json)), url) == Some(json),
        other != url ==> lookup(without_key(cache, url).push((url, json)), other) == lookup(
            cache,
            other,
        ),
{
    let stored = without_key(cache, url).push((url, json));
    assert(stored.drop_last() =~= without_key(cache, url));
    if other != url {
        lookup_without(cache, url, other);
    }
}

proof fn lookup_without(pairs: Seq<(Seq<char>, Seq<char>)>, key: Seq<char>, other: Seq<char>)
    requires
        other != key,
    ensures
        lookup(without_key(pairs, key), other) == lookup(pairs, other),
    decreases pairs.len(),
{
    if pairs.len() > 0 {
        lookup_without(pairs.drop_last(), key, other);
        let rest = without_key(pairs.drop_last(), key);
        if pairs.last().0 != key {
            assert(rest.push(pairs.last()).drop_last() =~= rest);
        }
    }
}

/// Copies a list of packages.
pub fn copy_packages(v: &Vec<InstalledPackage>) -> (r: Vec<InstalledPackage>)
    ensures
        packages_of(r@) == packages_of(v@),
{
    let mut out: Vec<InstalledPackage> = Vec::new();
    let mut i: usize = 0;
    while i < v.len()
        invariant
            i <= v@.len(),
            packages_of(out@) == packages_of(v@).take(i as int),
        decreases v@.len() - i,
    {
        let ghost before = out@;
        out.push(v[i].copy());
        assert(packages_of(out@) =~= packages_of(before).push(v@[i as int]@));
        i = i + 1;
        assert(packages_of(out@) =~= packages_of(v@).take(i as int));
    }
    assert(packages_of(v@).take(v@.len() as int) =~= packages_of(v@));
    out
}

/// Where no package has the name, a table is unchanged by leaving it out.
proof fn filter_keeps(table: Seq<InstalledView>, name: Seq<char>)
    requires
        forall|i: int| 0 <= i < table.len() ==> (#[trigger] table[i]).name != name,
    ensures
        without(table, name) == table,
    decreases table.len(),
{
    reveal(Seq::filter);
    if table.len() > 0 {
        let rest = table.drop_last();
        assert forall|i: int| 0 <= i < rest.len() implies (#[trigger] rest[i]).name != name by {
            assert(rest[i] == table[i]);
        }
        filter_keeps(rest, name);
        assert(table.last() == table[table.len() - 1]);
        assert(table =~= rest.push(table.last()));
    }
}

/// Where one package has the name, leaving it out removes that one.
proof fn filter_removes(table: Seq<InstalledView>, name: Seq<char>, at: int)
    requires
        distinct(table),
        0 <= at < table.len(),
        table[at].name == name,
    ensures
        without(table, name) == table.remove(at),
    decreases table.len(),
{
    reveal(Seq::filter);
    let rest = table.drop_last();
    assert(forall|i: int| 0 <= i < rest.len() ==> rest[i] == table[i]);
    assert(distinct(rest));
    if at == table.len() - 1 {
        assert forall|i: int| 0 <= i < rest.len() implies (#[trigger] rest[i]).name != name by {
            assert(table[i].name != table[at].name);
        }
        filter_keeps(rest, name);
        assert(table.remove(at) =~= rest);
    } else {
        filter_removes(rest, name, at);
        assert(table[at].name != table[table.len() - 1].name);
        assert(table.remove(at) =~= rest.remove(at).push(table.last()));
    }
}

/// What the lookup finds is in the table and has the name; where it finds
/// nothing, no package has it.
pub proof fn lookup_finds(table: Seq<InstalledView>, name: Seq<char>)
    ensures
        match lookup_package(table, name) {
            Some(p) => p.name == name && table.contains(p),
            None => forall|i: int| 0 <= i < table.len() ==> (#[trigger] table[i]).name != name,
        },
    decreases table.len(),
{
    if table.len() > 0 {
        if table[0].name == name {
            assert(table.contains(table[0]));
        } else {
            let rest = table.drop_first();
            lookup_finds(rest, name);
            match lookup_package(rest, name) {
                Some(p) => {
                    let k = choose|k: int| 0 <= k < rest.len() && rest[k] == p;
                    assert(table[k + 1] == p);
                },
                None => {
                    assert forall|i: int| 0 <= i < table.len() implies (#[trigger] table[i]).name
                        != name by {
                        if i > 0 {
                            assert(table[i] == rest[i - 1]);
                        }
                    }
                },
            }
        }
    }
}

/// In a table with distinct names, the lookup finds each package by its name.
pub proof fn lookup_is(table: Seq<InstalledView>, at: int)
    requires
        distinct(table),
        0 <= at < table.len(),
    ensures
        lookup_package(table, table[at].name) == Some(table[at]),
{
    lookup_finds(table, table[at].name);
    let found = lookup_package(table, table[at].name);
    if found is Some {
        let p = found->0;
        let k = choose|k: int| 0 <= k < table.len() && table[k] == p;
        if k < at {
            assert(table[k].name != table[at].name);
        } else if at < k {
            assert(table[at].name != table[k].name);
        }
    }
}

/// A package that has been put in is read back as it was, and no other is changed.
pub proof fn read_after_put(table: Seq<InstalledView>, package: InstalledView, name: Seq<char>)
    requires
        distinct(table),
    ensures
        distinct(put(table, package)),
        lookup_package(put(table, package), package.name) == Some(package),
        name != package.name ==> lookup_package(put(table, package), name) == lookup_package(
            table,
            name,
        ),
{
    without_shape(table, package.name);
    let rest = without(table, package.name);
    let t = put(table, package);
    assert(t =~= rest.push(package));
    assert(distinct(t));
    lookup_is(t, t.len() - 1);
    if name != package.name {
        read_after_remove(table, package.name, name);
        lookup_push(rest, package, name);
    }
}

/// A package put at the end is not found under another name.
proof fn lookup_push(table: Seq<InstalledView>, package: InstalledView, name: Seq<char>)
    requires
        package.name != name,
    ensures
        lookup_package(table.push(package), name) == lookup_package(table, name),
    decreases table.len(),
{
    let t = table.push(package);
    if table.len() > 0 {
        assert(t.drop_first() =~= table.drop_first().push(package));
        lookup_push(table.drop_first(), package, name);
    } else {
        assert(t.drop_first() =~= table);
        assert(t[0] == package);
    }
}

/// What is left when a name is left out: the other packages, still distinct.
proof fn without_shape(table: Seq<InstalledView>, name: Seq<char>)
    requires
        distinct(table),
    ensures
        distinct(without(table, name)),
        forall|i: int|
            0 <= i < without(table, name).len() ==> (#[trigger] without(table, name)[i]).name
                != name,
{
    lookup_finds(table, name);
    if lookup_package(table, name) is Some {
        let p = lookup_package(table, name)->0;
        let k = choose|k: int| 0 <= k < table.len() && table[k] == p;
        filter_removes(table, name, k);
        let t = table.remove(k);
        assert forall|i: int| 0 <= i < t.len() implies (#[trigger] t[i]).name != name by {
            if i < k {
                assert(t[i] == table[i]);
                assert(table[i].name != table[k].name);
            } else {
                assert(t[i] == table[i + 1]);
                assert(table[k].name != table[i + 1].name);
            }
        }
        assert forall|i: int, j: int| 0 <= i < j < t.len() implies (#[trigger] t[i]).name != (
        #[trigger] t[j]).name by {
            let a = if i < k {
                i
            } else {
                i + 1
            };
            let b = if j < k {
                j
            } else {
                j + 1
            };
            assert(t[i] == table[a] && t[j] == table[b]);
        }
    } else {
        filter_keeps(table, name);
    }
}

/// A package that has been removed is gone, and no other is changed.
pub proof fn read_after_remove(table: Seq<InstalledView>, removed: Seq<char>, name: Seq<char>)
    requires
        distinct(table),
    ensures
        distinct(without(table, removed)),
        lookup_package(without(table, removed), removed) is None,
        name != removed ==> lookup_package(without(table, removed), name) == lookup_package(
            table,
            name,
        ),
{
    without_shape(table, removed);
    let t = without(table, removed);
    lookup_finds(t, removed);
    if lookup_package(t, removed) is Some {
        let p = lookup_package(t, removed)->0;
        let k = choose|k: int| 0 <= k < t.len() && t[k] == p;
        assert(t[k].name != removed);
    }
    if name != removed {
        lookup_finds(table, name);
        lookup_finds(t, name);
        if lookup_package(table, name) is Some {
            let p = lookup_package(table, name)->0;
            assert(t.contains(p)) by {
                filter_has(table, removed, p);
            }
            let k = choose|k: int| 0 <= k < t.len() && t[k] == p;
            lookup_is(t, k);
        } else if lookup_package(t, name) is Some {
            let p = lookup_package(t, name)->0;
            filter_has(table, removed, p);
            let k = choose|k: int| 0 <= k < table.len() && table[k] == p;
            assert(table[k].name != name);
        }
    }
}

/// What is left when a name is left out is what has another name.
proof fn filter_has(table: Seq<InstalledView>, removed: Seq<char>, p: InstalledView)
    ensures
        without(table, removed).contains(p) <==> table.contains(p) && p.name != removed,
    decreases table.len(),
{
    reveal(Seq::filter);
    if table.len() > 0 {
        let rest = table.drop_last();
        filter_has(rest, removed, p);
        let t = without(table, removed);
        let r = without(rest, removed);
        if table.contains(p) {
            let k = choose|k: int| 0 <= k < table.len() && table[k] == p;
            if k < rest.len() {
                assert(rest[k] == p);
            } else {
                assert(table.last() == p);
                if p.name != removed {
                    assert(t[t.len() - 1] == p);
                }
            }
        }
        if rest.contains(p) {
            let k = choose|k: int| 0 <= k < rest.len() && rest[k] == p;
            assert(table[k] == p);
        }
        if r.contains(p) {
            let k = choose|k: int| 0 <= k < r.len() && r[k] == p;
            assert(t[k] == p);
        }
        if t.contains(p) {
            let k = choose|k: int| 0 <= k < t.len() && t[k] == p;
            if k < r.len() {
                assert(r[k] == p);
            } else {
                assert(table[table.len() - 1] == p);
            }
        }
    }
}

/// The rows of a table with distinct names make that table.
pub proof fn table_of_distinct(packages: Seq<InstalledView>)
    requires
        distinct(packages),
    ensures
        table_of(packages) == packages,
    decreases packages.len(),
{
    if packages.len() > 0 {
        let rest = packages.drop_last();
        assert(forall|i: int| 0 <= i < rest.len() ==> rest[i] == packages[i]);
        assert(distinct(rest));
        table_of_distinct(rest);
        assert forall|i: int| 0 <= i < rest.len() implies (#[trigger] rest[i]).name
            != packages.last().name by {
            assert(packages[i].name != packages[packages.len() - 1].name);
        }
        filter_keeps(rest, packages.last().name);
        assert(packages =~= rest.push(packages.last()));
    } else {
        assert(packages =~= seq![]);
    }
}

/// What is looked up is the last value that was taken down for its key.
pub proof fn last_value_is_looked_up(pairs: Seq<(Seq<char>, Seq<char>)>, key: Seq<char>, i: int)
    requires
        0 <= i < pairs.len(),
        pairs[i].0 == key,
        forall|k: int| i < k < pairs.len() ==> (#[trigger] pairs[k]).0 != key,
    ensures
        lookup(pairs, key) == Some(pairs[i].1),
    decreases pairs.len(),
{
    if i < pairs.len() - 1 {
        assert(pairs[pairs.len() - 1].0 != key);
        assert forall|k: int| i < k < pairs.drop_last().len() implies (
        #[trigger] pairs.drop_last()[k]).0 != key by {
            assert(pairs[k].0 != key);
        }
        last_value_is_looked_up(pairs.drop_last(), key, i);
    }
}

/// Nothing is looked up for a key that was never taken down.
pub proof fn unknown_keys_have_no_value(pairs: Seq<(Seq<char>, Seq<char>)>, key: Seq<char>)
    requires
        forall|k: int| 0 <= k < pairs.len() ==> (#[trigger] pairs[k]).0 != key,
    ensures
        lookup(pairs, key) is None,
    decreases pairs.len(),
{
    if pairs.len() > 0 {
        assert(pairs[pairs.len() - 1].0 != key);
        assert forall|k: int| 0 <= k < pairs.drop_last().len() implies (
        #[trigger] pairs.drop_last()[k]).0 != key by {
            assert(pairs[k].0 != key);
        }
        unknown_keys_have_no_value(pairs.drop_last(), key);
    }
}

/// Each column of a row is the field of the record that bears its name; a
/// column that holds no list counts as an empty one.
pub proof fn columns_are_fields(row: PackageRow, list: Seq<Seq<char>>)
    ensures
        ({
            let p = row_package(row);
            &&& p.name == row.name@
            &&& p.version == row.version@
            &&& p.source == row.source@
            &&& p.source_kind == row.source_kind@
            &&& p.package_path == row.package_path@
            &&& p.checksum == row.checksum@
            &&& p.install_script == cli::opt_text(row.install_script)
            &&& json::list_of(row.files@) == Some(list) ==> p.files == list
            &&& json::list_of(row.requires@) == Some(list) ==> p.requires == list
            &&& json::list_of(row.optdepends@) == Some(list) ==> p.optdepends == list
            &&& json::list_of(row.conflicts@) == Some(list) ==> p.conflicts == list
            &&& json::list_of(row.provides@) == Some(list) ==> p.provides == list
            &&& json::list_of(row.backups@) == Some(list) ==> p.backups == list
            &&& json::list_of(row.files@) is None ==> p.files.len() == 0
        }),
{
}

/// Of several rows with one name, the last one counts.
pub proof fn last_row_counts(packages: Seq<InstalledView>, i: int)
    requires
        0 <= i < packages.len(),
        forall|k: int| i < k < packages.len() ==> (#[trigger] packages[k]).name != packages[i].name,
    ensures
        distinct(table_of(packages)),
        lookup_package(table_of(packages), packages[i].name) == Some(packages[i]),
    decreases packages.len(),
{
    let init = packages.drop_last();
    table_stays_distinct(init);
    read_after_put(table_of(init), packages.last(), packages[i].name);
    if i < init.len() {
        assert(packages[packages.len() - 1].name != packages[i].name);
        assert forall|k: int| i < k < init.len() implies (#[trigger] init[k]).name
            != init[i].name by {
            assert(packages[k].name != packages[i].name);
        }
        last_row_counts(init, i);
    }
}

proof fn table_stays_distinct(packages: Seq<InstalledView>)
    ensures
        distinct(table_of(packages)),
    decreases packages.len(),
{
    if packages.len() > 0 {
        table_stays_distinct(packages.drop_last());
        read_after_put(table_of(packages.drop_last()), packages.last(), packages.last().name);
    }
}

} // verus!
